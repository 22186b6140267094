use facts::skills::{run, SkillsAction, SkillsOutput};

fn skills() -> Vec<(String, String)> {
    vec![
        (
            "facts".to_string(),
            "---\nname: facts\ndescription: Keep a short list of checked facts.\n---\n# body\n".to_string(),
        ),
        (
            "facts-long".to_string(),
            "---\nname: facts-long\ndescription: >\n  This description is long enough that it has to be cut somewhere before\n  the end of the line shown.\nother: x\n---\n".to_string(),
        ),
    ]
}

fn printed(r: Result<SkillsOutput, String>) -> String {
    match r {
        Ok(SkillsOutput::Print(t)) => t,
        _ => panic!("expected text"),
    }
}

#[test]
fn skills_list_shows_names_and_descriptions() {
    let text = printed(run(&SkillsAction::List, &skills()));
    let lines: Vec<&str> = text.lines().collect();
    assert_eq!(lines[0], "facts                Keep a short list of checked facts.");
    assert_eq!(
        lines[1],
        "facts-long           This description is long enough that it has to be cut somewhere before\u{2026}"
    );
    assert_eq!(lines[2], "");
    assert_eq!(lines[3], "Use `facts skills show <name>` to read a skill.");
    assert_eq!(lines[4], "Use `facts skills update` to install or update skills in your project.");
    assert_eq!(lines.len(), 5);
}

#[test]
fn skills_show_prints_text() {
    let t = printed(run(&SkillsAction::Show { name: "facts".to_string() }, &skills()));
    assert!(t.starts_with("---\nname: facts\n"));
}

#[test]
fn skills_show_unknown_is_an_error() {
    let e = run(&SkillsAction::Show { name: "nope".to_string() }, &skills()).err().unwrap();
    assert_eq!(e, "unknown skill 'nope'. Run `facts skills` to see available skills.");
}

#[test]
fn skills_update_asks_to_install() {
    assert!(matches!(run(&SkillsAction::Update, &skills()), Ok(SkillsOutput::Install)));
}

#[test]
fn skills_description_without_front_matter_is_empty() {
    let s = vec![("plain".to_string(), "# no front matter\n".to_string())];
    let text = printed(run(&SkillsAction::List, &s));
    assert_eq!(text.lines().next().unwrap(), "plain                ");
}
