use facts::add::{add_to_section, parse_tags, run, validate, AddOptions};
use facts::model::FactSheet;
use facts::parser;


#[test]
fn test_parse_tags() {
    assert_eq!(parse_tags("mvp,core").unwrap(), vec!["mvp", "core"]);
    assert_eq!(parse_tags("mvp, core, ").unwrap(), vec!["mvp", "core"]);
    assert_eq!(parse_tags("single").unwrap(), vec!["single"]);
}

#[test]
fn test_parse_tags_strips_at_prefix() {
    assert_eq!(parse_tags("@mvp,@core").unwrap(), vec!["mvp", "core"]);
    assert_eq!(parse_tags("@mvp,core").unwrap(), vec!["mvp", "core"]);
    assert_eq!(parse_tags("@mvp").unwrap(), vec!["mvp"]);
}

#[test]
fn test_parse_tags_rejects_whitespace() {
    let err = parse_tags("has space").unwrap_err();
    assert!(
        err.to_string().contains("cannot contain whitespace"),
        "unexpected error: {err}"
    );

    let err = parse_tags("ok,has space,also_ok").unwrap_err();
    assert!(
        err.to_string().contains("'has space'"),
        "error should name the bad tag: {err}"
    );
}

#[test]
fn test_parse_tags_rejects_parentheses() {
    let err = parse_tags("v(beta)").unwrap_err();
    assert!(
        err.to_string().contains("cannot contain parentheses"),
        "unexpected error: {err}"
    );

    let err = parse_tags("ok,v(beta),also_ok").unwrap_err();
    assert!(
        err.to_string().contains("'v(beta)'"),
        "error should name the bad tag: {err}"
    );
}

#[test]
fn test_parse_tags_rejects_operator_names() {
    for op in &["not", "and", "or"] {
        let err = parse_tags(op).unwrap_err();
        assert!(
            err.to_string().contains("conflicts with filter operator"),
            "expected operator conflict error for '{op}', got: {err}"
        );
    }
    let err = parse_tags("ok,not,also_ok").unwrap_err();
    assert!(
        err.to_string().contains("not"),
        "error should mention the bad tag: {err}"
    );
}

fn opts(label: &str) -> AddOptions {
    AddOptions {
        label: label.to_string(),
        file: None,
        section: None,
        command: None,
        id: None,
        tags: vec![],
    }
}

fn empty_sheet() -> FactSheet {
    FactSheet {
        filename: ".facts".to_string(),
        preamble: vec![],
        sections: vec![],
    }
}

#[test]
fn test_add_to_empty_sheet_renders_plain_fact() {
    let sheet = run(&opts("a new fact"), &vec![], None).unwrap();
    assert_eq!(facts::writer::write(&sheet), "- a new fact\n");
    assert_eq!(sheet.filename, ".facts");
}

#[test]
fn test_add_to_existing_sheet_appends() {
    let existing = parser::parse("- first\n", ".facts").unwrap();
    let sheet = run(&opts("second"), &vec![], Some(existing)).unwrap();
    assert_eq!(facts::writer::write(&sheet), "- first\n- second\n");
}

#[test]
fn test_add_with_command_and_tags() {
    let mut o = opts("checked fact @mvp");
    o.command = Some("echo ok".to_string());
    o.tags = vec!["core".to_string(), "mvp".to_string()];
    let sheet = run(&o, &vec![], None).unwrap();
    let out = facts::writer::write(&sheet);
    assert!(out.contains("label: checked fact"), "{out}");
    assert!(out.contains("command: echo ok"), "{out}");
    assert!(out.contains("tags: [mvp, core]"), "{out}");
}

#[test]
fn test_add_creates_nested_section() {
    let mut o = opts("deep fact");
    o.section = Some("cli/add".to_string());
    let sheet = run(&o, &vec![], None).unwrap();
    let out = facts::writer::write(&sheet);
    assert!(out.contains("# cli\n"), "{out}");
    assert!(out.contains("## add\n"), "{out}");
    assert!(out.contains("- deep fact"), "{out}");
}

#[test]
fn test_add_to_existing_section_ignores_case() {
    let existing = parser::parse("# CLI\n\n- old\n", ".facts").unwrap();
    let mut o = opts("new");
    o.section = Some("cli".to_string());
    let sheet = run(&o, &vec![], Some(existing)).unwrap();
    assert_eq!(sheet.sections.len(), 1);
    assert_eq!(sheet.sections[0].facts.len(), 2);
}

#[test]
fn test_add_rejects_empty_id_and_label() {
    let mut o = opts("some fact");
    o.id = Some("".to_string());
    assert_eq!(run(&o, &vec![], None).unwrap_err(), "ID cannot be empty");
    assert_eq!(run(&opts("@only"), &vec![], None).unwrap_err(), "label cannot be empty");
    assert_eq!(
        run(&opts("two\nlines"), &vec![], None).unwrap_err(),
        "label cannot contain newlines"
    );
}

#[test]
fn test_add_rejects_duplicate_explicit_id() {
    let existing = parser::parse("- label: x\n  id: abc\n", ".facts").unwrap();
    let mut o = opts("another");
    o.id = Some("abc".to_string());
    assert_eq!(
        run(&o, &vec![existing], None).unwrap_err(),
        "ID already exists: abc"
    );
}

#[test]
fn test_add_file_name_rules() {
    let mut o = opts("x");
    o.file = Some("api".to_string());
    assert_eq!(validate(&o).unwrap(), "api.facts");
    o.file = Some("/abs.facts".to_string());
    assert_eq!(
        validate(&o).unwrap_err(),
        "file path must be relative, not absolute"
    );
    o.file = Some("sub/dir.facts".to_string());
    assert_eq!(
        validate(&o).unwrap_err(),
        "file must be in the project root (no subdirectory paths)"
    );
}

#[test]
fn test_add_section_path_errors() {
    let f = parser::parse("- x\n", ".facts").unwrap().preamble.remove(0);
    let mut sheet = empty_sheet();
    assert_eq!(
        add_to_section(&mut sheet, "a//b", f).unwrap_err(),
        "section path cannot contain empty components"
    );
    let f = parser::parse("- x\n", ".facts").unwrap().preamble.remove(0);
    assert_eq!(
        add_to_section(&mut sheet, "a/b/c/d/e/f/g", f).unwrap_err(),
        "section path too deep (max 6 levels)"
    );
}

#[test]
fn accepted_tags_are_well_formed() {
    assert_eq!(parse_tags("@x, y ,,@@z").unwrap(), vec!["x", "y", "z"]);
    assert!(parse_tags("a b").is_err());
    assert!(parse_tags("or").is_err());
    assert!(parse_tags("(x)").is_err());
}

#[test]
fn double_at_tag_stripped_to_single() {
    let sheet = run(&opts("fact @@important"), &vec![], None).unwrap();
    let content = facts::writer::write(&sheet);
    assert!(content.contains("@important"), "should contain @important, got:\n{content}");
    assert!(!content.contains("@@important"), "should NOT contain @@important, got:\n{content}");
    assert_eq!(sheet.preamble[0].tags, vec!["important"]);
}

#[test]
fn computed_id_extended_when_colliding_with_explicit_id() {
    let first = run(&opts("alpha fact"), &vec![], None).unwrap();
    let computed = facts::id::assign_ids(&[("alpha fact".to_string(), None)])[0].clone();
    let mut o = opts("beta fact");
    o.id = Some(computed.clone());
    let sheet = run(&o, &vec![], Some(first)).unwrap();
    let labels: Vec<(String, Option<String>)> = sheet
        .all_facts()
        .iter()
        .map(|(_, f)| (f.label.clone(), f.explicit_id.clone()))
        .collect();
    let ids = facts::id::assign_ids(&labels);
    assert_eq!(ids.len(), 2);
    assert_eq!(ids[1], computed);
    assert_ne!(ids[0], ids[1]);
}
