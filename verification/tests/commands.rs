use facts::edit::{apply_edits, EditOptions};
use facts::id::assign_ids;
use facts::model::FactSheet;
use facts::move_fact::MoveOptions;
use facts::parser;

fn sheet(content: &str) -> FactSheet {
    parser::parse(content, ".facts").unwrap()
}

fn id_for(sheets: &[FactSheet], label: &str) -> String {
    let mut labels = Vec::new();
    let mut found = None;
    for s in sheets {
        for (_, f) in s.all_facts() {
            if f.label == label && found.is_none() {
                found = Some(labels.len());
            }
            labels.push((f.label.clone(), f.explicit_id.clone()));
        }
    }
    let ids = assign_ids(&labels);
    ids[found.expect("label present")].clone()
}

fn out(s: &FactSheet) -> String {
    facts::writer::write(s)
}

fn edit_opts(ids: Vec<String>) -> EditOptions {
    EditOptions {
        target_ids: ids,
        label: None,
        command: None,
        new_id: None,
        tags: None,
        add_tags: None,
        remove_tags: None,
    }
}

#[test]
fn test_remove_fact_by_id_and_label() {
    let mut sheets = vec![sheet("- keep me\n- remove me\n")];
    let id = id_for(&sheets, "remove me");
    let r = facts::remove::run(&id, &mut sheets).unwrap();
    assert_eq!(r.label, "remove me");
    assert_eq!(r.sheet_index, 0);
    assert_eq!(out(&sheets[0]), "- keep me\n");
}

#[test]
fn test_remove_cleans_up_empty_sections() {
    let mut sheets = vec![sheet("- top\n\n# a\n\n## b\n\n- only\n")];
    let id = id_for(&sheets, "only");
    facts::remove::run(&id, &mut sheets).unwrap();
    assert!(sheets[0].sections.is_empty());
    assert_eq!(out(&sheets[0]), "- top\n");
}

#[test]
fn test_remove_child_keeps_parent_with_facts() {
    let mut sheets = vec![sheet("# a\n\n- parent fact\n\n## b\n\n- child\n")];
    let id = id_for(&sheets, "child");
    facts::remove::run(&id, &mut sheets).unwrap();
    assert_eq!(sheets[0].sections.len(), 1);
    assert!(sheets[0].sections[0].children.is_empty());
    assert_eq!(sheets[0].sections[0].facts.len(), 1);
}

#[test]
fn test_remove_unknown_id_errors() {
    let mut sheets = vec![sheet("- some fact\n")];
    let err = facts::remove::run("zzz", &mut sheets).err().unwrap();
    assert_eq!(err, "no fact found with ID 'zzz'");
    assert_eq!(out(&sheets[0]), "- some fact\n");
}

#[test]
fn test_edit_label_command_and_tags() {
    let mut sheets = vec![sheet("- original label\n")];
    let id = id_for(&sheets, "original label");
    let mut o = edit_opts(vec![id]);
    o.label = Some("new label @x".to_string());
    o.command = Some("echo new".to_string());
    o.add_tags = Some(vec!["y".to_string(), "x".to_string()]);
    let changed = facts::edit::run(&o, &mut sheets).unwrap();
    assert_eq!(changed, vec![0]);
    let f = &sheets[0].preamble[0];
    assert_eq!(f.label, "new label");
    assert_eq!(f.tags, vec!["x", "y"]);
    assert!(!f.is_plain);
    assert_eq!(f.raw, "- label: new label\n  command: echo new\n  tags: [x, y]");
}

#[test]
fn test_edit_option_errors() {
    let mut sheets = vec![sheet("- a\n- b\n")];
    assert_eq!(
        facts::edit::run(&edit_opts(vec![]), &mut sheets).err().unwrap(),
        "at least one ID is required"
    );
    let mut o = edit_opts(vec!["p".to_string(), "q".to_string()]);
    o.new_id = Some("n".to_string());
    assert_eq!(
        facts::edit::run(&o, &mut sheets).err().unwrap(),
        "--new-id cannot be used with multiple IDs"
    );
    let o = edit_opts(vec!["nope".to_string()]);
    assert_eq!(
        facts::edit::run(&o, &mut sheets).err().unwrap(),
        "no fact found with ID 'nope'"
    );
}

#[test]
fn test_edit_rejects_existing_new_id() {
    let mut sheets = vec![sheet("- label: a\n  id: taken\n- b\n")];
    let id = id_for(&sheets, "b");
    let mut o = edit_opts(vec![id]);
    o.new_id = Some("taken".to_string());
    assert_eq!(
        facts::edit::run(&o, &mut sheets).err().unwrap(),
        "ID already exists: taken"
    );
}

#[test]
fn test_apply_edits_remove_and_replace_tags() {
    let mut f = sheet("- label: t\n  tags: [a, b, c]\n").preamble.remove(0);
    let mut o = edit_opts(vec![]);
    o.remove_tags = Some(vec!["b".to_string()]);
    apply_edits(&mut f, &o);
    assert_eq!(f.tags, vec!["a", "c"]);
    o.remove_tags = None;
    o.tags = Some(vec!["z".to_string()]);
    apply_edits(&mut f, &o);
    assert_eq!(f.tags, vec!["z"]);
}

#[test]
fn test_get_lines() {
    let sheets = vec![sheet("# sec\n\n- label: shown\n  id: sid\n  command: echo hi\n  tags: [a, b]\n")];
    let lines = facts::get::run("sid", &sheets).unwrap();
    assert_eq!(
        lines,
        vec![
            "label: shown",
            "section: sec",
            "file: .facts",
            "id: sid",
            "command: echo hi",
            "tags: [a, b]"
        ]
    );
    assert_eq!(
        facts::get::run("zzz", &sheets).err().unwrap(),
        "no fact found with ID 'zzz'"
    );
}

#[test]
fn test_move_to_section_same_file() {
    let mut sheets = vec![sheet("- mover\n- stayer\n")];
    let id = id_for(&sheets, "mover");
    let o = MoveOptions {
        target_id: id.clone(),
        target_section: Some("dest".to_string()),
        target_file: None,
    };
    let m = facts::move_fact::run(&o, &mut sheets).unwrap();
    assert_eq!(m.id, id);
    assert!(!m.created);
    assert_eq!(m.source_index, m.target_index);
    let o = out(&sheets[0]);
    assert!(o.starts_with("- stayer\n"), "{o}");
    assert!(o.contains("# dest"), "{o}");
    assert!(o.contains("- mover"), "{o}");
}

#[test]
fn test_move_into_existing_section_cleans_source() {
    let content = "# alpha\n\n- fact to move\n\n# beta\n\n- existing beta fact\n";
    let mut sheets = vec![sheet(content)];
    let id = id_for(&sheets, "fact to move");
    let o = MoveOptions {
        target_id: id,
        target_section: Some("beta".to_string()),
        target_file: None,
    };
    facts::move_fact::run(&o, &mut sheets).unwrap();
    let result = out(&sheets[0]);
    assert!(!result.contains("# alpha"), "{result}");
    assert!(result.contains("# beta"));
    assert!(result.contains("fact to move"));
    assert!(result.contains("existing beta fact"));
}

#[test]
fn test_move_to_new_file_and_errors() {
    let mut sheets = vec![sheet("# a\n\n- only\n")];
    let id = id_for(&sheets, "only");
    let o = MoveOptions {
        target_id: id,
        target_section: None,
        target_file: Some("api".to_string()),
    };
    let m = facts::move_fact::run(&o, &mut sheets).unwrap();
    assert!(m.created);
    assert_eq!(sheets.len(), 2);
    assert_eq!(sheets[1].filename, "api.facts");
    assert_eq!(out(&sheets[1]), "- only\n");
    assert!(sheets[0].sections.is_empty());
    let none = MoveOptions {
        target_id: "x".to_string(),
        target_section: None,
        target_file: None,
    };
    assert_eq!(
        facts::move_fact::run(&none, &mut sheets).err().unwrap(),
        "must provide at least one of --section or --file"
    );
}

fn labels_in_order(s: &FactSheet) -> Vec<String> {
    s.all_facts().iter().map(|(_, f)| f.label.clone()).collect()
}

#[test]
fn ids_listed_are_accepted_by_other_commands() {
    let mut sheets = vec![sheet("- alpha\n\n# s\n\n- beta\n"), parser::parse("- gamma\n", "b.facts").unwrap()];
    let opts = facts::list::ListOptions {
        file_filter: None,
        section_filter: None,
        has_command: false,
        manual: false,
        tags_expr: None,
    };
    let lines = facts::list::list_lines(&opts, &sheets).unwrap();
    let line = lines.iter().find(|l| l.contains("gamma")).unwrap();
    let id = line.split_whitespace().next().unwrap().to_string();
    let details = facts::get::run(&id, &sheets).unwrap();
    assert_eq!(details[0], "label: gamma");
    let removed = facts::remove::run(&id, &mut sheets).unwrap();
    assert_eq!(removed.label, "gamma");
    assert_eq!(removed.sheet_index, 1);
}

#[test]
fn remove_keeps_every_other_fact_in_order() {
    let mut sheets = vec![sheet("- one\n\n# a\n\n- two\n- three\n\n## b\n\n- four\n")];
    let id = id_for(&sheets, "three");
    facts::remove::run(&id, &mut sheets).unwrap();
    assert_eq!(labels_in_order(&sheets[0]), vec!["one", "two", "four"]);
}

#[test]
fn edit_changes_only_the_named_fact() {
    let mut sheets = vec![sheet("- one\n\n# a\n\n- two\n- three\n")];
    let id = id_for(&sheets, "two");
    let mut opts = edit_opts(vec![id]);
    opts.label = Some("second".to_string());
    facts::edit::run(&opts, &mut sheets).unwrap();
    assert_eq!(labels_in_order(&sheets[0]), vec!["one", "second", "three"]);
}

#[test]
fn added_fact_is_listed_with_its_properties() {
    let opts = facts::add::AddOptions {
        label: "new fact @mvp".to_string(),
        file: None,
        section: Some("api/auth".to_string()),
        command: Some("true".to_string()),
        id: Some("nf".to_string()),
        tags: vec!["core".to_string()],
    };
    let target = Some(sheet("- first\n"));
    let result = facts::add::run(&opts, &Vec::new(), target).unwrap();
    let facts_now = result.all_facts();
    let (path, f) = facts_now.iter().find(|(_, f)| f.label == "new fact").unwrap();
    assert_eq!(path, &vec!["api".to_string(), "auth".to_string()]);
    assert_eq!(f.explicit_id.as_deref(), Some("nf"));
    assert_eq!(f.command.as_deref(), Some("true"));
    assert_eq!(f.tags, vec!["mvp".to_string(), "core".to_string()]);
}

#[test]
fn test_add_rejects_empty_id() {
    let opts = facts::add::AddOptions {
        label: "some fact".to_string(),
        file: None,
        section: None,
        command: None,
        id: Some("".to_string()),
        tags: vec![],
    };
    let result = facts::add::run(&opts, &Vec::new(), Some(sheet("- existing fact\n")));
    assert!(result.is_err());
    assert!(result.err().unwrap().contains("ID cannot be empty"));
}

#[test]
fn test_edit_unknown_id_errors() {
    let mut sheets = vec![sheet("- some fact\n")];
    let mut opts = edit_opts(vec!["zzz".to_string()]);
    opts.label = Some("new".to_string());
    let result = facts::edit::run(&opts, &mut sheets);
    assert!(result.is_err());
    let err = result.err().unwrap();
    assert!(err.contains("zzz"), "error should mention the ID: {err}");
}

#[test]
fn test_get_plain_fact() {
    let content = "- a plain fact\n";
    let sheets = vec![sheet(content)];
    let target_id = id_for(&sheets, "a plain fact");
    facts::get::run(&target_id, &sheets).unwrap();
}

#[test]
fn test_get_fact_with_command() {
    let content = "- label: test fact\n  command: echo hello\n";
    let sheets = vec![sheet(content)];
    let target_id = id_for(&sheets, "test fact");
    let lines = facts::get::run(&target_id, &sheets).unwrap();
    assert!(lines.contains(&"command: echo hello".to_string()));
}

#[test]
fn test_get_unknown_id_errors() {
    let sheets = vec![sheet("- some fact\n")];
    let result = facts::get::run("zzz", &sheets);
    assert!(result.is_err());
    let err = result.err().unwrap();
    assert!(err.contains("zzz"), "error should mention the ID: {err}");
}

#[test]
fn test_get_fact_in_section() {
    let content = "# mysection\n\n- fact in section\n";
    let sheets = vec![sheet(content)];
    let target_id = id_for(&sheets, "fact in section");
    let lines = facts::get::run(&target_id, &sheets).unwrap();
    assert!(lines.contains(&"section: mysection".to_string()));
}

#[test]
fn test_move_requires_section_or_file() {
    let mut sheets = vec![sheet("- some fact\n")];
    let target_id = id_for(&sheets, "some fact");
    let opts = MoveOptions { target_id, target_section: None, target_file: None };
    let result = facts::move_fact::run(&opts, &mut sheets);
    assert!(result.is_err());
    let err = result.err().unwrap();
    assert!(err.contains("at least one"), "error: {err}");
}

#[test]
fn test_move_unknown_id_errors() {
    let mut sheets = vec![sheet("- some fact\n")];
    let opts = MoveOptions {
        target_id: "zzz".to_string(),
        target_section: Some("dest".to_string()),
        target_file: None,
    };
    let result = facts::move_fact::run(&opts, &mut sheets);
    assert!(result.is_err());
    let err = result.err().unwrap();
    assert!(err.contains("zzz"), "error should mention the ID: {err}");
}

#[test]
fn test_remove_outputs_label() {
    let mut sheets = vec![sheet("- fact to remove\n")];
    let target_id = id_for(&sheets, "fact to remove");
    let removed = facts::remove::run(&target_id, &mut sheets).unwrap();
    assert_eq!(removed.label, "fact to remove");
}

#[test]
fn moved_fact_keeps_its_properties_and_leaves_the_rest() {
    let mut sheets = vec![
        sheet("- one\n- label: two\n  command: true\n  id: t2\n  tags: [x]\n- three\n"),
        parser::parse("- other\n", "api.facts").unwrap(),
    ];
    let opts = MoveOptions {
        target_id: "t2".to_string(),
        target_section: Some("moved".to_string()),
        target_file: Some("api".to_string()),
    };
    let moved = facts::move_fact::run(&opts, &mut sheets).unwrap();
    assert_eq!(moved.target_index, 1);
    assert_eq!(labels_in_order(&sheets[0]), vec!["one", "three"]);
    let target_facts = sheets[1].all_facts();
    let (_, f) = target_facts.iter().find(|(_, f)| f.label == "two").unwrap();
    assert_eq!(f.explicit_id.as_deref(), Some("t2"));
    assert_eq!(f.command.as_deref(), Some("true"));
    assert_eq!(f.tags, vec!["x".to_string()]);
}

fn fact_count(sheets: &[FactSheet]) -> usize {
    sheets.iter().map(|s| s.all_facts().len()).sum()
}

#[test]
fn move_keeps_the_number_of_facts() {
    let mut sheets = vec![sheet("- one\n- two\n\n# sec\n\n- three\n")];
    let before = fact_count(&sheets);
    let id = id_for(&sheets, "two");
    let o = MoveOptions {
        target_id: id,
        target_section: Some("other/deep".to_string()),
        target_file: Some("more".to_string()),
    };
    facts::move_fact::run(&o, &mut sheets).unwrap();
    assert_eq!(sheets.len(), 2);
    assert_eq!(fact_count(&sheets), before);
}

#[test]
fn edit_tags_and_plain_form() {
    let mut f = sheet("- plain fact @a @b\n").preamble.remove(0);
    assert!(f.is_plain);
    let mut o = edit_opts(vec![]);
    o.add_tags = Some(vec!["c".to_string(), "b".to_string()]);
    o.remove_tags = Some(vec!["a".to_string(), "c".to_string()]);
    apply_edits(&mut f, &o);
    assert_eq!(f.tags, vec!["b"]);
    assert!(f.is_plain);
    let mut o = edit_opts(vec![]);
    o.command = Some("true".to_string());
    apply_edits(&mut f, &o);
    assert!(!f.is_plain);
    assert_eq!(f.tags, vec!["b"]);
}

#[test]
fn edit_keeps_fields_not_asked_for() {
    let mut f = sheet("- label: keep me\n  id: kid\n  command: true\n  tags: [a]\n").preamble.remove(0);
    let mut o = edit_opts(vec![]);
    o.add_tags = Some(vec!["b".to_string(), "a".to_string()]);
    apply_edits(&mut f, &o);
    assert_eq!(f.label, "keep me");
    assert_eq!(f.explicit_id.as_deref(), Some("kid"));
    assert_eq!(f.command.as_deref(), Some("true"));
    assert_eq!(f.tags, vec!["a", "b"]);
}

#[test]
fn moved_fact_lands_in_named_section() {
    let mut sheets = vec![sheet("- one\n- two\n\n# Sec\n\n- three\n")];
    let before = fact_count(&sheets);
    let id = id_for(&sheets, "two");
    let o = MoveOptions {
        target_id: id,
        target_section: Some("sec/deep".to_string()),
        target_file: None,
    };
    facts::move_fact::run(&o, &mut sheets).unwrap();
    assert_eq!(sheets.len(), 1);
    assert_eq!(fact_count(&sheets), before);
    let facts = sheets[0].all_facts();
    let (path, f) = facts.iter().find(|(_, f)| f.label == "two").unwrap();
    assert_eq!(path, &vec!["Sec".to_string(), "deep".to_string()]);
    assert_eq!(f.label, "two");
    assert!(!sheets[0].preamble.iter().any(|f| f.label == "two"));
}

#[test]
fn failed_move_and_edit_leave_sheets_unchanged() {
    let mut sheets = vec![sheet("- one\n- two\n")];
    let before = out(&sheets[0]);
    let id = id_for(&sheets, "two");
    let o = MoveOptions {
        target_id: id.clone(),
        target_section: Some("a//b".to_string()),
        target_file: None,
    };
    assert!(facts::move_fact::run(&o, &mut sheets).is_err());
    assert_eq!(out(&sheets[0]), before);
    let mut e = edit_opts(vec![id, "zzz".to_string()]);
    e.label = Some("changed".to_string());
    assert!(facts::edit::run(&e, &mut sheets).is_err());
    assert_eq!(out(&sheets[0]), before);
}

#[test]
fn emptied_sheets_store_nothing() {
    let blank = FactSheet { filename: ".facts".to_string(), preamble: vec![], sections: vec![] };
    let kept = sheet("- x\n");
    assert!(facts::writer::writes_blank(&blank));
    assert_eq!(facts::writer::stored_text(&blank), "");
    assert_eq!(facts::writer::stored_text(&kept), "- x\n");
    assert!(!facts::writer::writes_blank(&kept));
}

#[test]
fn sheet_ids_are_the_ids_every_command_uses() {
    let sheets = vec![sheet("- one\n# s\n- two\n"), sheet("- three\n")];
    let ids = facts::get::sheet_ids(&sheets);
    assert_eq!(ids.len(), 3);
    assert_eq!(ids[0], id_for(&sheets, "one"));
    assert_eq!(ids[1], id_for(&sheets, "two"));
    assert_eq!(ids[2], id_for(&sheets, "three"));
}
