use facts::parser::{extract_inline_tags, parse, parse_heading};

#[test]
fn test_parse_heading() {
    assert_eq!(parse_heading("# title"), Some((1, "title".to_string())));
    assert_eq!(
        parse_heading("## sub title"),
        Some((2, "sub title".to_string()))
    );
    assert_eq!(parse_heading("not a heading"), None);
    assert_eq!(parse_heading("- a fact"), None);
}

#[test]
fn test_extract_inline_tags() {
    let (label, tags) = extract_inline_tags("some fact @mvp @core");
    assert_eq!(label, "some fact");
    assert_eq!(tags, vec!["mvp", "core"]);
}

#[test]
fn test_extract_no_tags() {
    let (label, tags) = extract_inline_tags("a plain fact");
    assert_eq!(label, "a plain fact");
    assert!(tags.is_empty());
}

#[test]
fn test_parse_plain_fact() {
    let content = "- a simple fact\n";
    let sheet = parse(content, ".facts").unwrap();
    assert_eq!(sheet.preamble.len(), 1);
    assert_eq!(sheet.preamble[0].label, "a simple fact");
    assert!(sheet.preamble[0].is_plain);
}

#[test]
fn test_parse_plain_fact_with_tags() {
    let content = "- a tagged fact @mvp @core\n";
    let sheet = parse(content, ".facts").unwrap();
    assert_eq!(sheet.preamble[0].label, "a tagged fact");
    assert_eq!(sheet.preamble[0].tags, vec!["mvp", "core"]);
}

#[test]
fn test_parse_mapping_fact() {
    let content = "- label: project is a Cargo project\n  command: test -f Cargo.toml\n";
    let sheet = parse(content, ".facts").unwrap();
    assert_eq!(sheet.preamble[0].label, "project is a Cargo project");
    assert_eq!(
        sheet.preamble[0].command.as_deref(),
        Some("test -f Cargo.toml")
    );
    assert!(!sheet.preamble[0].is_plain);
}

#[test]
fn test_parse_sections() {
    let content = "# section one\n\n- fact one\n\n## subsection\n\n- fact two\n";
    let sheet = parse(content, ".facts").unwrap();
    assert_eq!(sheet.sections.len(), 1);
    assert_eq!(sheet.sections[0].title, "section one");
    assert_eq!(sheet.sections[0].facts.len(), 1);
    assert_eq!(sheet.sections[0].children.len(), 1);
    assert_eq!(sheet.sections[0].children[0].title, "subsection");
    assert_eq!(sheet.sections[0].children[0].facts.len(), 1);
}

#[test]
fn test_parse_empty_file() {
    let sheet = parse("", ".facts").unwrap();
    assert!(sheet.preamble.is_empty());
    assert!(sheet.sections.is_empty());
}

#[test]
fn test_parse_headings_only() {
    let content = "# section one\n\n## subsection\n\n# section two\n";
    let sheet = parse(content, ".facts").unwrap();
    assert!(sheet.preamble.is_empty());
    assert_eq!(sheet.sections.len(), 2);
    assert_eq!(sheet.sections[0].title, "section one");
    assert_eq!(sheet.sections[0].facts.len(), 0);
    assert_eq!(sheet.sections[0].children.len(), 1);
    assert_eq!(sheet.sections[1].title, "section two");
    assert_eq!(sheet.sections[1].facts.len(), 0);
}

#[test]
fn test_parse_deeply_nested_sections() {
    let content = "# l1\n\n## l2\n\n### l3\n\n#### l4\n\n- deep fact\n";
    let sheet = parse(content, ".facts").unwrap();
    assert_eq!(sheet.sections.len(), 1);
    let l1 = &sheet.sections[0];
    assert_eq!(l1.title, "l1");
    assert_eq!(l1.children.len(), 1);
    let l2 = &l1.children[0];
    assert_eq!(l2.title, "l2");
    assert_eq!(l2.children.len(), 1);
    let l3 = &l2.children[0];
    assert_eq!(l3.title, "l3");
    assert_eq!(l3.children.len(), 1);
    let l4 = &l3.children[0];
    assert_eq!(l4.title, "l4");
    assert_eq!(l4.facts.len(), 1);
    assert_eq!(l4.facts[0].label, "deep fact");
}

#[test]
fn test_parse_colon_in_plain_label() {
    // A plain fact with "note:" at the start — should be plain, not a mapping,
    // because "note" is not a known mapping key.
    let content = "- note: this has a colon\n";
    let sheet = parse(content, ".facts").unwrap();
    assert_eq!(sheet.preamble.len(), 1);
    assert_eq!(sheet.preamble[0].label, "note: this has a colon");
    assert!(sheet.preamble[0].is_plain);
}

#[test]
fn test_parse_command_with_pipe() {
    let content = "- label: pipe cmd\n  command: echo hello | grep hello\n";
    let sheet = parse(content, ".facts").unwrap();
    assert_eq!(
        sheet.preamble[0].command.as_deref(),
        Some("echo hello | grep hello")
    );
}

#[test]
fn test_parse_full_file() {
    let content = r#"# facts

- a CLI for fact-driven development with coding agents

## format

### file
- project root is the directory containing the nearest parent .git
- fact sheets are *.facts files in the project root
"#;
    let sheet = parse(content, ".facts").unwrap();
    assert_eq!(sheet.sections.len(), 1);
    assert_eq!(sheet.sections[0].title, "facts");
    assert_eq!(sheet.sections[0].facts.len(), 1);
    assert_eq!(sheet.sections[0].children.len(), 1);
    let format = &sheet.sections[0].children[0];
    assert_eq!(format.title, "format");
    assert_eq!(format.children.len(), 1);
    assert_eq!(format.children[0].title, "file");
    assert_eq!(format.children[0].facts.len(), 2);
}

#[test]
fn test_parse_strips_utf8_bom() {
    let content = "\u{FEFF}- a fact with BOM\n";
    let sheet = parse(content, ".facts").unwrap();
    assert_eq!(sheet.preamble.len(), 1);
    assert_eq!(sheet.preamble[0].label, "a fact with BOM");
    assert!(sheet.preamble[0].is_plain);
}

// Further cases of the format.

#[test]
fn parse_rejects_unexpected_body_line() {
    let err = parse("- a fact\nnot a fact\n", ".facts").unwrap_err();
    assert!(matches!(err.cause, facts::parser::FactError::UnexpectedLine(ref l) if l == "not a fact"));
    assert!(matches!(err.context, facts::parser::ParseContext::Preamble));
}

#[test]
fn parse_rejects_unknown_key_in_section() {
    let err = parse("# sec\n\n- label: x\n  priority: high\n", ".facts").unwrap_err();
    assert!(matches!(err.cause, facts::parser::FactError::UnknownKey(ref k) if k == "priority"));
    assert!(matches!(err.context, facts::parser::ParseContext::Section(ref h) if h == "sec"));
}

#[test]
fn parse_rejects_empty_label_key() {
    let err = parse("- label:\n  command: true\n", ".facts").unwrap_err();
    assert!(matches!(err.cause, facts::parser::FactError::EmptyLabel));
}

#[test]
fn parse_rejects_mapping_without_label() {
    let err = parse("- command: true\n", ".facts").unwrap_err();
    assert!(matches!(err.cause, facts::parser::FactError::MissingLabel));
}

#[test]
fn parse_mapping_tags_are_deduplicated_in_order() {
    let sheet = parse("- label: x @a @b\n  tags: [b, c, a, d]\n", ".facts").unwrap();
    assert_eq!(sheet.preamble[0].tags, vec!["a", "b", "c", "d"]);
}

#[test]
fn parse_curly_braces_without_key_is_plain() {
    let sheet = parse("- {this is a note}\n", ".facts").unwrap();
    assert!(sheet.preamble[0].is_plain);
    assert_eq!(sheet.preamble[0].label, "{this is a note}");
}

#[test]
fn parse_lone_at_word_is_dropped() {
    let (_, only_ats) = extract_inline_tags("fact @@");
    assert!(only_ats.is_empty());
    let (label, tags) = extract_inline_tags("a  @  b @@x");
    assert_eq!(label, "a b");
    assert_eq!(tags, vec!["x"]);
}

#[test]
fn parse_hierarchy_with_depth_jumps() {
    let sheet = parse("# a\n### b\n## c\n# d\n", ".facts").unwrap();
    assert_eq!(sheet.sections.len(), 2);
    assert_eq!(sheet.sections[0].children.len(), 2);
    assert_eq!(sheet.sections[0].children[0].title, "b");
    assert_eq!(sheet.sections[0].children[1].title, "c");
    assert_eq!(sheet.sections[1].title, "d");
}

#[test]
fn parse_counts_blank_lines() {
    let sheet = parse("\n\n- a\n\n\n# s\n- b\n", ".facts").unwrap();
    assert_eq!(sheet.preamble[0].blank_lines_before, 2);
    assert_eq!(sheet.sections[0].blank_lines_before, 2);
    assert_eq!(sheet.sections[0].facts[0].blank_lines_before, 0);
}

#[test]
fn double_at_tag_is_stripped() {
    let (label, tags) = extract_inline_tags("fact @@important");
    assert_eq!(label, "fact");
    assert_eq!(tags, vec!["important"]);
}

#[test]
fn sections_nest_by_depth_in_file_order() {
    let sheet = parse("# a\n### b\n## c\n# d\n", ".facts").unwrap();
    assert_eq!(sheet.sections.len(), 2);
    let a = &sheet.sections[0];
    assert_eq!((a.title.as_str(), a.depth), ("a", 1));
    assert_eq!(a.children.len(), 2);
    assert_eq!((a.children[0].title.as_str(), a.children[0].depth), ("b", 3));
    assert_eq!((a.children[1].title.as_str(), a.children[1].depth), ("c", 2));
    assert!(a.children[0].children.is_empty());
    assert_eq!((sheet.sections[1].title.as_str(), sheet.sections[1].depth), ("d", 1));
}

#[test]
fn inline_label_keeps_no_at_words() {
    let (label, tags) = extract_inline_tags("fix @a the @@b bug @");
    assert_eq!(label, "fix the bug");
    assert_eq!(tags, vec!["a", "b"]);
    assert!(label.split(' ').all(|w| !w.starts_with('@')));
}
