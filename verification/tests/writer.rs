use facts::model::Fact;
use facts::parser;
use facts::writer::{fact_to_raw, is_ambiguous_as_plain};

#[test]
fn test_roundtrip_simple() {
    let input = "- a simple fact\n";
    let sheet = parser::parse(input, ".facts").unwrap();
    let output = facts::writer::write(&sheet);
    assert_eq!(output, input);
}

#[test]
fn test_roundtrip_with_sections() {
    let input = "# title\n\n- fact one\n\n## sub\n\n- fact two\n";
    let sheet = parser::parse(input, ".facts").unwrap();
    let output = facts::writer::write(&sheet);
    assert_eq!(output, input);
}

#[test]
fn test_roundtrip_mapping_fact() {
    let input = "- label: project is a Cargo project\n  command: test -f Cargo.toml\n";
    let sheet = parser::parse(input, ".facts").unwrap();
    let output = facts::writer::write(&sheet);
    assert_eq!(output, input);
}

#[test]
fn test_roundtrip_preamble_and_sections() {
    let input = "\
# facts

- a CLI for fact-driven development with coding agents

## format

### file
- project root is the directory containing the nearest parent .git
- fact sheets are *.facts files in the project root
";
    let sheet = parser::parse(input, ".facts").unwrap();
    let output = facts::writer::write(&sheet);
    assert_eq!(output, input);
}

#[test]
fn test_roundtrip_tags_inline() {
    let input = "- a tagged fact @mvp @core\n";
    let sheet = parser::parse(input, ".facts").unwrap();
    let output = facts::writer::write(&sheet);
    assert_eq!(output, input);
}

#[test]
fn test_roundtrip_mapping_with_tags() {
    let input = "- label: some fact\n  command: echo hi\n  tags: [mvp, core]\n";
    let sheet = parser::parse(input, ".facts").unwrap();
    let output = facts::writer::write(&sheet);
    assert_eq!(output, input);
}

fn plain(label: &str, tags: Vec<String>) -> Fact {
    Fact {
        explicit_id: None,
        label: label.to_string(),
        command: None,
        tags,
        is_plain: true,
        raw: String::new(),
        blank_lines_before: 0,
    }
}

#[test]
fn test_fact_to_raw_plain() {
    let fact = plain("a simple fact", vec![]);
    assert_eq!(fact_to_raw(&fact), "- a simple fact");
}

#[test]
fn test_fact_to_raw_plain_with_tags() {
    let fact = plain("a tagged fact", vec!["mvp".to_string(), "core".to_string()]);
    assert_eq!(fact_to_raw(&fact), "- a tagged fact @mvp @core");
}

#[test]
fn test_fact_to_raw_mapping() {
    let fact = Fact {
        explicit_id: None,
        label: "check cargo".to_string(),
        command: Some("test -f Cargo.toml".to_string()),
        tags: vec![],
        is_plain: false,
        raw: String::new(),
        blank_lines_before: 0,
    };
    assert_eq!(
        fact_to_raw(&fact),
        "- label: check cargo\n  command: test -f Cargo.toml"
    );
}

#[test]
fn test_fact_to_raw_mapping_with_all_fields() {
    let fact = Fact {
        explicit_id: Some("xyz".to_string()),
        label: "full fact".to_string(),
        command: Some("echo ok".to_string()),
        tags: vec!["mvp".to_string()],
        is_plain: false,
        raw: String::new(),
        blank_lines_before: 0,
    };
    assert_eq!(
        fact_to_raw(&fact),
        "- label: full fact\n  id: xyz\n  command: echo ok\n  tags: [mvp]"
    );
}

#[test]
fn test_fact_to_raw_plain_with_reserved_prefix_command() {
    let fact = plain("command: echo hello", vec![]);
    // Must be written as mapping to avoid misparse
    assert_eq!(fact_to_raw(&fact), "- label: command: echo hello");
}

#[test]
fn test_fact_to_raw_plain_with_reserved_prefix_label() {
    let fact = plain("label: something", vec![]);
    assert_eq!(fact_to_raw(&fact), "- label: label: something");
}

#[test]
fn test_fact_to_raw_plain_with_reserved_prefix_id() {
    let fact = plain("id: something", vec![]);
    assert_eq!(fact_to_raw(&fact), "- label: id: something");
}

#[test]
fn test_fact_to_raw_plain_with_reserved_prefix_tags() {
    let fact = plain("tags: [a, b]", vec![]);
    assert_eq!(fact_to_raw(&fact), "- label: tags: [a, b]");
}

#[test]
fn test_is_ambiguous_as_plain() {
    assert!(is_ambiguous_as_plain("command: echo hello"));
    assert!(is_ambiguous_as_plain("label: something"));
    assert!(is_ambiguous_as_plain("id: xyz"));
    assert!(is_ambiguous_as_plain("tags: [a]"));
    assert!(!is_ambiguous_as_plain("a normal fact"));
    assert!(!is_ambiguous_as_plain("note: this is fine"));
}

#[test]
fn test_roundtrip_ambiguous_plain_fact() {
    // Write a plain fact with reserved prefix, then parse the result
    let fact = plain("command: echo hello", vec![]);
    let raw = fact_to_raw(&fact);
    let content = format!("{raw}\n");
    let sheet = parser::parse(&content, ".facts").unwrap();
    assert_eq!(sheet.preamble.len(), 1);
    assert_eq!(sheet.preamble[0].label, "command: echo hello");
}

// Further cases.

#[test]
fn roundtrip_keeps_blank_lines_and_continuations() {
    let input = "\n- first\n\n\n# a\n\n- label: m\n  id: q\n  tags: [x]\n\n## b\n- c @t\n\n# d\n";
    let sheet = parser::parse(input, ".facts").unwrap();
    assert_eq!(facts::writer::write(&sheet), input);
}

#[test]
fn write_adds_final_newline() {
    let sheet = parser::parse("- no newline", ".facts").unwrap();
    assert_eq!(facts::writer::write(&sheet), "- no newline\n");
}

#[test]
fn write_drops_trailing_blank_lines() {
    let sheet = parser::parse("- a\n\n\n", ".facts").unwrap();
    assert_eq!(facts::writer::write(&sheet), "- a\n");
}

#[test]
fn fact_to_raw_ambiguous_plain_with_tags_uses_tags_key() {
    let fact = plain("{x}", vec!["a".to_string(), "b".to_string()]);
    assert_eq!(fact_to_raw(&fact), "- label: {x}\n  tags: [a, b]");
}

#[test]
fn written_mapping_fact_reads_back() {
    let f = Fact {
        explicit_id: Some("abc".to_string()),
        label: "my fact".to_string(),
        command: Some("echo  hi".to_string()),
        tags: vec!["z-tag".to_string(), "a-tag".to_string()],
        is_plain: false,
        raw: String::new(),
        blank_lines_before: 0,
    };
    let text = format!("{}\n", fact_to_raw(&f));
    let sheet = parser::parse(&text, ".facts").unwrap();
    assert!(sheet.sections.is_empty());
    assert_eq!(sheet.preamble.len(), 1);
    let g = &sheet.preamble[0];
    assert_eq!(g.label, f.label);
    assert_eq!(g.explicit_id, f.explicit_id);
    assert_eq!(g.command, f.command);
    assert_eq!(g.tags, f.tags);
    assert!(!g.is_plain);
}

#[test]
fn written_plain_fact_reads_back() {
    for label in ["a plain fact", "label: looks like a key"] {
        let f = Fact {
            explicit_id: None,
            label: label.to_string(),
            command: None,
            tags: vec!["x".to_string(), "y-z".to_string()],
            is_plain: true,
            raw: String::new(),
            blank_lines_before: 0,
        };
        let text = format!("{}\n", fact_to_raw(&f));
        let sheet = parser::parse(&text, ".facts").unwrap();
        assert_eq!(sheet.preamble.len(), 1);
        let g = &sheet.preamble[0];
        assert_eq!(g.label, f.label);
        assert_eq!(g.tags, f.tags);
        assert_eq!(g.explicit_id, None);
        assert_eq!(g.command, None);
        assert_eq!(g.is_plain, !is_ambiguous_as_plain(label));
    }
}
