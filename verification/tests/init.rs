use facts::init::{
    agent_doc_update, dep_in_pyproject, dep_in_requirements, dep_line_matches,
    detect_stacks, doc_update_message, generate_facts_content, json_has_dep, json_section_has_key,
    new_agent_doc, new_doc_message, run, run_test_init, skill_install,
    toml_has_section, without_agent_docs, DetectedStack, DocUpdate, FactsFile, Probe,
    StackFact,
};

fn probe(files: &[(&str, &str)]) -> Probe {
    Probe {
        existing: files.iter().map(|(n, _)| n.to_string()).collect(),
        dirs: vec![],
        contents: files.iter().map(|(n, c)| (n.to_string(), c.to_string())).collect(),
        entries: files.iter().map(|(n, _)| n.to_string()).collect(),
    }
}

#[test]
fn test_generate_content_no_stacks() {
    let content = generate_facts_content(&[]);
    assert!(content.contains("# project"));
    assert!(content.contains("- project is set up"));
}

#[test]
fn test_generate_content_with_stack() {
    let stacks = vec![DetectedStack {
        name: "Rust/Cargo",
        marker: "Cargo.toml",
        facts: vec![
            StackFact {
                label: "project uses Rust with Cargo".to_string(),
                command: Some("test -f Cargo.toml".to_string()),
            },
            StackFact {
                label: "all tests pass".to_string(),
                command: Some("cargo test --quiet".to_string()),
            },
        ],
    }];
    let content = generate_facts_content(&stacks);
    assert!(content.contains("# project"));
    assert!(content.contains("- label: project uses Rust with Cargo"));
    assert!(content.contains("  command: test -f Cargo.toml"));
    assert!(content.contains("- label: all tests pass"));
    assert!(content.contains("  command: cargo test --quiet"));
}

#[test]
fn test_dep_line_matches() {
    assert!(dep_line_matches("pytest", "pytest"));
    assert!(dep_line_matches("pytest>=7.0", "pytest"));
    assert!(dep_line_matches("pytest==7.0", "pytest"));
    assert!(dep_line_matches("pytest[extra]", "pytest"));
    assert!(dep_line_matches("pytest ~=7.0", "pytest"));
    assert!(dep_line_matches("pytest >=7.0", "pytest"));
    assert!(!dep_line_matches("pytest-cov", "pytest"));
    assert!(!dep_line_matches("pypytest", "pytest"));
}

#[test]
fn test_dep_in_pyproject() {
    let content = "[project]\ndependencies = [\n  \"flask>=2.0\",\n  \"sqlalchemy\",\n]\n\n[dependency-groups]\ndev = [\n  \"pytest>=7.0\",\n  \"ruff\",\n]\n";
    assert!(dep_in_pyproject(content, "flask"));
    assert!(dep_in_pyproject(content, "pytest"));
    assert!(dep_in_pyproject(content, "ruff"));
    assert!(!dep_in_pyproject(content, "django"));
}

#[test]
fn test_dep_in_requirements() {
    let content = "flask>=2.0\npytest\n# comment\nruff==0.1.0\n";
    assert!(dep_in_requirements(content, "flask"));
    assert!(dep_in_requirements(content, "pytest"));
    assert!(dep_in_requirements(content, "ruff"));
    assert!(!dep_in_requirements(content, "django"));
}

#[test]
fn test_json_section_has_key() {
    let json = r#"{"scripts":{"test":"jest","lint":"eslint ."}}"#;
    assert!(json_section_has_key(json, "scripts", "test"));
    assert!(json_section_has_key(json, "scripts", "lint"));
    assert!(!json_section_has_key(json, "scripts", "build"));
}

#[test]
fn test_json_section_has_key_nested() {
    let json = r#"{"a":{"scripts":"value"},"scripts":{"test":"jest"}}"#;
    assert!(json_section_has_key(json, "scripts", "test"));
}

#[test]
fn test_json_section_has_key_string_value() {
    let json = r#"{"name":"scripts","other":{"test":"x"}}"#;
    assert!(!json_section_has_key(json, "scripts", "test"));
}

#[test]
fn test_json_has_dep() {
    let json = r#"{"dependencies":{"next":"14.0.0"},"devDependencies":{"typescript":"5"}}"#;
    assert!(json_has_dep(json, "next"));
    assert!(json_has_dep(json, "typescript"));
    assert!(!json_has_dep(json, "react"));
}

#[test]
fn test_toml_has_section() {
    let toml = "[project]\nname = \"test\"\n\n[tool.pytest.ini_options]\n\n[tool.ruff]\n";
    assert!(toml_has_section(toml, "project"));
    assert!(toml_has_section(toml, "tool.pytest"));
    assert!(toml_has_section(toml, "tool.ruff"));
    assert!(!toml_has_section(toml, "tool.mypy"));
}

#[test]
fn detect_cargo_from_probe() {
    let stacks = detect_stacks(&probe(&[("Cargo.toml", "[package]\nname = \"test\"\n")]));
    assert_eq!(stacks.len(), 1);
    assert_eq!(stacks[0].name, "Rust/Cargo");
    assert_eq!(stacks[0].facts.len(), 3);
}

#[test]
fn detect_cargo_with_clippy_from_probe() {
    let stacks = detect_stacks(&probe(&[("Cargo.toml", "[package]\n"), ("clippy.toml", "")]));
    assert_eq!(stacks.len(), 1);
    assert!(stacks[0].facts.iter().any(|f| f.label == "clippy passes"));
}

#[test]
fn detect_node_from_probe() {
    let stacks = detect_stacks(&probe(&[("package.json", "{}")]));
    assert_eq!(stacks.len(), 1);
    assert_eq!(stacks[0].name, "Node.js");
}

#[test]
fn test_detect_no_stacks() {
    assert!(detect_stacks(&probe(&[])).is_empty());
}

#[test]
fn init_creates_missing_sheet() {
    let plan = run(FactsFile::Missing, &probe(&[("Cargo.toml", "[package]\n")])).unwrap();
    assert_eq!(plan.message, "  create  .facts (detected: Rust/Cargo)");
    let content = plan.write.unwrap();
    assert!(content.starts_with("# project\n"));
    assert!(content.contains("cargo check"));
}

#[test]
fn init_creates_sheet_without_stacks() {
    let plan = run_test_init(FactsFile::Missing, &probe(&[])).unwrap();
    assert_eq!(plan.message, "  create  .facts (no frameworks detected)");
    assert_eq!(
        plan.write.unwrap(),
        "# project\n\n- project is set up and ready for development\n"
    );
}

#[test]
fn init_keeps_existing_sheet() {
    let plan = run(FactsFile::File, &probe(&[])).unwrap();
    assert!(plan.write.is_none());
    assert_eq!(plan.message, "  skip  .facts (already exists)");
}

#[test]
fn init_errors_when_facts_is_not_a_file() {
    let err = run_test_init(FactsFile::Other, &probe(&[])).err().unwrap();
    assert_eq!(err, ".facts exists but is not a file");
}

#[test]
fn skill_install_creates_updates_and_skips() {
    let c = skill_install("facts", None, "text");
    assert!(c.write);
    assert_eq!(c.message, "  create  .agents/skills/facts/SKILL.md");
    let u = skill_install("facts", Some("old"), "text");
    assert!(u.write);
    assert_eq!(u.message, "  update  .agents/skills/facts/SKILL.md");
    let s = skill_install("facts", Some("text"), "text");
    assert!(!s.write);
    assert_eq!(s.message, "  skip  .agents/skills/facts/SKILL.md (up to date)");
}

#[test]
fn agent_docs_appended_replaced_and_kept() {
    let appended = agent_doc_update("# Notes");
    let text = match &appended {
        DocUpdate::Appended(t) => t.clone(),
        _ => panic!("expected an appended section"),
    };
    assert!(text.starts_with("# Notes\n\n<!-- facts:start -->"));
    assert!(text.ends_with("<!-- facts:end -->\n"));
    assert_eq!(doc_update_message("AGENTS.md", &appended), "  update  AGENTS.md (added facts section)");

    match agent_doc_update(&text) {
        DocUpdate::Unchanged => {}
        _ => panic!("a current section stays"),
    }
    assert_eq!(
        doc_update_message("AGENTS.md", &DocUpdate::Unchanged),
        "  skip  AGENTS.md (facts section up to date)"
    );

    let stale = "intro\n<!-- facts:start -->\nold\n<!-- facts:end -->\noutro\n";
    match agent_doc_update(stale) {
        DocUpdate::Replaced(t) => {
            assert!(t.starts_with("intro\n<!-- facts:start -->"));
            assert!(t.ends_with("<!-- facts:end -->\noutro\n"));
            assert!(!t.contains("\nold\n"));
        }
        _ => panic!("a stale section is replaced"),
    }
}

#[test]
fn agent_docs_removed() {
    let doc = new_agent_doc();
    assert_eq!(without_agent_docs(&doc), Some(String::new()));
    assert_eq!(
        without_agent_docs("intro\n\n<!-- facts:start -->\nx\n<!-- facts:end -->\n\noutro"),
        Some("intro\n\noutro\n".to_string())
    );
    assert_eq!(without_agent_docs("no section here"), None);
    assert_eq!(new_doc_message("AGENTS.md"), "  create  AGENTS.md (with facts section)");
}

#[test]
fn scaffolded_content_parses_to_one_project_section() {
    let stacks = vec![
        DetectedStack {
            name: "Rust",
            marker: "Cargo.toml",
            facts: vec![
                facts::init::StackFact { label: "tests pass".to_string(), command: Some("cargo test".to_string()) },
                facts::init::StackFact { label: "code is formatted".to_string(), command: None },
            ],
        },
        DetectedStack { name: "Docker", marker: "Dockerfile", facts: vec![] },
        DetectedStack {
            name: "Go",
            marker: "go.mod",
            facts: vec![facts::init::StackFact { label: "go vet passes".to_string(), command: Some("go vet ./...".to_string()) }],
        },
    ];
    let content = generate_facts_content(&stacks);
    let sheet = facts::parser::parse(&content, ".facts").unwrap();
    assert!(sheet.preamble.is_empty());
    assert_eq!(sheet.sections.len(), 1);
    let s = &sheet.sections[0];
    assert_eq!((s.title.as_str(), s.depth), ("project", 1));
    assert!(s.children.is_empty());
    let got: Vec<(String, Option<String>)> = s.facts.iter().map(|f| (f.label.clone(), f.command.clone())).collect();
    assert_eq!(
        got,
        vec![
            ("tests pass".to_string(), Some("cargo test".to_string())),
            ("code is formatted".to_string(), None),
            ("go vet passes".to_string(), Some("go vet ./...".to_string())),
        ]
    );
    let empty = facts::parser::parse(&generate_facts_content(&[]), ".facts").unwrap();
    assert_eq!(empty.sections.len(), 1);
    assert_eq!(empty.sections[0].facts.len(), 1);
    assert_eq!(empty.sections[0].facts[0].label, "project is set up and ready for development");
}
