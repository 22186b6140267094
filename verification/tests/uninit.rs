use facts::uninit::{doc_removal, run, skill_names, skill_removal};

#[test]
fn uninit_skips_missing_sheet() {
    let r = run(false, None).unwrap();
    assert!(!r.remove);
    assert_eq!(r.message, "  skip  .facts (not found)");
}

#[test]
fn uninit_keeps_sheet_with_content_unless_forced() {
    let e = run(false, Some("- a fact\n")).err().unwrap();
    assert_eq!(e, ".facts has content; use --force to delete");
    let r = run(true, Some("- a fact\n")).unwrap();
    assert!(r.remove);
    assert_eq!(r.message, "  remove  .facts");
}

#[test]
fn uninit_removes_blank_sheet() {
    assert!(run(false, Some("  \n\t\n")).unwrap().remove);
    assert!(run(false, Some("")).unwrap().remove);
}

#[test]
fn uninit_skill_steps() {
    assert_eq!(skill_names(), vec!["facts", "facts-discover", "facts-implement"]);
    let r = skill_removal("facts", true);
    assert!(r.remove);
    assert_eq!(r.message, "  remove  .agents/skills/facts/SKILL.md");
    let s = skill_removal("facts", false);
    assert!(!s.remove);
    assert_eq!(s.message, "  skip  .agents/skills/facts/SKILL.md (not found)");
}

#[test]
fn uninit_agent_doc_steps() {
    let only = doc_removal("AGENTS.md", "<!-- facts:start -->\nx\n<!-- facts:end -->\n").unwrap();
    assert!(only.delete);
    assert_eq!(only.content, "");
    assert_eq!(only.message, "  remove  AGENTS.md (was only facts section)");
    let mixed = doc_removal("AGENTS.md", "# Notes\n\n<!-- facts:start -->\nx\n<!-- facts:end -->\n").unwrap();
    assert!(!mixed.delete);
    assert_eq!(mixed.content, "# Notes\n");
    assert_eq!(mixed.message, "  update  AGENTS.md (removed facts section)");
    assert!(doc_removal("AGENTS.md", "# Notes\n").is_none());
}

#[test]
fn test_uninit_removes_everything() {
    let sheet = facts::init::run(facts::init::FactsFile::Missing, &facts::init::Probe {
        existing: vec!["Cargo.toml".to_string()],
        dirs: vec![],
        contents: vec![("Cargo.toml".to_string(), "[package]\n".to_string())],
        entries: vec!["Cargo.toml".to_string()],
    })
    .unwrap()
    .write
    .unwrap();
    assert!(run(true, Some(&sheet)).unwrap().remove);
    for name in skill_names() {
        assert!(skill_removal(name, true).remove);
    }
}

#[test]
fn uninit_removes_doc_that_init_created() {
    let doc = facts::init::new_agent_doc();
    let removal = doc_removal("AGENTS.md", &doc).unwrap();
    assert!(removal.delete);
    assert!(removal.content.is_empty());
}
