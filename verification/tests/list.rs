use facts::list::{list_lines, section_matches, ListOptions};
use facts::parser;

#[test]
fn test_section_matches_exact() {
    assert!(section_matches("cli", "cli"));
    assert!(section_matches("cli/check", "cli/check"));
}

#[test]
fn test_section_matches_prefix_includes_children() {
    assert!(section_matches("cli/check", "cli"));
    assert!(section_matches("cli/check/output", "cli"));
    assert!(section_matches("cli/check/output", "cli/check"));
}

#[test]
fn test_section_matches_any_depth() {
    assert!(section_matches("facts/cli/init", "init"));
    assert!(section_matches("facts/cli/init", "cli/init"));
    assert!(section_matches("facts/cli/init", "cli"));
    assert!(section_matches("facts/skills/facts-discover", "skills"));
    assert!(section_matches(
        "facts/skills/facts-discover",
        "facts-discover"
    ));
}

#[test]
fn test_section_matches_children_from_any_depth() {
    assert!(section_matches("facts/cli/init/extra", "init"));
    assert!(section_matches("facts/cli/init/extra", "cli/init"));
}

#[test]
fn test_section_matches_case_insensitive() {
    assert!(section_matches("Api/Auth", "api/auth"));
    assert!(section_matches("facts/CLI/Init", "cli"));
    assert!(section_matches("facts/CLI/Init", "init"));
}

#[test]
fn test_section_matches_no_substring() {
    assert!(!section_matches("cli_tools", "cli"));
    assert!(!section_matches("facts/cli_tools", "cli"));
    assert!(!section_matches("precli/check", "cli"));
}

#[test]
fn test_section_matches_no_match() {
    assert!(!section_matches("facts/cli/init", "check"));
    assert!(!section_matches("facts/cli/init", "api"));
    assert!(!section_matches("cli", "cli/check"));
}

fn options() -> ListOptions {
    ListOptions {
        file_filter: None,
        section_filter: None,
        has_command: false,
        manual: false,
        tags_expr: None,
    }
}

#[test]
fn test_list_rejects_bad_tag_expression() {
    let sheets = vec![parser::parse("- a\n", ".facts").unwrap()];
    let mut opts = options();
    opts.tags_expr = Some("a and".to_string());
    let err = list_lines(&opts, &sheets).unwrap_err();
    assert!(err.starts_with("invalid tag expression: "), "{err}");
}

#[test]
fn test_list_filters_manual_and_command() {
    let content = "- plain fact\n- label: with cmd\n  command: true\n";
    let sheets = vec![parser::parse(content, ".facts").unwrap()];
    let all = list_lines(&options(), &sheets).unwrap();
    assert_eq!(all.len(), 2);
    let mut opts = options();
    opts.has_command = true;
    let with_cmd = list_lines(&opts, &sheets).unwrap();
    assert_eq!(with_cmd.len(), 1);
    assert!(with_cmd[0].contains("with cmd"));
    let mut opts = options();
    opts.manual = true;
    let manual = list_lines(&opts, &sheets).unwrap();
    assert_eq!(manual.len(), 1);
    assert!(manual[0].contains("plain fact"));
}

#[test]
fn test_list_section_and_file_filters() {
    let a = parser::parse("# cli\n\n- in cli\n\n# api\n\n- in api\n", ".facts").unwrap();
    let b = parser::parse("- other file\n", "more.facts").unwrap();
    let sheets = vec![a, b];
    let mut opts = options();
    opts.section_filter = Some("CLI".to_string());
    let lines = list_lines(&opts, &sheets).unwrap();
    assert_eq!(lines.len(), 1);
    assert!(lines[0].contains("in cli"));
    let mut opts = options();
    opts.file_filter = Some("more".to_string());
    let lines = list_lines(&opts, &sheets).unwrap();
    assert_eq!(lines.len(), 1);
    assert!(lines[0].contains("other file"));
}
