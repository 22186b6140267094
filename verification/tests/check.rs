use facts::check::{
    build_search_haystack, count_results, format_display_path_plain, id_width, result_lines,
    summary_lines, CheckResult, CheckStatus,
};
use facts::model::FactSheet;

#[test]
fn test_format_display_path_default_file() {
    let sheet = FactSheet {
        filename: ".facts".to_string(),
        preamble: vec![],
        sections: vec![],
    };
    let path = vec!["cli".to_string(), "check".to_string()];
    let result = format_display_path_plain(&sheet, &path, "runs commands");
    assert_eq!(result, "cli > check > runs commands");
}

#[test]
fn test_format_display_path_named_file() {
    let sheet = FactSheet {
        filename: "cli.facts".to_string(),
        preamble: vec![],
        sections: vec![],
    };
    let path = vec!["check".to_string()];
    let result = format_display_path_plain(&sheet, &path, "runs commands");
    assert_eq!(result, "cli.facts > check > runs commands");
}

#[test]
fn test_format_display_path_no_section() {
    let sheet = FactSheet {
        filename: ".facts".to_string(),
        preamble: vec![],
        sections: vec![],
    };
    let result = format_display_path_plain(&sheet, &[], "a preamble fact");
    assert_eq!(result, "a preamble fact");
}

#[test]
fn test_haystack_joins_path_label_tags() {
    let h = build_search_haystack(
        &["cli".to_string()],
        "runs",
        &["mvp".to_string(), "core".to_string()],
    );
    assert_eq!(h, "cli runs mvp core");
}

#[test]
fn test_result_lines_plain() {
    let r = CheckResult {
        id: "ab".to_string(),
        display_path: "x".to_string(),
        tags: vec!["t".to_string()],
        status: CheckStatus::Passed {
            command: "true".to_string(),
        },
    };
    assert_eq!(result_lines(false, &r, 4, 10), vec!["  ✓ ab   x (true)  @t"]);
    let f = CheckResult {
        id: "ab".to_string(),
        display_path: "x".to_string(),
        tags: vec![],
        status: CheckStatus::Failed {
            command: "false".to_string(),
            exit_code: 2,
            stderr: "e1\ne2".to_string(),
        },
    };
    assert_eq!(
        result_lines(false, &f, 2, 3),
        vec![
            "  ✗ ab x",
            "   exit: 2",
            "   command: false",
            "   stderr: e1",
            "   stderr: e2"
        ]
    );
    let m = CheckResult {
        id: "ab".to_string(),
        display_path: "x".to_string(),
        tags: vec![],
        status: CheckStatus::Manual,
    };
    assert_eq!(result_lines(true, &m, 2, 3), vec!["  \u{1b}[33m? ab\u{1b}[0m x"]);
    assert_eq!(count_results(&vec![r, f, m]), (1, 1, 1));
}

#[test]
fn test_summary_lines() {
    let lines = summary_lines(false, 2, 0, 1);
    assert_eq!(lines[0], "");
    assert_eq!(lines[1], "2 passed, 0 failed, 1 manual");
    assert!(lines[2].starts_with("1 fact has no command"));
    assert_eq!(summary_lines(false, 1, 1, 0).len(), 2);
}

#[test]
fn test_id_width() {
    assert_eq!(id_width(&vec![]), 3);
    assert_eq!(id_width(&vec!["ab".to_string(), "abcd".to_string()]), 4);
}
