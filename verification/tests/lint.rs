use facts::lint::{check_crlf, lint_content, Severity};

#[test]
fn test_lint_valid_file() {
    let content = "\
# project

- a fact about the project
- another fact

## section

- label: a mapping fact
  command: echo hi
";
    let diags = lint_content(content, ".facts");
    assert!(diags.is_empty(), "expected no diagnostics, got: {diags:?}");
}

#[test]
fn test_lint_valid_plain_with_tags() {
    let content = "- a fact @mvp @core\n";
    let diags = lint_content(content, ".facts");
    assert!(diags.is_empty(), "expected no diagnostics, got: {diags:?}");
}

#[test]
fn test_lint_valid_mapping_with_tags_key() {
    let content = "- label: a fact\n  tags: [mvp, core]\n";
    let diags = lint_content(content, ".facts");
    assert!(diags.is_empty(), "expected no diagnostics, got: {diags:?}");
}

#[test]
fn test_lint_catches_mixed_tags() {
    let content = "- label: a fact @mvp\n  tags: [core]\n";
    let diags = lint_content(content, ".facts");
    assert_eq!(diags.len(), 1);
    assert_eq!(diags[0].severity, Severity::Warning);
    assert!(diags[0].message.contains("mixed inline and mapping tags"));
}

#[test]
fn test_lint_catches_invalid_key() {
    let content = "- label: a fact\n  priority: high\n";
    let diags = lint_content(content, ".facts");
    let errors: Vec<_> = diags
        .iter()
        .filter(|d| d.severity == Severity::Error)
        .collect();
    assert!(!errors.is_empty(), "expected error for unknown key");
    assert!(errors[0].message.contains("unknown key 'priority'"));
}

#[test]
fn test_lint_catches_unexpected_line() {
    let content = "# title\n\nthis is not a fact\n- a real fact\n";
    let diags = lint_content(content, ".facts");
    let errors: Vec<_> = diags
        .iter()
        .filter(|d| d.severity == Severity::Error)
        .collect();
    assert!(!errors.is_empty(), "expected error for unexpected line");
    assert!(errors[0].message.contains("unexpected line"));
}

#[test]
fn test_lint_allows_known_keys() {
    let content = "\
- label: my fact
  id: abc
  command: echo ok
  tags: [core]
";
    let diags = lint_content(content, ".facts");
    assert!(diags.is_empty(), "expected no diagnostics, got: {diags:?}");
}

#[test]
fn test_lint_empty_file() {
    let content = "";
    let diags = lint_content(content, ".facts");
    assert!(diags.is_empty());
}

#[test]
fn test_lint_multiple_invalid_keys() {
    let content = "\
- label: fact one
  priority: high
  status: active
";
    let diags = lint_content(content, ".facts");
    let errors: Vec<_> = diags
        .iter()
        .filter(|d| d.severity == Severity::Error)
        .collect();
    assert_eq!(errors.len(), 2, "expected 2 errors for 2 unknown keys");
}

#[test]
fn test_lint_catches_duplicate_ids() {
    let content = "\
- label: first fact
  id: dupe
- label: second fact
  id: dupe
";
    let diags = lint_content(content, ".facts");
    let warnings: Vec<_> = diags
        .iter()
        .filter(|d| d.severity == Severity::Warning)
        .collect();
    assert_eq!(warnings.len(), 1, "expected 1 warning for duplicate id");
    assert!(warnings[0].message.contains("duplicate"));
    assert!(warnings[0].message.contains("dupe"));
}

#[test]
fn test_lint_unique_ids_pass() {
    let content = "\
- label: first fact
  id: alpha
- label: second fact
  id: beta
";
    let diags = lint_content(content, ".facts");
    assert!(
        diags.is_empty(),
        "expected no diagnostics for unique ids, got: {diags:?}"
    );
}

#[test]
fn test_lint_warns_bare_tags() {
    let content = "- label: my fact\n  tags: mvp, core\n";
    let diags = lint_content(content, ".facts");
    let warnings: Vec<_> = diags
        .iter()
        .filter(|d| d.severity == Severity::Warning)
        .collect();
    assert_eq!(warnings.len(), 1, "expected 1 warning for bare tags");
    assert!(
        warnings[0]
            .message
            .contains("tags should use bracket syntax")
    );
    assert!(warnings[0].message.contains("[mvp, core]"));
}

#[test]
fn test_lint_bracket_tags_pass() {
    let content = "- label: my fact\n  tags: [mvp, core]\n";
    let diags = lint_content(content, ".facts");
    assert!(
        diags.is_empty(),
        "expected no diagnostics for bracket tags, got: {diags:?}"
    );
}

#[test]
fn test_check_crlf_warns_on_crlf() {
    let mut diagnostics = Vec::new();
    check_crlf("- a fact\r\n- another\r\n", ".facts", &mut diagnostics);
    assert_eq!(diagnostics.len(), 1);
    assert_eq!(diagnostics[0].severity, Severity::Warning);
    assert!(diagnostics[0].message.contains("CRLF"));
    assert!(diagnostics[0].message.contains("LF"));
}

#[test]
fn test_check_crlf_passes_on_lf() {
    let mut diagnostics = Vec::new();
    check_crlf("- a fact\n- another\n", ".facts", &mut diagnostics);
    assert!(
        diagnostics.is_empty(),
        "expected no CRLF warning for LF content"
    );
}

#[test]
fn test_lint_warns_empty_label() {
    let content = "- \n";
    let diags = lint_content(content, ".facts");
    let warnings: Vec<_> = diags
        .iter()
        .filter(|d| d.severity == Severity::Warning)
        .collect();
    assert_eq!(
        warnings.len(),
        1,
        "expected 1 warning for empty label, got: {diags:?}"
    );
    assert!(warnings[0].message.contains("empty label"));
}

#[test]
fn test_lint_passes_nonempty_labels() {
    let content = "- a real fact\n- another fact\n";
    let diags = lint_content(content, ".facts");
    assert!(diags.is_empty(), "expected no diagnostics, got: {diags:?}");
}

#[test]
fn test_lint_warns_unknown_continuation_line() {
    let content =
        "- label: test fact\n  this content is silently dropped\n  command: echo hi\n";
    let diags = lint_content(content, ".facts");
    let warnings: Vec<_> = diags
        .iter()
        .filter(|d| d.severity == Severity::Warning)
        .collect();
    assert_eq!(
        warnings.len(),
        1,
        "expected 1 warning for unknown continuation, got: {diags:?}"
    );
    assert!(
        warnings[0]
            .message
            .contains("unrecognized continuation line")
    );
    assert!(
        warnings[0]
            .message
            .contains("this content is silently dropped")
    );
}

#[test]
fn test_lint_passes_valid_mapping_continuation() {
    let content = "- label: test fact\n  command: echo hi\n  tags: [core]\n  id: abc\n";
    let diags = lint_content(content, ".facts");
    assert!(
        diags.is_empty(),
        "expected no diagnostics for valid mapping, got: {diags:?}"
    );
}

#[test]
fn test_lint_warns_duplicate_mapping_keys() {
    let content = "- label: first label\n  label: second label\n";
    let diags = lint_content(content, ".facts");
    let warnings: Vec<_> = diags
        .iter()
        .filter(|d| d.severity == Severity::Warning)
        .collect();
    assert_eq!(
        warnings.len(),
        1,
        "expected 1 warning for duplicate key, got: {diags:?}"
    );
    assert!(warnings[0].message.contains("duplicate key 'label'"));
    assert!(warnings[0].message.contains("2 times"));
}

#[test]
fn test_lint_passes_unique_mapping_keys() {
    let content = "- label: a fact\n  command: echo hi\n  id: xyz\n  tags: [core]\n";
    let diags = lint_content(content, ".facts");
    assert!(
        diags.is_empty(),
        "expected no diagnostics for unique keys, got: {diags:?}"
    );
}

#[test]
fn test_lint_warns_empty_mapping_value_command() {
    let content = "- label: test\n  command:\n";
    let diags = lint_content(content, ".facts");
    let warnings: Vec<_> = diags
        .iter()
        .filter(|d| d.severity == Severity::Warning)
        .collect();
    assert!(
        warnings
            .iter()
            .any(|w| w.message.contains("key 'command' has no value")),
        "expected warning for empty command value, got: {diags:?}"
    );
}

#[test]
fn test_lint_warns_empty_mapping_value_with_trailing_spaces() {
    let content = "- label: test\n  command:   \n";
    let diags = lint_content(content, ".facts");
    let warnings: Vec<_> = diags
        .iter()
        .filter(|d| d.severity == Severity::Warning)
        .collect();
    assert!(
        warnings
            .iter()
            .any(|w| w.message.contains("key 'command' has no value")),
        "expected warning for empty command value with trailing spaces, got: {diags:?}"
    );
}

#[test]
fn test_lint_passes_curly_brace_plain_fact() {
    let content = "- {this is a note}\n";
    let diags = lint_content(content, ".facts");
    assert!(
        diags.is_empty(),
        "expected no diagnostics for curly brace plain fact, got: {diags:?}"
    );
}

#[test]
fn test_lint_warns_double_at_tag() {
    let content = "- a fact @@important\n";
    let diags = lint_content(content, ".facts");
    let warnings: Vec<_> = diags
        .iter()
        .filter(|d| d.severity == Severity::Warning)
        .collect();
    assert_eq!(
        warnings.len(),
        1,
        "expected 1 warning for double-@ tag, got: {diags:?}"
    );
    assert!(warnings[0].message.contains("@@important"));
    assert!(warnings[0].message.contains("@important"));
}

#[test]
fn test_lint_passes_single_at_tag() {
    let content = "- a fact @important\n";
    let diags = lint_content(content, ".facts");
    assert!(
        diags.is_empty(),
        "expected no diagnostics for single-@ tag, got: {diags:?}"
    );
}

#[test]
fn test_lint_empty_label_value_warns() {
    // `- label:` alone passes the line checks except the empty-value warning.
    let diags = lint_content("- label:\n", ".facts");
    assert!(diags.iter().any(|d| d.message == "key 'label' has no value"));
}

#[test]
fn test_lint_line_numbers_and_file() {
    let content = "- ok\nbad line\n";
    let diags = lint_content(content, "cli.facts");
    assert_eq!(diags.len(), 1);
    assert_eq!(diags[0].file, "cli.facts");
    assert_eq!(diags[0].line, Some(2));
    assert_eq!(
        diags[0].message,
        "unexpected line (not a heading, fact, or blank): bad line"
    );
    assert_eq!(diags[0].severity, Severity::Error);
}

#[test]
fn test_lint_duplicate_key_count_message() {
    let content = "- label: a\n  label: b\n  label: c\n";
    let diags = lint_content(content, ".facts");
    assert_eq!(diags.len(), 1);
    assert_eq!(
        diags[0].message,
        "duplicate key 'label' in mapping fact (appears 3 times)"
    );
    assert_eq!(diags[0].line, Some(1));
}

#[test]
fn test_lint_duplicate_id_message() {
    let content = "- label: a\n  id: x\n- label: b\n  id: x\n- label: c\n  id: x\n";
    let diags = lint_content(content, ".facts");
    assert_eq!(diags.len(), 1);
    assert_eq!(diags[0].message, "duplicate explicit id 'x' appears 3 times");
    assert_eq!(diags[0].line, None);
}

#[test]
fn test_lint_double_at_message() {
    let diags = lint_content("- a fact @@@x\n", ".facts");
    assert_eq!(diags.len(), 1);
    assert_eq!(diags[0].message, "double-@ tag '@@x' should be '@x'");
    assert_eq!(diags[0].line, Some(1));
}

#[test]
fn test_lint_bom_is_ignored() {
    let diags = lint_content("\u{FEFF}- a fact\n", ".facts");
    assert!(diags.is_empty(), "got: {diags:?}");
}

#[test]
fn test_lint_single_line_mapping_unknown_key() {
    let diags = lint_content("- {label: x, foo: y}\n", ".facts");
    assert!(diags.iter().any(|d| d.severity == Severity::Error));
}

#[test]
fn cross_file_ids_are_warned_with_sorted_files() {
    let files = vec![
        ("z.facts".to_string(), "- label: one\n  id: shared\n".to_string()),
        (".facts".to_string(), "- label: two\n  id: shared\n- label: three\n  id: solo\n".to_string()),
        ("a.facts".to_string(), "- label: four\n  id: shared\n".to_string()),
    ];
    let diags = facts::lint::cross_file_duplicate_ids(&files);
    assert_eq!(diags.len(), 1);
    assert_eq!(diags[0].file, ".facts, a.facts, z.facts");
    assert_eq!(diags[0].line, None);
    assert_eq!(
        diags[0].message,
        "duplicate explicit id 'shared' appears across files: .facts, a.facts, z.facts"
    );
    assert_eq!(diags[0].severity, facts::lint::Severity::Warning);
}

#[test]
fn cross_file_ids_in_one_file_are_not_warned_here() {
    let files = vec![
        (".facts".to_string(), "- label: one\n  id: x\n- label: two\n  id: x\n".to_string()),
        ("b.facts".to_string(), "- plain\n".to_string()),
    ];
    assert!(facts::lint::cross_file_duplicate_ids(&files).is_empty());
}

#[test]
fn lint_report_lines_and_summary() {
    let diags = vec![
        facts::lint::LintDiagnostic {
            file: ".facts".to_string(),
            line: Some(3),
            message: "bad".to_string(),
            severity: facts::lint::Severity::Error,
        },
        facts::lint::LintDiagnostic {
            file: "a.facts".to_string(),
            line: None,
            message: "odd".to_string(),
            severity: facts::lint::Severity::Warning,
        },
        facts::lint::LintDiagnostic {
            file: "a.facts".to_string(),
            line: None,
            message: "odd again".to_string(),
            severity: facts::lint::Severity::Warning,
        },
    ];
    assert_eq!(facts::lint::diagnostic_line(false, &diags[0]), ".facts:3: error: bad");
    assert_eq!(facts::lint::diagnostic_line(false, &diags[1]), "a.facts: warning: odd");
    assert_eq!(
        facts::lint::diagnostic_line(true, &diags[0]),
        "\x1b[1m.facts:3\x1b[0m: \x1b[31merror\x1b[0m: bad"
    );
    assert_eq!(facts::lint::lint_summary(&diags), ("1 error, 2 warnings".to_string(), false));
    let warnings: Vec<facts::lint::LintDiagnostic> = diags.into_iter().skip(1).collect();
    assert_eq!(facts::lint::lint_summary(&warnings), ("2 warnings".to_string(), true));
    assert_eq!(facts::lint::passed_message(false, 1), "1 file passed");
    assert_eq!(facts::lint::passed_message(false, 3), "3 files passed");
}

#[test]
fn unparseable_sheet_with_warnings_still_reports_parse_error() {
    let diags = lint_content("- label:\n", ".facts");
    assert!(diags.iter().any(|d| d.message == "key 'label' has no value"));
    assert!(diags
        .iter()
        .any(|d| d.severity == Severity::Error && d.message.starts_with("failed to parse")));
}

#[test]
fn diagnostic_lines_are_lines_of_the_file() {
    let content = "- label: x\n  priority: high\n  tags: a, b\nstray\n- y @@z\n  label:\n";
    let n = content.lines().count();
    let diags = lint_content(content, ".facts");
    assert!(!diags.is_empty());
    for d in &diags {
        if let Some(l) = d.line {
            assert!(l >= 1 && l <= n, "{d:?}");
        }
    }
}

#[test]
fn every_diagnostic_names_the_file() {
    let content = "- label: x\n  priority: high\nstray\n- y @@z\n";
    let diags = lint_content(content, "named.facts");
    assert!(!diags.is_empty());
    assert!(diags.iter().all(|d| d.file == "named.facts"));
}
