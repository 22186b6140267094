use facts::fmt::{format_sheet, run, FmtOutcome};

#[test]
fn fmt_leaves_normalized_sheet() {
    assert_eq!(format_sheet("- a fact\n", ".facts").unwrap(), None);
}

#[test]
fn fmt_normalizes_sheet() {
    let out = format_sheet("# S\n- a fact", ".facts").unwrap();
    assert_eq!(out, Some("# S\n- a fact\n".to_string()));
    let again = format_sheet(out.as_ref().unwrap(), ".facts").unwrap();
    assert_eq!(again, None);
}

#[test]
fn fmt_aborts_on_lint_errors() {
    let files = vec![(".facts".to_string(), "this line is not a fact\n".to_string())];
    match run(&files) {
        FmtOutcome::Aborted(lines) => {
            assert!(!lines.is_empty());
            assert!(lines[0].starts_with(".facts:1: error: "));
        }
        _ => panic!("expected the run to abort"),
    }
}

#[test]
fn fmt_formats_every_sheet() {
    let files = vec![
        (".facts".to_string(), "- a\n".to_string()),
        ("cli.facts".to_string(), "- b".to_string()),
    ];
    match run(&files) {
        FmtOutcome::Formatted(outs) => {
            assert_eq!(outs.len(), 2);
            assert_eq!(outs[0], None);
            assert_eq!(outs[1], Some("- b\n".to_string()));
        }
        _ => panic!("expected formatted sheets"),
    }
}
