use facts::color::{bold, dim, green, paint, red, yellow};

#[test]
fn test_no_color_when_not_tty() {
    // In test harness, stdout is typically not a TTY
    // so colors should be disabled.
    // Just verify the functions don't panic and return the input.
    let result = green("hello");
    assert!(result.contains("hello"));
}

#[test]
fn test_paint_codes() {
    let s: Vec<char> = "x".chars().collect();
    let on: String = paint(&['3', '1'], &s, true).into_iter().collect();
    assert_eq!(on, "\u{1b}[31mx\u{1b}[0m");
    let off: String = paint(&['3', '1'], &s, false).into_iter().collect();
    assert_eq!(off, "x");
    for out in [red("a"), yellow("a"), bold("a"), dim("a")] {
        assert!(out == "a" || out.starts_with("\u{1b}["));
    }
}
