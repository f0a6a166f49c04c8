use acpd::text::{split_str, trim_str};

#[test]
fn trims_unicode_whitespace() {
    assert_eq!(trim_str("  a b \n\n"), "a b");
    assert_eq!(trim_str("\u{3000}x\u{a0}"), "x");
    assert_eq!(trim_str(" \t\n"), "");
    assert_eq!(trim_str(""), "");
    assert_eq!(trim_str("é ü"), "é ü");
}

#[test]
fn splits_on_separator() {
    assert_eq!(split_str("a,b,,c", ','), vec!["a", "b", "", "c"]);
    assert_eq!(split_str("", ','), vec![""]);
    assert_eq!(split_str(",", ','), vec!["", ""]);
}
