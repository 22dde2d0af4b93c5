use compose_menu::input::{interpret_input, parse_usize, trim, Choice};

#[test]
fn trim_strips_trailing_newline() {
    assert_eq!(trim("hello\n"), "hello");
}

#[test]
fn trim_of_blank_line_is_empty() {
    assert_eq!(trim(""), "");
    assert_eq!(trim("\n"), "");
    assert_eq!(trim("   \t  \r\n"), "");
}

#[test]
fn trim_strips_both_ends_only() {
    assert_eq!(trim("  two words \t\n"), "two words");
    assert_eq!(trim("inner"), "inner");
}

#[test]
fn parses_decimal_numbers() {
    assert_eq!(parse_usize("0"), Some(0));
    assert_eq!(parse_usize("1"), Some(1));
    assert_eq!(parse_usize("042"), Some(42));
    assert_eq!(parse_usize("18446744073709551615"), Some(usize::MAX));
}

#[test]
fn rejects_non_numeric_input() {
    assert_eq!(parse_usize(""), None);
    assert_eq!(parse_usize("abc"), None);
    assert_eq!(parse_usize("-1"), None);
    assert_eq!(parse_usize("1.5"), None);
    assert_eq!(parse_usize(" 3"), None);
}

#[test]
fn rejects_number_too_large_for_machine() {
    assert_eq!(parse_usize("18446744073709551616"), None);
    assert_eq!(parse_usize("99999999999999999999999"), None);
}

#[test]
fn quit_sentinel_quits_without_selecting() {
    assert_eq!(interpret_input(":quit", 3), Choice::Quit);
    assert_eq!(interpret_input(":quit", 0), Choice::Quit);
}

#[test]
fn invalid_options_never_select() {
    assert_eq!(interpret_input("0", 3), Choice::Invalid);
    assert_eq!(interpret_input("-1", 3), Choice::Invalid);
    assert_eq!(interpret_input("abc", 3), Choice::Invalid);
    assert_eq!(interpret_input("4", 3), Choice::Invalid);
    assert_eq!(interpret_input("", 3), Choice::Invalid);
    assert_eq!(interpret_input("1", 0), Choice::Invalid);
}

#[test]
fn valid_index_selects_that_entry() {
    assert_eq!(interpret_input("1", 3), Choice::Select(1));
    assert_eq!(interpret_input("2", 3), Choice::Select(2));
    assert_eq!(interpret_input("3", 3), Choice::Select(3));
}
