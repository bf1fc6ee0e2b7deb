use xos_apps::order::{lex_le_exec, stable_sorted_order};
use xos_apps::text::{
    ascii_lower, chars_of, contains, int_to_string, lines_of, nat_to_string, parse_signed, parse_unsigned,
    string_of, trim,
};

fn s(v: &Vec<char>) -> String {
    string_of(v)
}

#[test]
fn trim_removes_unicode_white_space() {
    let v = chars_of("\u{3000} \t abc d \u{a0}\n");
    assert_eq!(s(&trim(&v)), "abc d");
    assert_eq!(s(&trim(&chars_of("   "))), "");
}

#[test]
fn ascii_lower_leaves_other_letters() {
    assert_eq!(s(&ascii_lower(&chars_of("ÄbC-Z9"))), "Äbc-z9");
}

#[test]
fn contains_finds_pieces() {
    assert!(contains(&chars_of("report.pdf"), &chars_of("port")));
    assert!(contains(&chars_of("abc"), &chars_of("")));
    assert!(!contains(&chars_of("abc"), &chars_of("abcd")));
    assert!(!contains(&chars_of("abc"), &chars_of("ac")));
}

#[test]
fn lines_follow_str_lines() {
    let text = "a\r\n\nb\rc\nlast\r";
    let got: Vec<String> = lines_of(&chars_of(text)).iter().map(|l| s(l)).collect();
    let want: Vec<String> = text.lines().map(|l| l.to_string()).collect();
    assert_eq!(got, want);
    assert_eq!(lines_of(&chars_of("")).len(), 0);
    assert_eq!(lines_of(&chars_of("x\n")).len(), 1);
}

#[test]
fn numbers_print_in_decimal() {
    assert_eq!(int_to_string(0), "0");
    assert_eq!(int_to_string(-42), "-42");
    assert_eq!(int_to_string(i64::MIN), i64::MIN.to_string());
    assert_eq!(nat_to_string(u64::MAX), u64::MAX.to_string());
}

#[test]
fn numbers_parse_like_str_parse() {
    for text in ["0", "+7", "18446744073709551615", "18446744073709551616", "-1", "", "+", "1a"] {
        let want: Option<u64> = text.parse().ok();
        assert_eq!(parse_unsigned(&chars_of(text), u64::MAX), want, "{text}");
    }
    for text in ["-2147483648", "2147483647", "2147483648", "-2147483649", "-", "+-1", "-0", "+12"] {
        let want: Option<i32> = text.parse().ok();
        assert_eq!(parse_signed(&chars_of(text), i32::MAX as u64).map(|v| v as i32), want, "{text}");
    }
}

#[test]
fn code_point_order() {
    assert!(lex_le_exec(&chars_of("abc"), &chars_of("abd")));
    assert!(lex_le_exec(&chars_of("ab"), &chars_of("abc")));
    assert!(!lex_le_exec(&chars_of("b"), &chars_of("abc")));
    assert!(lex_le_exec(&chars_of("Z"), &chars_of("a")));
}

#[test]
fn stable_order_keeps_ties() {
    let keys = vec![chars_of("b"), chars_of("a"), chars_of("b"), chars_of("a")];
    assert_eq!(stable_sorted_order(&keys), vec![1, 3, 0, 2]);
}
