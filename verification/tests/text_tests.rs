use rhei_cli::text::{
    chars_of, join_strings, lines_of, parse_u64, split_whitespace, str_lines, trim_string, u64_to_string,
};

fn s(v: &[char]) -> String {
    v.iter().collect()
}

#[test]
fn trim_removes_unicode_whitespace_on_both_ends() {
    assert_eq!(trim_string("  \t hello world \n"), "hello world");
    assert_eq!(trim_string("\u{00a0}x\u{2003}"), "x");
    assert_eq!(trim_string("   "), "");
}

#[test]
fn lines_drop_final_empty_piece_and_carriage_returns() {
    let ls = str_lines("a\r\nb\n\nc\n");
    let got: Vec<String> = ls.iter().map(|l| s(l)).collect();
    assert_eq!(got, vec!["a", "b", "", "c"]);
    assert!(str_lines("").is_empty());
    let v = chars_of("x\ny");
    assert_eq!(lines_of(&v).len(), 2);
}

#[test]
fn split_whitespace_yields_maximal_runs() {
    let v = chars_of("  lock:  1 FLOCK\tADVISORY  ");
    let w: Vec<String> = split_whitespace(&v).iter().map(|x| s(x)).collect();
    assert_eq!(w, vec!["lock:", "1", "FLOCK", "ADVISORY"]);
    assert!(split_whitespace(&chars_of("   ")).is_empty());
}

#[test]
fn parse_u64_follows_std() {
    assert_eq!(parse_u64(&chars_of("42")), Some(42));
    assert_eq!(parse_u64(&chars_of("+7")), Some(7));
    assert_eq!(parse_u64(&chars_of("18446744073709551615")), Some(u64::MAX));
    assert_eq!(parse_u64(&chars_of("18446744073709551616")), None);
    assert_eq!(parse_u64(&chars_of("-1")), None);
    assert_eq!(parse_u64(&chars_of("+")), None);
    assert_eq!(parse_u64(&chars_of("")), None);
    assert_eq!(parse_u64(&chars_of("1a")), None);
}

#[test]
fn decimal_spelling_round_trips() {
    assert_eq!(u64_to_string(0), "0");
    assert_eq!(u64_to_string(1207), "1207");
    assert_eq!(u64_to_string(u64::MAX), "18446744073709551615");
    assert_eq!(parse_u64(&chars_of(&u64_to_string(98765))), Some(98765));
}

#[test]
fn join_puts_separator_between_parts_only() {
    let parts = vec!["a".to_string(), "b".to_string(), "c".to_string()];
    assert_eq!(join_strings(&parts, ", "), "a, b, c");
    assert_eq!(join_strings(&Vec::new(), ", "), "");
}
