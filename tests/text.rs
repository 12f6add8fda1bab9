use cargo_profiler::extract::{call_row_chars, cache_row_chars, is_cache_data_line_chars, is_call_data_line_chars};
use cargo_profiler::text::{chars_of, parse_count, string_of, trim_chars};

fn chars(s: &str) -> Vec<char> {
    chars_of(s)
}

#[test]
fn counts_parse() {
    assert_eq!(parse_count(&chars(" 1,234,567 ")), Some(1234567));
    assert_eq!(parse_count(&chars("18446744073709551615")), Some(u64::MAX));
    assert_eq!(parse_count(&chars("18446744073709551616")), None);
    assert_eq!(parse_count(&chars("")), None);
    assert_eq!(parse_count(&chars(".")), None);
    assert_eq!(parse_count(&chars("1.5")), None);
}

#[test]
fn trimming() {
    assert_eq!(string_of(&trim_chars(&chars("\t a b \u{3000}"))), "a b");
    assert_eq!(string_of(&trim_chars(&chars("   "))), "");
}

#[test]
fn data_line_grammar() {
    assert!(is_cache_data_line_chars(&chars("1 2 3 4 5 6 7 8 9  /a/b")));
    assert!(is_cache_data_line_chars(&chars("12 ???:foo")));
    assert!(!is_cache_data_line_chars(&chars("Ir I1mr ILmr file:function")));
    assert!(is_call_data_line_chars(&chars("  3,036,209  ???:_int_malloc")));
    assert!(is_call_data_line_chars(&chars("12  /src/main.rs:main")));
    assert!(!is_call_data_line_chars(&chars("3,036,209  PROGRAM TOTALS")));
    assert!(!is_call_data_line_chars(&chars("1234 /x")));
    assert!(!is_call_data_line_chars(&chars("x 12 /x")));
}

#[test]
fn row_extraction() {
    let (v, name) = cache_row_chars(&chars("1 2 3 4 5 6 7 8 9  /p/q/lib.rs:a::b")).unwrap();
    assert_eq!(v, vec![1, 2, 3, 4, 5, 6, 7, 8, 9]);
    assert_eq!(string_of(&name), "lib.rs:a");
    let (n, name) = call_row_chars(&chars(" 4,096  /x/y.rs:f$u20$g [/bin/app]")).unwrap();
    assert_eq!(n, 4096);
    assert_eq!(string_of(&name), "y.rs:fg");
    assert!(call_row_chars(&chars("4096 /x")).is_none());
}
