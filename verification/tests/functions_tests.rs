use json_formula_rs::text::read_i64_radix;
use json_formula_rs::functions::{
    casefold_locale, ends_with, find_text, normalize_year_month, parse_glob, proper, starts_with, substitute,
    test_match, wildcard_search, GlobToken,
};

#[test]
fn ends_and_starts_with() {
    assert!(ends_with("Abcd", "cd"));
    assert!(!ends_with("Abcd", "Ab"));
    assert!(!ends_with("a", "abc"));
    assert!(ends_with("abc", ""));
    assert!(starts_with("Abcd", "Ab"));
    assert!(!starts_with("Abcd", "b"));
    assert!(!starts_with("ab", "abc"));
    assert!(starts_with("héllo", "hé"));
}

#[test]
fn find_text_positions() {
    assert_eq!(find_text("b", "abcb", 0), Some(1));
    assert_eq!(find_text("b", "abcb", 2), Some(3));
    assert_eq!(find_text("b", "abcb", -5), Some(1));
    assert_eq!(find_text("z", "abcb", 0), None);
    assert_eq!(find_text("b", "abcb", 10), None);
    assert_eq!(find_text("é", "aéb", 0), Some(1));
}

#[test]
fn find_text_empty_query() {
    assert_eq!(find_text("", "abc", 2), Some(2));
    assert_eq!(find_text("", "abc", 3), Some(3));
    assert_eq!(find_text("", "abc", 4), None);
    assert_eq!(find_text("", "abc", -1), None);
}

#[test]
fn substitute_all_and_one() {
    assert_eq!(substitute("aaa", "a", "b", -1), "bbb");
    assert_eq!(substitute("abcabc", "abc", "x", 1), "abcx");
    assert_eq!(substitute("abcabc", "abc", "x", 0), "xabc");
    assert_eq!(substitute("abcabc", "abc", "x", 2), "abcabc");
    assert_eq!(substitute("abc", "", "x", -1), "abc");
    assert_eq!(substitute("abc", "z", "x", -1), "abc");
    assert_eq!(substitute("abc", "b", "x", i64::MAX), "abc");
}

#[test]
fn substitute_counts_overlapping_places() {
    assert_eq!(substitute("aaaa", "aa", "X", 1), "aXa");
    assert_eq!(substitute("aaaa", "aa", "X", -1), "XX");
}

#[test]
fn normalize_year_month_carries_years() {
    assert_eq!(normalize_year_month(2020, 0), (2020, 1));
    assert_eq!(normalize_year_month(2020, 11), (2020, 12));
    assert_eq!(normalize_year_month(2020, 12), (2021, 1));
    assert_eq!(normalize_year_month(2020, 25), (2022, 2));
    assert_eq!(normalize_year_month(2020, -1), (2019, 12));
    assert_eq!(normalize_year_month(2020, -12), (2019, 1));
    assert_eq!(normalize_year_month(2020, -13), (2018, 12));
}

#[test]
fn glob_parsing() {
    assert_eq!(
        parse_glob("a?**\\*b\\"),
        vec![GlobToken::Char('a'), GlobToken::Dot, GlobToken::Star, GlobToken::Char('*'), GlobToken::Char('b')]
    );
    assert_eq!(parse_glob(""), vec![]);
}

#[test]
fn glob_matching_is_a_prefix() {
    let text: Vec<char> = "abcde".chars().collect();
    let glob = parse_glob("a*c");
    assert_eq!(test_match(&text, &glob), Some(vec!['a', 'b', 'c']));
    let glob = parse_glob("b");
    assert_eq!(test_match(&text, &glob), None);
    let glob = parse_glob("a?c*");
    assert_eq!(test_match(&text, &glob), Some(vec!['a', 'b', 'c']));
    let empty: Vec<char> = Vec::new();
    assert_eq!(test_match(&empty, &parse_glob("*")), Some(vec![]));
    assert_eq!(test_match(&empty, &parse_glob("a")), None);
}

#[test]
fn wildcard_search_finds_first_match() {
    assert_eq!(wildcard_search("b*d", "abcde", 0), Some((1, "bcd".to_string())));
    assert_eq!(wildcard_search("b*d", "abcde", 2), None);
    assert_eq!(wildcard_search("?", "xyz", 1), Some((1, "y".to_string())));
    assert_eq!(wildcard_search("*", "", 0), None);
}

#[test]
fn proper_capitalizes_words() {
    assert_eq!(proper("hello WORLD"), "Hello World");
    assert_eq!(proper("x2y-z"), "X2Y-Z");
    assert_eq!(proper("ÉCOLE été"), "École Été");
}

#[test]
fn casefold_default_and_turkish() {
    assert_eq!(casefold_locale("Straße", "en-US"), "strasse");
    assert_eq!(casefold_locale("HELLO", "EN"), "hello");
    assert_eq!(casefold_locale("Iı", "tr-TR"), "ıı");
    assert_eq!(casefold_locale("iİ", "TR"), "ii");
    assert_eq!(casefold_locale("Ii", "az"), "ıi");
}

use json_formula_rs::functions::{
    collapse_spaces, left_chars, mid_chars, repeat_text, reverse_text, right_chars, splice_chars, split_text,
    weekday,
};

#[test]
fn split_text_pieces() {
    assert_eq!(split_text("a,b,,c", ","), vec!["a", "b", "", "c"]);
    assert_eq!(split_text("abc", ""), vec!["a", "b", "c"]);
    assert_eq!(split_text("", ","), vec![""]);
    assert_eq!(split_text("a--b", "--"), vec!["a", "b"]);
    assert_eq!(split_text("aaa", "aa"), vec!["", "a"]);
}

#[test]
fn collapse_spaces_keeps_single_spaces() {
    assert_eq!(collapse_spaces("  a   b c  "), "a b c");
    assert_eq!(collapse_spaces("    "), "");
    assert_eq!(collapse_spaces("a\tb"), "a\tb");
}

#[test]
fn character_windows() {
    assert_eq!(left_chars("héllo", 2), "hé");
    assert_eq!(left_chars("ab", 5), "ab");
    assert_eq!(right_chars("héllo", 3), "llo");
    assert_eq!(right_chars("ab", 5), "ab");
    assert_eq!(mid_chars("abcdef", 2, 3), "cde");
    assert_eq!(mid_chars("abcdef", 4, 10), "ef");
    assert_eq!(mid_chars("abc", 10, 1), "");
}

#[test]
fn splice_and_repeat_and_reverse() {
    assert_eq!(splice_chars("abcdef", 1, 2, "XY"), "aXYdef");
    assert_eq!(splice_chars("abc", 3, 5, "!"), "abc!");
    assert_eq!(splice_chars("abc", 0, 10, ""), "");
    assert_eq!(repeat_text("ab", 3), "ababab");
    assert_eq!(repeat_text("ab", 0), "");
    assert_eq!(reverse_text("héllo"), "olléh");
}

#[test]
fn weekday_numberings() {
    assert_eq!(weekday(0, 1).unwrap(), 1);
    assert_eq!(weekday(6, 1).unwrap(), 7);
    assert_eq!(weekday(0, 2).unwrap(), 7);
    assert_eq!(weekday(1, 2).unwrap(), 1);
    assert_eq!(weekday(0, 3).unwrap(), 6);
    assert_eq!(weekday(1, 3).unwrap(), 0);
    let err = weekday(1, 4).unwrap_err();
    assert_eq!(err.message, "Unsupported returnType: \"4\" for weekday()");
}

use json_formula_rs::functions::{datedif, datedif_checked, DateParts};

fn day(millis: i64, year: i32, month: u32, day: u32) -> DateParts {
    DateParts { millis, year, month, day }
}

#[test]
fn datedif_units() {
    let first = day(1579046400000, 2020, 1, 15);
    let second = day(1615334400000, 2021, 3, 10);
    assert_eq!(datedif(first, second, "d").unwrap(), 420);
    assert_eq!(datedif(first, second, "D").unwrap(), 420);
    assert_eq!(datedif(first, second, "y").unwrap(), 1);
    assert_eq!(datedif(first, second, "m").unwrap(), 13);
    assert_eq!(datedif(first, second, "ym").unwrap(), 1);
    assert_eq!(datedif(first, second, "yd").unwrap(), 55);
    assert_eq!(datedif(first, first, "y").unwrap(), 0);
}

#[test]
fn datedif_errors() {
    let first = day(1579046400000, 2020, 1, 15);
    let second = day(1615334400000, 2021, 3, 10);
    let err = datedif(second, first, "d").unwrap_err();
    assert_eq!(err.kind, json_formula_rs::errors::JsonFormulaErrorKind::FunctionError);
    assert_eq!(err.message, "end_date must be >= start_date in datedif()");
    let err = datedif(first, second, "X").unwrap_err();
    assert_eq!(err.message, "Unrecognized unit parameter \"x\" for datedif()");
}

#[test]
fn datedif_leap_day_has_no_moved_date() {
    let first = day(1614556800000, 2021, 3, 1);
    let second = day(1709164800000, 2024, 2, 29);
    assert!(datedif_checked(first, second, "yd").is_none());
    assert_eq!(datedif_checked(first, second, "y").unwrap().unwrap(), 2);
}

use json_formula_rs::functions::{parse_number_base, BaseParse};

#[test]
fn number_bases() {
    assert_eq!(parse_number_base("  ", 2).unwrap(), BaseParse::Blank);
    assert_eq!(parse_number_base("101", 10).unwrap(), BaseParse::Decimal);
    assert_eq!(parse_number_base("101", 2).unwrap(), BaseParse::Parts { int_part: 5, fraction: None });
    assert_eq!(parse_number_base("+101", 2).unwrap(), BaseParse::Parts { int_part: 5, fraction: None });
    assert_eq!(
        parse_number_base(" -1.1 ", 2).unwrap(),
        BaseParse::Parts { int_part: -1, fraction: Some((1, 1)) }
    );
    assert_eq!(parse_number_base("ff", 16).unwrap(), BaseParse::Parts { int_part: 255, fraction: None });
    assert_eq!(
        parse_number_base("FF.8", 16).unwrap(),
        BaseParse::Parts { int_part: 255, fraction: Some((8, 1)) }
    );
    assert_eq!(parse_number_base("17", 8).unwrap(), BaseParse::Parts { int_part: 15, fraction: None });
    assert_eq!(
        parse_number_base("1.", 2).unwrap(),
        BaseParse::Parts { int_part: 1, fraction: Some((0, 0)) }
    );
}

#[test]
fn number_base_failures() {
    assert_eq!(
        parse_number_base("12", 2).unwrap(),
        BaseParse::Unparsed("Failed to convert \"12\" base \"2\" to number".to_string())
    );
    assert_eq!(
        parse_number_base("1.0.1", 2).unwrap(),
        BaseParse::Unparsed("Failed to convert \"1.0.1\" base \"2\" to number".to_string())
    );
    let err = parse_number_base("101", 3).unwrap_err();
    assert_eq!(err.kind, json_formula_rs::errors::JsonFormulaErrorKind::EvaluationError);
    assert_eq!(err.message, "Invalid base: \"3\" for toNumber()");
    assert_eq!(parse_number_base(".1", 2).unwrap_err().message, "Invalid base");
}

#[test]
fn glob_matches_exactly_when_some_prefix_fits() {
    let text: Vec<char> = "abcbc".chars().collect();
    assert_eq!(test_match(&text, &parse_glob("a*c")), Some(vec!['a', 'b', 'c']));
    assert_eq!(test_match(&text, &parse_glob("*b?b")), Some(vec!['a', 'b', 'c', 'b']));
    assert_eq!(test_match(&text, &parse_glob("a*d")), None);
    let xyz: Vec<char> = "xyz".chars().collect();
    assert_eq!(test_match(&xyz, &parse_glob("*z")), Some(vec!['x', 'y', 'z']));
    assert_eq!(test_match(&xyz, &parse_glob("*q")), None);
    assert_eq!(test_match(&xyz, &parse_glob("x\\*")), None);
}

#[test]
fn integers_read_in_a_base() {
    assert_eq!(read_i64_radix("42", 10), Some(42));
    assert_eq!(read_i64_radix("+7", 10), Some(7));
    assert_eq!(read_i64_radix("-9223372036854775808", 10), Some(i64::MIN));
    assert_eq!(read_i64_radix("9223372036854775807", 10), Some(i64::MAX));
    assert_eq!(read_i64_radix("9223372036854775808", 10), None);
    assert_eq!(read_i64_radix("99999999999999999999999", 10), None);
    assert_eq!(read_i64_radix("-", 10), None);
    assert_eq!(read_i64_radix("", 10), None);
    assert_eq!(read_i64_radix("ff", 16), Some(255));
    assert_eq!(read_i64_radix("1g", 16), None);
    assert_eq!(read_i64_radix("Zz", 36), Some(35 * 36 + 35));
    assert_eq!(read_i64_radix("102", 2), None);
}
