use json_formula_rs::dates::{date_part_values, decide_date, read_date_text, read_date_text_checked, DateText};

fn local(year: i64, month0: i64, day: i64, hour: i64, minute: i64, second: i64, ms: i64) -> DateText {
    DateText::Local { year, month0, day, hour, minute, second, ms }
}

#[test]
fn plain_dates_read_as_local_dates() {
    assert_eq!(read_date_text_checked("2020-01-15"), Some(local(2020, 0, 15, 0, 0, 0, 0)));
    assert_eq!(read_date_text_checked("2020-01-15T10:20:30"), Some(local(2020, 0, 15, 10, 20, 30, 0)));
    assert_eq!(read_date_text_checked("2020-12-31T23:59:59.999"), Some(local(2020, 11, 31, 23, 59, 59, 999)));
    assert_eq!(read_date_text("2021-06-01"), local(2021, 5, 1, 0, 0, 0, 0));
}

#[test]
fn compact_digit_groups_are_expanded() {
    assert_eq!(read_date_text_checked("20200115"), Some(local(2020, 0, 15, 0, 0, 0, 0)));
    assert_eq!(read_date_text_checked("20200115T102030"), Some(local(2020, 0, 15, 10, 20, 30, 0)));
}

#[test]
fn eight_byte_texts_are_cut_four_two_two() {
    assert_eq!(read_date_text_checked("2020/1/5"), Some(local(2020, 0, 5, 0, 0, 0, 0)));
}

#[test]
fn eight_bytes_cut_inside_a_character_cannot_be_read() {
    assert_eq!(read_date_text_checked("abc\u{20ac}xy"), None);
}

#[test]
fn time_zones_give_instants() {
    assert_eq!(read_date_text_checked("2020-01-15T10:20:30Z"), Some(DateText::Zoned { millis: 1579083630000 }));
    assert_eq!(read_date_text_checked("2020-01-15T10:20:30z"), Some(DateText::Zoned { millis: 1579083630000 }));
    assert_eq!(read_date_text_checked("2020-01-15T10:20:30+0100"), Some(DateText::Zoned { millis: 1579080030000 }));
    assert_eq!(read_date_text_checked("2020-01-15T10:20:30-01:00"), Some(DateText::Zoned { millis: 1579087230000 }));
}

#[test]
fn refused_date_texts() {
    assert_eq!(read_date_text_checked("abc"), Some(DateText::Refused));
    assert_eq!(read_date_text_checked(""), Some(DateText::Refused));
    assert_eq!(read_date_text_checked("2020-01"), Some(DateText::Refused));
    assert_eq!(read_date_text_checked("2020-13-01"), Some(DateText::Refused));
    assert_eq!(read_date_text_checked("2020-01-32"), Some(DateText::Refused));
    assert_eq!(read_date_text_checked("2020-01-01T24:00:00"), Some(DateText::Refused));
    assert_eq!(read_date_text_checked("1-2-3-4-5-6-7-8"), Some(DateText::Refused));
    assert_eq!(read_date_text_checked("2020-01-15T99:20:30Z"), Some(DateText::Refused));
}

#[test]
fn unreadable_year_gives_no_date() {
    assert_eq!(read_date_text_checked("\u{0662}\u{0660}\u{0662}\u{0660}-01-01-01"), Some(DateText::Unreadable));
}

#[test]
fn part_values_skip_empty_pieces() {
    let pieces = vec![
        "".to_string(),
        "2020".to_string(),
        "".to_string(),
        "05".to_string(),
        "99999999999999999999".to_string(),
    ];
    assert_eq!(date_part_values(&pieces), vec![Some(2020), Some(5), None]);
}

#[test]
fn decide_date_fills_defaults_and_checks_limits() {
    assert_eq!(decide_date(&vec![Some(2020), Some(2), Some(3), Some(4)], false, None), local(2020, 1, 3, 4, 0, 0, 0));
    assert_eq!(decide_date(&vec![Some(2020), None, None, None], false, None), local(2020, 0, 1, 0, 0, 0, 0));
    assert_eq!(decide_date(&vec![Some(2020), Some(1), None], false, None), DateText::Refused);
    assert_eq!(decide_date(&vec![Some(100000), Some(1), Some(1)], false, None), DateText::Refused);
    assert_eq!(decide_date(&vec![None, Some(1), Some(1), Some(1)], false, None), DateText::Unreadable);
    assert_eq!(decide_date(&vec![Some(2020), Some(1), Some(1)], true, Some(42)), DateText::Zoned { millis: 42 });
    assert_eq!(decide_date(&vec![Some(2020), Some(1), Some(1)], true, None), DateText::Refused);
    let eight = vec![Some(1), Some(1), Some(1), Some(1), Some(1), Some(1), Some(1), Some(1)];
    assert_eq!(decide_date(&eight, false, Some(7)), DateText::Refused);
}

#[test]
fn local_dates_stay_within_part_limits() {
    let top = vec![Some(99999), Some(12), Some(31), Some(23), Some(59), Some(59), Some(999)];
    assert_eq!(decide_date(&top, false, None), local(99999, 11, 31, 23, 59, 59, 999));
    let over = vec![Some(99999), Some(12), Some(31), Some(23), Some(59), Some(59), Some(1000)];
    assert_eq!(decide_date(&over, false, None), DateText::Refused);
    let over_minute = vec![Some(2000), Some(1), Some(1), Some(0), Some(60)];
    assert_eq!(decide_date(&over_minute, false, None), DateText::Refused);
}
