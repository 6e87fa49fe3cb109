use azs_site::text::{fmt_i32, parse_i32, push_pad2};
use azs_site::clock::{format_datetime, get_nowtime_str};

#[test]
fn fmt_i32_gives_decimal_text() {
    assert_eq!(fmt_i32(0), "0");
    assert_eq!(fmt_i32(7), "7");
    assert_eq!(fmt_i32(120), "120");
    assert_eq!(fmt_i32(-45), "-45");
    assert_eq!(fmt_i32(i32::MAX), "2147483647");
    assert_eq!(fmt_i32(i32::MIN), "-2147483648");
}

#[test]
fn parse_i32_reads_as_std_does() {
    for s in ["12", "+5", "-0", "", "-", "+", "1a", " 1", "2147483647", "2147483648", "-2147483648",
        "-2147483649", "007", "99999999999999999999"] {
        assert_eq!(parse_i32(s), s.parse::<i32>().ok(), "input {:?}", s);
    }
}

#[test]
fn parse_of_fmt_gives_the_number_back() {
    for i in [0, 1, -1, 9, 10, -10, 123456, i32::MAX, i32::MIN] {
        assert_eq!(parse_i32(&fmt_i32(i)), Some(i));
    }
}

#[test]
fn pad2_pads_to_two_digits() {
    let mut s = String::from("x");
    push_pad2(&mut s, 5);
    push_pad2(&mut s, 12);
    push_pad2(&mut s, 123);
    assert_eq!(s, "x0512123");
}

#[test]
fn format_datetime_writes_year_month_day_hour_minute() {
    assert_eq!(format_datetime(2024, 3, 7, 9, 5), "2024-03-07 09:05");
    assert_eq!(format_datetime(1999, 12, 31, 23, 59), "1999-12-31 23:59");
    assert_eq!(format_datetime(-5, 1, 1, 0, 0), "-5-01-01 00:00");
}

#[test]
fn nowtime_has_the_shape_of_a_date() {
    let s = get_nowtime_str();
    let b: Vec<char> = s.chars().collect();
    assert_eq!(b.len(), 16);
    assert_eq!(b[4], '-');
    assert_eq!(b[7], '-');
    assert_eq!(b[10], ' ');
    assert_eq!(b[13], ':');
}
