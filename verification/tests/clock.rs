use colorcycle::clock::{day_seconds, parse_number, parse_time};

#[test]
fn day_seconds_counts_hours_minutes_and_seconds() {
    assert_eq!(day_seconds(0, 0, 0), 0);
    assert_eq!(day_seconds(1, 1, 1), 3661);
    assert_eq!(day_seconds(12, 30, 0), 45000);
    assert_eq!(day_seconds(23, 59, 59), 86399);
}

#[test]
fn day_seconds_wraps_at_midnight() {
    assert_eq!(day_seconds(24, 0, 0), 0);
    assert_eq!(day_seconds(25, 0, 5), 3605);
    assert_eq!(day_seconds(0, 1441, 0), 60);
    assert_eq!(day_seconds(0, 0, 86400 + 7), 7);
}

#[test]
fn day_seconds_is_exact_for_the_largest_numbers() {
    let m = usize::MAX as u128;
    let expected = (m * 3600 + m * 60 + m) % 86400;
    assert_eq!(day_seconds(usize::MAX, usize::MAX, usize::MAX) as u128, expected);
}

#[test]
fn parse_time_reads_hours_and_minutes() {
    assert_eq!(parse_time("12:30"), Some(45000));
    assert_eq!(parse_time("00:00"), Some(0));
    assert_eq!(parse_time("0:1"), Some(60));
    assert_eq!(parse_time("23:59"), Some(86340));
    assert_eq!(parse_time("007:05"), Some(25500));
}

#[test]
fn parse_time_counts_modulo_the_day() {
    assert_eq!(parse_time("24:00"), Some(0));
    assert_eq!(parse_time("25:10"), Some(4200));
    assert_eq!(parse_time("0:1500"), Some(3600));
}

#[test]
fn parse_time_takes_a_plus_sign() {
    assert_eq!(parse_time("+1:+2"), Some(3720));
    assert_eq!(parse_time("+:2"), None);
    assert_eq!(parse_time("++1:2"), None);
    assert_eq!(parse_time("1+:2"), None);
}

#[test]
fn parse_time_refuses_other_forms() {
    assert_eq!(parse_time(""), None);
    assert_eq!(parse_time(":"), None);
    assert_eq!(parse_time("12"), None);
    assert_eq!(parse_time("12:"), None);
    assert_eq!(parse_time(":30"), None);
    assert_eq!(parse_time("12:30:00"), None);
    assert_eq!(parse_time("1::2"), None);
    assert_eq!(parse_time("a:30"), None);
    assert_eq!(parse_time("12:3o"), None);
    assert_eq!(parse_time(" 12:30"), None);
    assert_eq!(parse_time("12:30 "), None);
    assert_eq!(parse_time("-1:30"), None);
    assert_eq!(parse_time("12.30"), None);
    assert_eq!(parse_time("\u{661}\u{662}:30"), None);
}

#[test]
fn parse_time_refuses_numbers_beyond_the_machine() {
    let max = usize::MAX.to_string();
    let hours = (usize::MAX as u128) * 3600 % 86400;
    assert_eq!(parse_time(&format!("{}:0", max)), Some(hours as usize));
    assert_eq!(parse_time(&format!("0:{}", max)), Some(((usize::MAX as u128) * 60 % 86400) as usize));
    assert_eq!(parse_time(&format!("{}0:0", max)), None);
    assert_eq!(parse_time("99999999999999999999999999999999:0"), None);
    let next = (usize::MAX as u128 + 1).to_string();
    assert_eq!(parse_time(&format!("{}:0", next)), None);
    assert_eq!(parse_time(&format!("000000000000000000000000000000{}:0", max)), Some(hours as usize));
}

#[test]
fn parse_time_agrees_with_the_standard_number_parser() {
    for text in ["5", "+5", "05", "", "+", "-5", "5 ", "18446744073709551615", "18446744073709551616", "x"] {
        let ours = parse_time(&format!("{}:0", text));
        let theirs = text.parse::<usize>().ok().map(|h| ((h as u128) * 3600 % 86400) as usize);
        assert_eq!(ours, theirs);
    }
}

#[test]
fn parse_number_reads_decimal_digits() {
    assert_eq!(parse_number("0"), Some(0));
    assert_eq!(parse_number("43200"), Some(43200));
    assert_eq!(parse_number("+86399"), Some(86399));
    assert_eq!(parse_number("00012"), Some(12));
    assert_eq!(parse_number(&usize::MAX.to_string()), Some(usize::MAX));
}

#[test]
fn parse_number_refuses_what_is_no_number() {
    for text in ["", "+", "-1", "1 ", " 1", "1:2", "12a", "0x10", "1.5", "18446744073709551616"] {
        assert_eq!(parse_number(text), text.parse::<usize>().ok());
    }
    assert_eq!(parse_number(""), None);
    assert_eq!(parse_number("12a"), None);
}
