use botscript::number::{format_int, parse_int};

fn parse(s: &str) -> Option<i32> {
    let chars: Vec<char> = s.chars().collect();
    parse_int(&chars)
}

#[test]
fn digits_are_read() {
    assert_eq!(parse("0"), Some(0));
    assert_eq!(parse("7"), Some(7));
    assert_eq!(parse("10"), Some(10));
    assert_eq!(parse("500"), Some(500));
    assert_eq!(parse("1234567890"), Some(1234567890));
}

#[test]
fn a_sign_may_lead() {
    assert_eq!(parse("-90"), Some(-90));
    assert_eq!(parse("+90"), Some(90));
    assert_eq!(parse("-0"), Some(0));
    assert_eq!(parse("+0"), Some(0));
}

#[test]
fn leading_zeros_do_not_count() {
    assert_eq!(parse("007"), Some(7));
    assert_eq!(parse("-007"), Some(-7));
    assert_eq!(parse("00000000000000000000000000000012"), Some(12));
}

#[test]
fn the_range_is_that_of_32_bits() {
    assert_eq!(parse("2147483647"), Some(i32::MAX));
    assert_eq!(parse("+2147483647"), Some(i32::MAX));
    assert_eq!(parse("-2147483648"), Some(i32::MIN));
    assert_eq!(parse("2147483648"), None);
    assert_eq!(parse("-2147483649"), None);
    assert_eq!(parse("+2147483648"), None);
    assert_eq!(parse("21474836470"), None);
    assert_eq!(parse("99999999999999999999999999"), None);
    assert_eq!(parse("-99999999999999999999999999"), None);
}

#[test]
fn no_digits_is_no_number() {
    assert_eq!(parse(""), None);
    assert_eq!(parse("+"), None);
    assert_eq!(parse("-"), None);
}

#[test]
fn other_characters_are_refused() {
    assert_eq!(parse("abc"), None);
    assert_eq!(parse("12a"), None);
    assert_eq!(parse("a12"), None);
    assert_eq!(parse("1.5"), None);
    assert_eq!(parse("0x10"), None);
    assert_eq!(parse("1_000"), None);
    assert_eq!(parse("1e3"), None);
    assert_eq!(parse("--5"), None);
    assert_eq!(parse("+-5"), None);
    assert_eq!(parse("5-"), None);
    assert_eq!(parse("- 5"), None);
    assert_eq!(parse(" 5"), None);
    assert_eq!(parse("5 "), None);
    assert_eq!(parse("\u{FF15}"), None);
    assert_eq!(parse("\u{0665}"), None);
    assert_eq!(parse("99999999999999999999x"), None);
}

#[test]
fn reading_is_that_of_std() {
    let samples = [
        "", "+", "-", "0", "-0", "+0", "1", "-1", "+1", "42", "0042", "2147483647", "2147483648",
        "-2147483648", "-2147483649", "4294967296", "12345678901234567890", "1.0", "1,0", "ten",
        " 1", "1 ", "+-1", "-+1", "++1", "1+", "0x1F", "\u{0661}", "1\u{0}", "/", ":", "9:",
    ];
    for sample in samples {
        assert_eq!(parse(sample), sample.parse::<i32>().ok(), "{:?}", sample);
    }
}

#[test]
fn numbers_are_written_in_decimal() {
    assert_eq!(format_int(0), "0");
    assert_eq!(format_int(5), "5");
    assert_eq!(format_int(10), "10");
    assert_eq!(format_int(90), "90");
    assert_eq!(format_int(500), "500");
    assert_eq!(format_int(-1), "-1");
    assert_eq!(format_int(-90), "-90");
    assert_eq!(format_int(1000000), "1000000");
    assert_eq!(format_int(i32::MAX), "2147483647");
    assert_eq!(format_int(i32::MIN), "-2147483648");
}

#[test]
fn writing_is_that_of_std() {
    let mut n: i32 = i32::MIN;
    loop {
        assert_eq!(format_int(n), n.to_string());
        match n.checked_add(9_999_991) {
            Some(next) => n = next,
            None => break,
        }
    }
    for n in -1100..=1100 {
        assert_eq!(format_int(n), n.to_string());
    }
}

#[test]
fn reading_what_was_written_gives_the_number_back() {
    for n in [0, 1, -1, 9, 10, -10, 99, 100, 12345, -54321, i32::MAX, i32::MIN] {
        assert_eq!(parse(&format_int(n)), Some(n));
    }
}
