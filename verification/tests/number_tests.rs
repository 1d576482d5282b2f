use hourly_brief::number::{group_thousands, i64_text, parse_unsigned_text, u64_text};

#[test]
fn reads_unsigned_integers() {
    assert_eq!(parse_unsigned_text("12", u64::MAX), Some(12));
    assert_eq!(parse_unsigned_text("+12", u64::MAX), Some(12));
    assert_eq!(parse_unsigned_text("007", u64::MAX), Some(7));
    assert_eq!(parse_unsigned_text("", u64::MAX), None);
    assert_eq!(parse_unsigned_text("+", u64::MAX), None);
    assert_eq!(parse_unsigned_text("-1", u64::MAX), None);
    assert_eq!(parse_unsigned_text(" 1", u64::MAX), None);
    assert_eq!(parse_unsigned_text("1_000", u64::MAX), None);
    assert_eq!(parse_unsigned_text("1.5", u64::MAX), None);
    assert_eq!(parse_unsigned_text("18446744073709551615", u64::MAX), Some(u64::MAX));
    assert_eq!(parse_unsigned_text("18446744073709551616", u64::MAX), None);
    assert_eq!(parse_unsigned_text("300", 255), None);
    assert_eq!(parse_unsigned_text("255", 255), Some(255));
}

#[test]
fn reads_like_std_parse() {
    for s in ["0", "42", "+42", "-0", "", "abc", "99999999999999999999", "4294967296", "1e3"] {
        assert_eq!(parse_unsigned_text(s, u64::MAX), s.parse::<u64>().ok(), "{s}");
        assert_eq!(parse_unsigned_text(s, u32::MAX as u64), s.parse::<u32>().ok().map(|v| v as u64), "{s}");
    }
}

#[test]
fn writes_integers() {
    assert_eq!(u64_text(0), "0");
    assert_eq!(u64_text(1234567890), "1234567890");
    assert_eq!(u64_text(u64::MAX), u64::MAX.to_string());
    assert_eq!(i64_text(-2024), "-2024");
    assert_eq!(i64_text(2024), "2024");
    assert_eq!(i64_text(i64::MIN), i64::MIN.to_string());
}

#[test]
fn groups_thousands() {
    assert_eq!(group_thousands("1234567"), "1,234,567");
    assert_eq!(group_thousands("123456"), "123,456");
    assert_eq!(group_thousands("1000"), "1,000");
    assert_eq!(group_thousands("999"), "999");
    assert_eq!(group_thousands("-1234.5"), "-1,234.5");
    assert_eq!(group_thousands("-12"), "-12");
    assert_eq!(group_thousands("12345.678"), "12,345.678");
    assert_eq!(group_thousands("0.5"), "0.5");
    assert_eq!(group_thousands(""), "");
    assert_eq!(group_thousands("inf"), "inf");
    assert_eq!(group_thousands("1.2.3"), "1.2.3");
}

#[test]
fn groups_formatted_floats() {
    for (x, dec, expected) in [
        (9876543.21f64, 0usize, "9,876,543"),
        (9876543.21, 1, "9,876,543.2"),
        (-1500.0, 0, "-1,500"),
        (0.0, 1, "0.0"),
    ] {
        assert_eq!(group_thousands(&format!("{:.*}", dec, x)), expected);
    }
}

#[test]
fn integer_digits_come_in_threes() {
    for x in [0.0f64, 7.0, 42.5, 999.0, 1000.0, 65536.25, -123456.0, 1234567890.0] {
        for dec in [0usize, 2] {
            let plain = format!("{:.*}", dec, x);
            let grouped = group_thousands(&plain);
            assert_eq!(grouped.replace(',', ""), plain);
            let body = grouped.strip_prefix('-').unwrap_or(&grouped);
            let int_part = body.split('.').next().unwrap();
            let groups: Vec<&str> = int_part.split(',').collect();
            assert!((1..=3).contains(&groups[0].len()));
            assert!(groups[1..].iter().all(|g| g.len() == 3));
            assert!(groups.iter().all(|g| g.chars().all(|c| c.is_ascii_digit())));
        }
    }
}
