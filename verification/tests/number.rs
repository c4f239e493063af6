use string_calculator::number;

fn chars(s: &str) -> Vec<char> {
    s.chars().collect()
}

fn written(n: i32) -> String {
    let mut out = String::new();
    number::append_decimal(&mut out, n);
    out
}

#[test]
fn test_parse() {
    assert_eq!(number::parse(&chars("0")), Some(0));
    assert_eq!(number::parse(&chars("42")), Some(42));
    assert_eq!(number::parse(&chars("-42")), Some(-42));
    assert_eq!(number::parse(&chars("+42")), Some(42));
    assert_eq!(number::parse(&chars("-0")), Some(0));
    assert_eq!(number::parse(&chars("0042")), Some(42));
    assert_eq!(number::parse(&chars("2147483647")), Some(i32::MAX));
    assert_eq!(number::parse(&chars("-2147483648")), Some(i32::MIN));
    assert_eq!(number::parse(&chars("00000000000000000000001")), Some(1));
}

#[test]
fn test_parse_refuses() {
    for s in ["", "+", "-", "x", "1x", "x1", " 1", "1 ", "1.0", "--1", "+-1", "-+1", "1-",
        "2147483648", "-2147483649", "99999999999999999999", "-99999999999999999999",
        "\u{661}", "1_000", "0x10", "1e3"]
    {
        assert_eq!(number::parse(&chars(s)), None);
    }
}

#[test]
fn test_parse_as_std_does() {
    for s in ["", "+", "-", "0", "-0", "+0", "7", "+7", "-7", "1000", "1001", "007", "12a",
        "a12", "2147483646", "2147483647", "2147483648", "2147483649", "-2147483647",
        "-2147483648", "-2147483649", "21474836470", "4294967296", "4294967297",
        "18446744073709551616", "-18446744073709551617", "++1", "\u{ff11}", " 1", "\u{663}"]
    {
        assert_eq!(number::parse(&chars(s)), s.parse::<i32>().ok());
    }
}

#[test]
fn test_append_decimal() {
    assert_eq!(written(0), "0");
    assert_eq!(written(7), "7");
    assert_eq!(written(10), "10");
    assert_eq!(written(-1), "-1");
    assert_eq!(written(1000), "1000");
    assert_eq!(written(-1203), "-1203");
    assert_eq!(written(i32::MAX), "2147483647");
    assert_eq!(written(i32::MIN), "-2147483648");
}

#[test]
fn test_append_decimal_keeps_what_was_there() {
    let mut out = String::from("n = ");
    number::append_decimal(&mut out, -30);
    number::append_decimal(&mut out, 4);
    assert_eq!(out, "n = -304");
}

#[test]
fn test_written_numbers_parse_back() {
    for n in [0, 1, -1, 9, 10, 99, 100, 1000, 1001, -1000, 123456789, i32::MAX, i32::MIN] {
        assert_eq!(written(n), format!("{}", n));
        assert_eq!(number::parse(&chars(&written(n))), Some(n));
    }
}
