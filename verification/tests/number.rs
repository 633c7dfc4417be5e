use http_core::number::{parse_u64, parse_usize, push_decimal};

fn digits(s: &str) -> Vec<char> {
    s.chars().collect()
}

#[test]
fn parse_usize_reads_decimal_numbers() {
    assert_eq!(parse_usize(&digits("0")), Some(0));
    assert_eq!(parse_usize(&digits("42")), Some(42));
    assert_eq!(parse_usize(&digits("+7")), Some(7));
    assert_eq!(parse_usize(&digits("007")), Some(7));
    assert_eq!(parse_usize(&digits("1234567890")), Some(1234567890));
}

#[test]
fn parse_usize_refuses_what_is_no_number() {
    assert_eq!(parse_usize(&digits("")), None);
    assert_eq!(parse_usize(&digits("+")), None);
    assert_eq!(parse_usize(&digits("-1")), None);
    assert_eq!(parse_usize(&digits("12a")), None);
    assert_eq!(parse_usize(&digits(" 12")), None);
    assert_eq!(parse_usize(&digits("12 ")), None);
    assert_eq!(parse_usize(&digits("1_000")), None);
    assert_eq!(parse_usize(&digits("++1")), None);
    assert_eq!(parse_usize(&digits("\u{663}")), None);
}

#[test]
fn parse_usize_stops_at_the_largest_number() {
    let max = usize::MAX.to_string();
    assert_eq!(parse_usize(&digits(&max)), Some(usize::MAX));
    let mut beyond = digits(&max);
    let last = beyond.len() - 1;
    beyond[last] = char::from_digit(beyond[last].to_digit(10).unwrap() + 1, 10).unwrap();
    assert_eq!(parse_usize(&beyond), None);
    assert_eq!(parse_usize(&digits("99999999999999999999999999999999")), None);
    for text in ["5", "+5", "18446744073709551615", "18446744073709551616", "x", ""] {
        assert_eq!(parse_usize(&digits(text)), text.parse::<usize>().ok());
    }
}

#[test]
fn parse_u64_reads_as_the_standard_library_does() {
    for text in ["0", "5", "+5", "18446744073709551615", "18446744073709551616", "-3", "x", "", "1.5"] {
        assert_eq!(parse_u64(&digits(text)), text.parse::<u64>().ok());
    }
}

#[test]
fn push_decimal_writes_the_digits_after_what_is_there() {
    for n in [0usize, 1, 9, 10, 11, 99, 100, 101, 12345, usize::MAX] {
        let mut text = String::from("n=");
        push_decimal(&mut text, n);
        assert_eq!(text, format!("n={}", n));
    }
}

#[test]
fn what_is_written_reads_back() {
    for n in [0usize, 7, 10, 4221, usize::MAX] {
        let mut text = String::new();
        push_decimal(&mut text, n);
        assert_eq!(parse_usize(&digits(&text)), Some(n));
    }
}
