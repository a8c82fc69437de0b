use currency_converter::{
    join_words, parse_amount, parse_command, split_words, ParseError, Quantity,
};

#[test]
fn parses_simple_command() {
    let (q, from, to) = parse_command("20 USD to KZT").unwrap();
    assert_eq!(q, Quantity { num: 20, den: 1 });
    assert_eq!(q.num as f64 / q.den as f64, 20.0);
    assert_eq!(from, "USD");
    assert_eq!(to, "KZT");
}

#[test]
fn parses_multi_word_phrases() {
    let (q, from, to) = parse_command("15 US Dollar to Japanese Yen").unwrap();
    assert_eq!(q.num as f64 / q.den as f64, 15.0);
    assert_eq!(from, "US Dollar");
    assert_eq!(to, "Japanese Yen");
}

#[test]
fn extra_spaces_collapse_in_phrases() {
    let (q, from, to) = parse_command("  2.5\tUS   Dollar TO  British \u{a0} Pound  ").unwrap();
    assert_eq!(q, Quantity { num: 25, den: 10 });
    assert_eq!(from, "US Dollar");
    assert_eq!(to, "British Pound");
}

#[test]
fn first_separator_is_used() {
    let (_, from, to) = parse_command("1 a to b to c").unwrap();
    assert_eq!(from, "a");
    assert_eq!(to, "b to c");
}

#[test]
fn bad_amount_is_invalid() {
    assert_eq!(parse_command("abc USD to KZT"), Err(ParseError::InvalidAmount));
    assert_eq!(parse_command("1.2.3 USD to KZT"), Err(ParseError::InvalidAmount));
}

#[test]
fn missing_separator_is_malformed() {
    assert_eq!(parse_command("20 USD KZT"), Err(ParseError::MalformedCommand));
    assert_eq!(parse_command("20 USD KZT EUR"), Err(ParseError::MalformedCommand));
}

#[test]
fn misplaced_separator_is_malformed() {
    assert_eq!(parse_command("20 to USD KZT"), Err(ParseError::MalformedCommand));
    assert_eq!(parse_command("20 USD KZT to"), Err(ParseError::MalformedCommand));
    assert_eq!(parse_command("20 to to KZT"), Err(ParseError::MalformedCommand));
}

#[test]
fn short_commands_are_malformed() {
    assert_eq!(parse_command(""), Err(ParseError::MalformedCommand));
    assert_eq!(parse_command("20 USD to"), Err(ParseError::MalformedCommand));
    assert_eq!(parse_command("abc"), Err(ParseError::MalformedCommand));
}

#[test]
fn amounts() {
    assert_eq!(parse_amount("20"), Some(Quantity { num: 20, den: 1 }));
    assert_eq!(parse_amount("-3.5"), Some(Quantity { num: -35, den: 10 }));
    assert_eq!(parse_amount("+0.25"), Some(Quantity { num: 25, den: 100 }));
    assert_eq!(parse_amount(".5"), Some(Quantity { num: 5, den: 10 }));
    assert_eq!(parse_amount("5."), Some(Quantity { num: 5, den: 1 }));
    assert_eq!(parse_amount("0"), Some(Quantity { num: 0, den: 1 }));
    assert_eq!(parse_amount(""), None);
    assert_eq!(parse_amount("."), None);
    assert_eq!(parse_amount("-"), None);
    assert_eq!(parse_amount("+."), None);
    assert_eq!(parse_amount("1e5"), None);
    assert_eq!(parse_amount("--1"), None);
    assert_eq!(parse_amount("1,5"), None);
}

#[test]
fn digit_limit() {
    let most = "9".repeat(38);
    assert_eq!(
        parse_amount(&most),
        Some(Quantity { num: 99999999999999999999999999999999999999, den: 1 })
    );
    let small = format!(".{}", "0".repeat(37) + "1");
    assert_eq!(
        parse_amount(&small),
        Some(Quantity { num: 1, den: 100000000000000000000000000000000000000 })
    );
    assert_eq!(parse_amount(&"9".repeat(39)), None);
    assert_eq!(parse_amount(&format!("1.{}", "0".repeat(38))), None);
    assert_eq!(parse_amount(&format!("0.{}", "0".repeat(37) + "1")), None);
}

#[test]
fn words_split_on_unicode_space() {
    let ws = split_words(" a\u{3000}bc  d\n");
    assert_eq!(ws, vec!["a".to_string(), "bc".to_string(), "d".to_string()]);
    assert!(split_words("   ").is_empty());
    assert_eq!(join_words(&ws, 0, 3), "a bc d");
    assert_eq!(join_words(&ws, 1, 1), "");
}
