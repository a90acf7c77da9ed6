use pcomb::text::{
    identifier, is_identifier_char, match_float, match_integer, match_literal, match_number,
    next_char,
};

#[test]
fn it_match_literal() {
    let parser = match_literal("ni");
    assert_eq!(Ok((" hao", ())), parser.parse("ni hao"), "match_literal pass testing");
}

#[test]
fn it_identifier() {
    assert_eq!(Ok((" world!", String::from("Hello"))), identifier("Hello world!"),)
}

#[test]
fn it_integer_number() {
    assert_eq!(Ok(("+3", String::from("2"))), match_number("2+3"),)
}

#[test]
fn it_float_number() {
    assert_eq!(Ok(("+3", String::from("2.7"))), match_number("2.7+3"),)
}

#[test]
fn match_literal_rejects_other_text() {
    let parser = match_literal("ni");
    assert_eq!(Err("na hao"), parser.parse("na hao"));
    assert_eq!(Err("n"), parser.parse("n"));
}

#[test]
fn next_char_takes_first_character() {
    assert_eq!(Ok(("i hao", 'n')), next_char("ni hao"));
    assert_eq!(Err(""), next_char(""));
}

#[test]
fn identifier_needs_a_leading_non_digit() {
    assert_eq!(Err("1abc"), identifier("1abc"));
    assert_eq!(Err(""), identifier(""));
    assert_eq!(Err(" abc"), identifier(" abc"));
    assert_eq!(Ok((" rest", String::from("$a_1"))), identifier("$a_1 rest"));
}

#[test]
fn identifier_characters() {
    assert!(is_identifier_char('a'));
    assert!(is_identifier_char('Z'));
    assert!(is_identifier_char('0'));
    assert!(is_identifier_char('$'));
    assert!(is_identifier_char('_'));
    assert!(!is_identifier_char(' '));
    assert!(!is_identifier_char('.'));
}

#[test]
fn integer_run_may_be_empty() {
    assert_eq!(Ok(("abc", String::new())), match_integer("abc"));
    assert_eq!(Ok(("", String::from("907"))), match_integer("907"));
}

#[test]
fn float_needs_a_dot() {
    assert_eq!(Err("27"), match_float("27"));
    assert_eq!(Ok(("", String::from("2."))), match_float("2."));
    assert_eq!(Ok(("x", String::from(".5"))), match_float(".5x"));
}

#[test]
fn number_prefers_float() {
    assert_eq!(Ok(("", String::from("2.7"))), match_number("2.7"));
    assert_eq!(Ok(("x", String::from("42"))), match_number("42x"));
    assert_eq!(Ok(("abc", String::new())), match_number("abc"));
}
