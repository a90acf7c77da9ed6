use pcomb::parser::{either, epsilon, keep_left, keep_right, next, pair, sym, BoxedParser, Parser as ParserValue};
use pcomb::result::Error;
use pcomb::Parser;

#[test]
fn it_epsilon() {
    assert_eq!(Ok(()), epsilon().parse(b"Hello world!"))
}

#[test]
fn it_next() {
    assert_eq!(Ok(b'H'), next().parse(b"Hello world"),)
}

#[test]
fn it_sym() {
    assert_eq!(
        Ok(b'H'),
        sym(b'H')
            .trace(|(res, _, _): (&u8, usize, usize)| println!("{}", *res))
            .parse(b"Hello world!")
    )
}

#[test]
fn it_seq() {
    assert_eq!(
        Ok(String::from("Hello")),
        pcomb::parser::seq(b"Hello").convert(String::from_utf8).parse(b"Hello world!"),
    )
}

#[test]
fn it_repeat() {
    assert_eq!(
        Ok(String::from("He")),
        next()
            .decide(|res: &u8| res.is_ascii_alphabetic())
            .repeat(0..)
            .collect()
            .convert(String::from_utf8)
            .parse(b"He"),
    )
}

#[test]
fn it_ops_bit_and() {
    assert_eq!(Ok((b'H', b'e')), pair(sym(b'H'), sym(b'e')).parse(b"Hello world"),)
}

#[test]
fn it_ops_bit_or() {
    assert_eq!(Ok(b'H'), either(sym(b'H'), sym(b'h')).parse(b"Hello world"),)
}

#[test]
fn it_ops_shl() {
    assert_eq!(Ok(b'H'), keep_left(sym(b'H'), sym(b'e')).parse(b"Hello world"),)
}

#[test]
fn it_ops_shr() {
    assert_eq!(Ok(b'e'), keep_right(sym(b'H'), sym(b'e')).parse(b"Hello world"),)
}

#[test]
fn it_decide() {
    let input: Vec<char> = "ni hao".chars().collect();
    let parser = next().decide(|value: &char| value.is_alphabetic() || *value == '_' || *value == '$');
    let r = parser
        .apply(&input, 0)
        .map(|(c, end)| (input[end..].iter().collect::<String>(), c));
    assert_eq!(Ok((String::from("i hao"), 'n')), r, "decide pass testing");
}

#[test]
fn it_closure() {
    let input: Vec<char> = "ni hao".chars().collect();
    let parser = pcomb::parser::closure(
        next().decide(|value: &char| value.is_alphabetic() || *value == '_' || *value == '$'),
    );
    let r = parser
        .apply(&input, 0)
        .map(|(values, end)| (input[end..].iter().collect::<String>(), values));
    assert_eq!(Ok((String::from(" hao"), vec!['n', 'i'])), r, "decide pass testing");
}

#[test]
fn sym_starts_hello() {
    assert_eq!(Ok(b'H'), sym(b'H').parse(b"Hello"));
}

#[test]
fn seq_reports_end_offset() {
    assert_eq!(Ok((b"Hello".to_vec(), 5)), pcomb::parser::seq(b"Hello").apply(b"Hello world!", 0));
}

#[test]
fn pair_on_hello() {
    assert_eq!(Ok((b'H', b'e')), pair(sym(b'H'), sym(b'e')).parse(b"Hello"));
}

#[test]
fn alternation_takes_second_on_lowercase() {
    assert_eq!(Ok(b'h'), either(sym(b'H'), sym(b'h')).parse(b"hello"));
}

#[test]
fn parse_is_deterministic() {
    let parser = pair(sym(b'a'), next()).collect();
    assert_eq!(parser.parse(b"abc"), parser.parse(b"abc"));
    let failing = sym(b'x');
    assert_eq!(failing.parse(b"abc"), failing.parse(b"abc"));
}

#[test]
fn epsilon_on_empty_input() {
    let empty: &[u8] = b"";
    assert_eq!(Ok(()), epsilon().parse(empty));
    assert_eq!(Ok(((), 0)), epsilon().apply(empty, 0));
}

#[test]
fn alternation_restarts_from_original_offset() {
    // The first alternative consumes 'a' before failing; the second still
    // sees the whole input from the original offset.
    let first = pair(sym(b'a'), sym(b'x'));
    let second = pair(sym(b'a'), sym(b'b'));
    assert_eq!(Ok(((b'a', b'b'), 2)), either(first, second).apply(b"abc", 0));
    // When the first alternative fails, the result is exactly the second's.
    assert_eq!(sym(b'y').parse(b"abc"), either(sym(b'x'), sym(b'y')).parse(b"abc"));
}

#[test]
fn repeat_zero_or_more_never_fails() {
    let digits = next().decide(|c: &u8| c.is_ascii_digit()).repeat(0..);
    assert_eq!(Ok((vec![], 0)), digits.apply(b"abc", 0));
    let empty: &[u8] = b"";
    let digits = next().decide(|c: &u8| c.is_ascii_digit()).repeat(0..);
    assert_eq!(Ok((vec![], 0)), digits.apply(empty, 0));
}

#[test]
fn repeat_one_or_more_fails_only_on_zero_matches() {
    let digits = next().decide(|c: &u8| c.is_ascii_digit()).repeat(1..);
    assert_eq!(Err(Error::Incomplete), digits.apply(b"abc", 0));
    let digits = next().decide(|c: &u8| c.is_ascii_digit()).repeat(1..);
    assert_eq!(Ok((vec![b'4', b'2'], 2)), digits.apply(b"42a", 0));
}

#[test]
fn repeat_zero_to_one_takes_at_most_one() {
    let digits = next().decide(|c: &u8| c.is_ascii_digit()).repeat(0..1);
    assert_eq!(Ok((vec![b'1'], 1)), digits.apply(b"123", 0));
}

#[test]
fn bounded_repeat_accepts_zero_matches() {
    // Zero matches are acceptable whenever the lower bound permits zero,
    // whatever the upper bound: the zero-or-one shape never fails.
    assert_eq!(Ok((vec![], 0)), sym(b'H').repeat(0..1).apply(b"hello", 0));
    assert_eq!(Ok((vec![], 0)), sym(b'H').repeat(0..5).apply(b"hello", 0));
    let digits = next().decide(|c: &u8| c.is_ascii_digit()).repeat(0..3);
    assert_eq!(Ok((vec![], 0)), digits.apply(b"abc", 0));
}

#[test]
fn bounded_repeat_needs_full_count() {
    // An exclusive upper bound of 3 admits exactly three matches; stopping
    // after at least one match short of the bound is a hard failure.
    let digits = next().decide(|c: &u8| c.is_ascii_digit()).repeat(0..3);
    assert_eq!(Ok((vec![b'1', b'2', b'3'], 3)), digits.apply(b"1234", 0));
    let digits = next().decide(|c: &u8| c.is_ascii_digit()).repeat(0..3);
    assert_eq!(Err(Error::Incomplete), digits.apply(b"12ab", 0));
}

#[test]
fn collect_returns_consumed_span() {
    let digits = next().decide(|c: &u8| c.is_ascii_digit()).repeat(0..).collect();
    assert_eq!(Ok((b"12".to_vec(), 2)), digits.apply(b"12ab", 0));
}

#[test]
fn opt_wraps_or_skips() {
    assert_eq!(Ok((Some(b'a'), 1)), sym(b'a').opt().apply(b"abc", 0));
    assert_eq!(Ok((None, 0)), sym(b'x').opt().apply(b"abc", 0));
}

#[test]
fn map_transforms_output() {
    assert_eq!(Ok(b'H' + 1), sym(b'H').map(|c: u8| c + 1).parse(b"Hello"));
}

#[test]
fn convert_failure_becomes_incomplete() {
    let parser = pcomb::parser::seq(&[0xffu8]).convert(String::from_utf8);
    assert_eq!(Err(Error::Incomplete), parser.parse(&[0xffu8, 0x01]));
}

#[test]
fn decide_rejects_matched_output() {
    assert_eq!(Err(Error::Incomplete), next().decide(|c: &u8| *c == b'x').parse(b"abc"));
}

#[test]
fn mismatch_gives_incomplete() {
    assert_eq!(Err(Error::Incomplete), sym(b'x').parse(b"abc"));
    let empty: &[u8] = b"";
    assert_eq!(Err(Error::Incomplete), next().parse(empty));
    assert_eq!(Err(Error::Incomplete), pcomb::parser::seq(b"abd").parse(b"abc"));
}

#[test]
fn wrapped_and_boxed_parsers_delegate() {
    let wrapped = ParserValue::new(sym(b'H'));
    assert_eq!(Ok(b'H'), wrapped.parse(b"Hello"));
    let combined = ParserValue::comb(|| ParserValue::new(pair(sym(b'H'), sym(b'e'))));
    assert_eq!(Ok((b'H', b'e')), combined.parse(b"Hello"));
    let boxed = BoxedParser::new(sym(b'H'));
    assert_eq!(Ok(b'H'), boxed.parse(b"Hello"));
}

#[test]
fn error_variants_carry_diagnostics() {
    let failure = sym(b'0').parse(b"abc").unwrap_err();
    assert_eq!(Error::Incomplete, failure);
    let expect = Error::Expect {
        message: String::from("digit"),
        position: 0,
        inner: Box::new(failure),
    };
    assert!(matches!(&expect, Error::Expect { position: 0, .. }));
    let custom = Error::Custom {
        message: String::from("bad number"),
        position: 2,
        inner: Some(Box::new(expect)),
    };
    assert!(matches!(&custom, Error::Custom { position: 2, inner: Some(_), .. }));
}

#[test]
fn number_grammar_accepts_integer_prefix() {
    // A number is a non-zero digit followed by digits, or a bare zero, with
    // an optional fraction; collected as the matched text.
    let not_zero = next().decide(|c: &u8| c.is_ascii_digit() && *c != b'0');
    let digits = next().decide(|c: &u8| c.is_ascii_digit()).repeat(0..);
    let integer = either(keep_left(not_zero, digits), sym(b'0'));
    let frac = keep_right(sym(b'.'), next().decide(|c: &u8| c.is_ascii_digit()).repeat(1..));
    let number = pair(integer, frac.opt()).collect().convert(String::from_utf8);
    let (text, end) = number.apply(b"22134HD", 0).unwrap();
    assert_eq!("22134", text);
    assert_eq!(5, end);
    assert_eq!(22134.0, text.parse::<f64>().unwrap());
}

#[test]
fn number_grammar_stops_at_leading_zero() {
    let not_zero = next().decide(|c: &u8| c.is_ascii_digit() && *c != b'0');
    let digits = next().decide(|c: &u8| c.is_ascii_digit()).repeat(0..);
    let integer = either(keep_left(not_zero, digits), sym(b'0'));
    let frac = keep_right(sym(b'.'), next().decide(|c: &u8| c.is_ascii_digit()).repeat(1..));
    let number = pair(integer, frac.opt()).collect().convert(String::from_utf8);
    let (text, end) = number.apply(b"0123", 0).unwrap();
    assert_eq!("0", text);
    assert_eq!(1, end);
}

#[test]
fn number_grammar_reads_fraction() {
    let not_zero = next().decide(|c: &u8| c.is_ascii_digit() && *c != b'0');
    let digits = next().decide(|c: &u8| c.is_ascii_digit()).repeat(0..);
    let integer = either(keep_left(not_zero, digits), sym(b'0'));
    let frac = keep_right(sym(b'.'), next().decide(|c: &u8| c.is_ascii_digit()).repeat(1..));
    let number = pair(integer, frac.opt()).collect().convert(String::from_utf8);
    let (text, end) = number.apply(b"2.7+3", 0).unwrap();
    assert_eq!("2.7", text);
    assert_eq!(3, end);
    assert_eq!(2.7, text.parse::<f64>().unwrap());
}

#[test]
fn and_then_chains_on_the_first_output() {
    // Matches a character that appears twice in a row: the continuation
    // builds the second parser from the first one's output.
    let doubled = pcomb::parser::and_then(next(), |c: u8| sym(c));
    assert_eq!(Ok(b'a'), doubled.parse(b"aab"));
    let doubled = pcomb::parser::and_then(next(), |c: u8| sym(c));
    assert_eq!(Err(Error::Incomplete), doubled.parse(b"abc"));
}
