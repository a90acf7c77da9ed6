use pcomb::number::number;
use pcomb::result::Error;

#[test]
fn number_reads_integer_prefix() {
    let (text, end) = number(b"22134HD").unwrap();
    assert_eq!(b"22134".to_vec(), text);
    assert_eq!(5, end);
    assert_eq!(22134.0, String::from_utf8(text).unwrap().parse::<f64>().unwrap());
}

#[test]
fn number_takes_bare_zero_on_leading_zero() {
    // The integer part is a non-zero digit followed by digits, or a bare
    // zero; on a leading zero only the zero itself is consumed.
    assert_eq!(Ok((b"0".to_vec(), 1)), number(b"0123"));
}

#[test]
fn number_reads_fraction() {
    let (text, end) = number(b"2.7+3").unwrap();
    assert_eq!(b"2.7".to_vec(), text);
    assert_eq!(3, end);
    assert_eq!(2.7, String::from_utf8(text).unwrap().parse::<f64>().unwrap());
}

#[test]
fn number_leaves_a_bare_dot() {
    assert_eq!(Ok((b"2".to_vec(), 1)), number(b"2.x"));
    assert_eq!(Ok((b"2".to_vec(), 1)), number(b"2."));
}

#[test]
fn number_needs_a_leading_digit() {
    assert_eq!(Err(Error::Incomplete), number(b"abc"));
    let empty: &[u8] = b"";
    assert_eq!(Err(Error::Incomplete), number(empty));
    assert_eq!(Err(Error::Incomplete), number(b".5"));
}
