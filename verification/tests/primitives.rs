use nom::Input;
use nom::Parser;
use xschem_parser::error::Rejection;
use xschem_parser::grammar::{ByteClass, Quoting};
use xschem_parser::parse::{
    count, escaped0, float_shape, layer, multispace0, multispace1, property_string, scan, space1,
};
use xschem_parser::span::Span;
use xschem_parser::token::{Flip, Rotation};

fn span(text: &str) -> Span<'_> {
    Span::new(text.as_bytes())
}

fn text<'a>(s: Span<'a>) -> &'a str {
    std::str::from_utf8(s.fragment()).unwrap()
}

type Plain<'a> = (&'a str, nom::error::ErrorKind);

/// What is left after a parser of nom, or where it stopped and whether it
/// had committed itself.
fn outcome_of_nom<'a, T>(r: nom::IResult<&'a str, T, Plain<'a>>) -> Result<&'a str, (&'a str, bool)> {
    match r {
        Ok((rest, _)) => Ok(rest),
        Err(nom::Err::Error((at, _))) => Err((at, false)),
        Err(nom::Err::Failure((at, _))) => Err((at, true)),
        Err(nom::Err::Incomplete(_)) => unreachable!(),
    }
}

/// What is left after a parser of this library, or where it stopped and
/// whether it had committed itself.
fn outcome<'a, T>(r: Result<(Span<'a>, T), Rejection<'a>>) -> Result<&'a str, (&'a str, bool)> {
    match r {
        Ok((rest, _)) => Ok(text(rest)),
        Err(Rejection::Error(e)) => Err((text(e.err.input), false)),
        Err(Rejection::Failure(e)) => Err((text(e.err.input), true)),
    }
}

#[test]
fn shape_of_numbers_is_that_of_nom() {
    for input in [
        "0", "12", "-12", "+12", "1.", "1.5", ".5", "-.5", ".", "-", "+", "", "x", "1e5", "1E5",
        "1e+5", "1e-5", "1e", "1e+", "1ex", "1.e3", ".e3", "1.5e10rest", "12 34", "1..2", "--1",
        "1e5e6", "123K-01", "11e-1", "0x10", "-x", "1.5.6", "e5", "1 e5", "١", "1e٣",
    ] {
        let ours = outcome(float_shape(span(input)));
        let theirs = outcome_of_nom(nom::number::complete::recognize_float::<&str, Plain>(input));
        assert_eq!(ours, theirs, "{input:?}");
    }
}

#[test]
fn unsigned_numbers_are_those_of_nom() {
    for input in [
        "0", "00", "0 1", "7", "007", "42 ", "18446744073709551615", "18446744073709551616",
        "99999999999999999999999", "", "x", "-1", "+1", "1x", " 1", "4294967295", "4294967296",
    ] {
        let ours = layer(span(input)).map(|(rest, n)| (text(rest), n)).map_err(|_| ());
        let theirs = nom::character::complete::u64::<&str, Plain>(input).map_err(|_| ());
        assert_eq!(ours, theirs, "{input:?}");
        // The number of points is a number that is not 0.
        let ours = count(span(input)).map(|(rest, n)| (text(rest), n)).map_err(|_| ());
        let theirs = nom::combinator::verify(
            nom::character::complete::usize::<&str, Plain>,
            |n: &usize| *n >= 1,
        )
        .parse(input)
        .map_err(|_| ());
        assert_eq!(ours, theirs, "{input:?}");
        assert_eq!(
            outcome(layer(span(input))),
            outcome_of_nom(nom::character::complete::u64::<&str, Plain>(input))
        );
    }
}

#[test]
fn whitespace_is_that_of_nom() {
    for input in ["", " ", "\t", "\n", "\r", " \t\r\n x", "x ", "\u{a0}x", "\u{b}x", "  \n\tN"] {
        assert_eq!(
            text(multispace0(span(input))),
            nom::character::complete::multispace0::<&str, Plain>(input).unwrap().0
        );
        assert_eq!(
            outcome(multispace1(span(input))),
            outcome_of_nom(nom::character::complete::multispace1::<&str, Plain>(input))
        );
        assert_eq!(
            outcome(space1(span(input))),
            outcome_of_nom(nom::character::complete::space1::<&str, Plain>(input))
        );
    }
}

#[test]
fn classes_of_bytes() {
    let members = |class: ByteClass| -> Vec<u8> { (0..=255u8).filter(|b| class.contains(*b)).collect() };
    assert_eq!(members(ByteClass::Space), vec![b'\t', b' ']);
    assert_eq!(members(ByteClass::MultiSpace), vec![b'\t', b'\n', b'\r', b' ']);
    assert_eq!(members(ByteClass::Digit), (b'0'..=b'9').collect::<Vec<u8>>());
    let key: Vec<u8> = (0..=255u8).filter(|b| b.is_ascii_alphanumeric() || *b == b'_').collect();
    assert_eq!(members(ByteClass::Key), key);
    let not_key: Vec<u8> =
        (0..=255u8).filter(|b| !(b.is_ascii_alphanumeric() || *b == b'_')).collect();
    assert_eq!(members(ByteClass::NotKey), not_key);
    let value: Vec<u8> =
        (0..=255u8).filter(|b| b.is_ascii_alphanumeric() || b.is_ascii_punctuation()).collect();
    assert_eq!(members(ByteClass::Value), value);
    assert_eq!(scan(span("abc_1 d"), ByteClass::Key), 5);
    assert_eq!(scan(span(""), ByteClass::Key), 0);
    assert_eq!(scan(span("   "), ByteClass::Space), 3);
}

/// What is left and what was found, or where scanning stopped.
fn scanned<'a>(r: Result<(Span<'a>, Span<'a>), Rejection<'a>>) -> Result<(&'a str, &'a str), &'a str> {
    match r {
        Ok((rest, found)) => Ok((text(rest), text(found))),
        Err(Rejection::Error(e)) => Err(text(e.err.input)),
        Err(Rejection::Failure(e)) => panic!("unexpected failure: {e:?}"),
    }
}

#[test]
fn escaped_text() {
    assert_eq!(scanned(property_string(span(""))), Ok(("", "")));
    assert_eq!(scanned(property_string(span("abc"))), Ok(("", "abc")));
    assert_eq!(scanned(property_string(span("abc}d"))), Ok(("}d", "abc")));
    assert_eq!(scanned(property_string(span("a{b"))), Ok(("{b", "a")));
    assert_eq!(scanned(property_string(span(r"a\}b\{c\\}d"))), Ok(("}d", r"a\}b\{c\\")));
    assert_eq!(scanned(property_string(span(r"a\}"))), Ok(("", r"a\}")));
    assert_eq!(scanned(property_string(span("a\"b}"))), Ok(("}", "a\"b")));
    // A backslash at the very end is reported at the start of the text.
    assert_eq!(scanned(property_string(span(r"ab\"))), Err(r"ab\"));
    // A backslash before anything else is reported where it stands.
    assert_eq!(scanned(property_string(span(r"ab\cd"))), Err(r"\cd"));
    assert_eq!(scanned(property_string(span("ab\\\"cd"))), Err("\\\"cd"));

    assert_eq!(scanned(escaped0(span("abc\"d"), Quoting::Value)), Ok(("\"d", "abc")));
    assert_eq!(scanned(escaped0(span("a{b}c\"d"), Quoting::Value)), Ok(("\"d", "a{b}c")));
    assert_eq!(scanned(escaped0(span(r#"a\\"b"c"#), Quoting::Value)), Ok(("\"c", r#"a\\"b"#)));
    assert_eq!(scanned(escaped0(span(r#"a\\b"c"#), Quoting::Value)), Ok(("\"c", r"a\\b")));
    assert_eq!(scanned(escaped0(span(r#"a\{\}"c"#), Quoting::Value)), Ok(("\"c", r"a\{\}")));
    // In a value a backslash may stand before a quote; the two stay as they
    // are, and the quote does not end the value.
    assert_eq!(scanned(escaped0(span(r#"a\"c"#), Quoting::Value)), Ok(("", r#"a\"c"#)));
    assert_eq!(scanned(escaped0(span(r#"a\"b"c"#), Quoting::Value)), Ok(("\"c", r#"a\"b"#)));
    assert_eq!(scanned(escaped0(span(r#"\""#), Quoting::Value)), Ok(("", r#"\""#)));
    assert_eq!(scanned(escaped0(span(r#"\"""#), Quoting::Value)), Ok(("\"", r#"\""#)));
    // A backslash and a quote after a backslash are taken together first.
    assert_eq!(scanned(escaped0(span(r#"\\"""#), Quoting::Value)), Ok(("\"", r#"\\""#)));
    assert_eq!(scanned(escaped0(span(r#"\\\""#), Quoting::Value)), Ok(("", r#"\\\""#)));
    assert_eq!(scanned(escaped0(span(r#"a\x"#), Quoting::Value)), Err(r#"\x"#));
    assert_eq!(scanned(escaped0(span(r"a\"), Quoting::Value)), Err(r"a\"));
    assert_eq!(scanned(escaped0(span("é\u{20ac}}"), Quoting::Property)), Ok(("}", "é\u{20ac}")));
}

#[test]
fn lines_and_columns_are_those_of_nom_locate() {
    let input = "first\nse\tcond \u{30e1}\u{30ab}\u{30b8}\u{30ad} x\n\n\u{e9}t\u{e9}\nlast";
    let theirs = nom_locate::LocatedSpan::new(input);
    let ours = span(input);
    for offset in 0..=input.len() {
        if !input.is_char_boundary(offset) {
            continue;
        }
        let t = theirs.take_from(offset);
        let o = ours.take_from(offset);
        assert_eq!(o.location_offset(), t.location_offset());
        assert_eq!(o.location_line(), t.location_line() as usize, "offset {offset}");
        assert_eq!(o.get_utf8_column(), t.get_utf8_column(), "offset {offset}");
        assert_eq!(o.get_line_beginning(), t.get_line_beginning(), "offset {offset}");
        assert_eq!(o.fragment(), t.fragment().as_bytes());
        assert_eq!(o.input_len(), t.input_len());
    }
    // A span that ends before its buffer shows its line up to its own end.
    let part = ours.take_from(6).take(4);
    assert_eq!(part.get_line_beginning(), b"se\tc");
    assert_eq!(theirs.take_from(6).take(4).get_line_beginning(), b"se\tc");
    assert_eq!(part.first(), Some(b's'));
    assert_eq!(part.byte_at(2), b'\t');
    assert_eq!(ours.take(0).first(), None);
}

#[test]
fn rotations_and_flips() {
    assert_eq!(Rotation::try_from(0), Ok(Rotation::Zero));
    assert_eq!(Rotation::try_from(1), Ok(Rotation::One));
    assert_eq!(Rotation::try_from(2), Ok(Rotation::Two));
    assert_eq!(Rotation::try_from(3), Ok(Rotation::Three));
    assert_eq!(Rotation::try_from(4), Err(4));
    assert_eq!(u8::from(Rotation::Three), 3);
    assert_eq!(u8::from(Rotation::Zero), 0);
    assert_eq!(Flip::try_from(0), Ok(Flip::Unflipped));
    assert_eq!(Flip::try_from(1), Ok(Flip::Flipped));
    assert_eq!(Flip::try_from(2), Err(2));
    assert_eq!(Flip::from(true), Flip::Flipped);
    assert_eq!(Flip::from(false), Flip::Unflipped);
    assert!(bool::from(Flip::Flipped));
    assert!(!bool::from(Flip::Unflipped));
}

#[test]
fn numbers_are_written_as_they_are_read() {
    let mut values = vec![
        0.0,
        -0.0,
        1.0,
        -1.0,
        0.1,
        -17.5,
        1e-7,
        123456789.125,
        1e21,
        1e300,
        -1e300,
        f64::MAX,
        f64::MIN,
        f64::MIN_POSITIVE,
        5e-324,
        -5e-324,
        f64::EPSILON,
        2.2250738585072011e-308,
        9007199254740993.0,
    ];
    let mut state: u64 = 0x9e37_79b9_7f4a_7c15;
    for _ in 0..2000 {
        state = state.wrapping_mul(6364136223846793005).wrapping_add(1442695040888963407);
        let value = f64::from_bits(state);
        if value.is_finite() {
            values.push(value);
        }
    }
    for value in values {
        let d = xschem_parser::token::FiniteDouble::try_from(value.to_bits()).unwrap();
        assert!(xschem_parser::fidelity::prints_back(d), "{value:e}");
    }
}
