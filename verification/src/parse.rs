//! The parsers.
//!
//! Each parser takes the input that is left and returns the input that it
//! leaves together with a value, or the reason why it does not match. Each
//! one is proved to compute the function of the same name in
//! [`crate::grammar`].
use vstd::prelude::*;

use crate::error::{Error, Primitive, Rejection};
use crate::grammar;
use crate::grammar::{ByteClass, Parsed, Quoting, MAX_DEPTH};
use crate::number::read_double;
use crate::span::{Span, SpanView};
use crate::token::{
    option_view, Arc, Attributes, Component, Coordinate, Coordinates, Embedding, FiniteDouble, Flip,
    Line, Object, Polygon, Property, Rectangle, Rotation, Schematic, Size, SpiceProperty,
    SymbolProperty, TedaXProperty, Text, Vec2, VerilogProperty, Version, VhdlProperty, Wire,
};

verus! {

/// What a parser returns: the input that is left and a value, or a
/// rejection.
pub type IResult<'a, T> = Result<(Span<'a>, T), Rejection<'a>>;

/// Whether the result `r` of a parser that ran on `input` is what the grammar
/// says, `p`: the same value and the input after the consumed bytes, or the
/// same error.
pub open spec fn agrees<'a, T: View>(r: IResult<'a, T>, input: SpanView, p: Parsed<T::V>) -> bool {
    match r {
        Ok((rest, value)) => p is Done && rest@ == input.skip(p->len) && value@ == p->value,
        Err(Rejection::Error(e)) => p == Parsed::<T::V>::Error(e@),
        Err(Rejection::Failure(e)) => p == Parsed::<T::V>::Failure(e@),
    }
}

/// Every byte of a run belongs to the class, and a run ends at the end of
/// the input or before a byte that does not belong to it.
pub proof fn lemma_run(x: SpanView, class: ByteClass)
    ensures
        grammar::run(x, class) <= x.len(),
        forall|k: int| 0 <= k < grammar::run(x, class) ==> class.has(#[trigger] x.byte(k)),
        grammar::run(x, class) < x.len() ==> !class.has(x.byte(grammar::run(x, class) as int)),
    decreases x.len(),
{
    if x.len() > 0 && class.has(x.byte(0)) {
        lemma_run(x.skip(1), class);
        assert forall|k: int| 0 <= k < grammar::run(x, class) implies class.has(
            #[trigger] x.byte(k),
        ) by {
            if k > 0 {
                assert(x.byte(k) == x.skip(1).byte(k - 1));
            }
        }
        assert(x.byte(grammar::run(x, class) as int) == x.skip(1).byte(
            grammar::run(x.skip(1), class) as int,
        ));
    }
}

impl ByteClass {
    /// Whether `b` belongs to the class.
    pub fn contains(self, b: u8) -> (r: bool)
        ensures
            r == self.has(b),
    {
        let alphanumeric = (0x30 <= b && b <= 0x39) || (0x41 <= b && b <= 0x5a) || (0x61 <= b && b
            <= 0x7a);
        match self {
            ByteClass::Space => b == 0x20 || b == 0x09,
            ByteClass::MultiSpace => b == 0x20 || b == 0x09 || b == 0x0d || b == 0x0a,
            ByteClass::Digit => 0x30 <= b && b <= 0x39,
            ByteClass::Key => alphanumeric || b == grammar::UNDERSCORE,
            ByteClass::NotKey => !(alphanumeric || b == grammar::UNDERSCORE),
            ByteClass::Value => 0x21 <= b && b <= 0x7e,
        }
    }
}

/// Length of the longest prefix of `input` made of bytes of `class`.
pub fn scan<'a>(input: Span<'a>, class: ByteClass) -> (n: usize)
    ensures
        n == grammar::run(input@, class),
        n <= input@.len(),
        input@.wf(),
{
    let len = input.input_len();
    let mut n: usize = 0;
    while n < len && class.contains(input.byte_at(n))
        invariant
            n <= len,
            len == input@.len(),
            input@.wf(),
            grammar::run(input@, class) == n + grammar::run(input@.skip(n as nat), class),
        decreases len - n,
    {
        assert(input@.skip(n as nat).skip(1) == input@.skip((n + 1) as nat));
        n = n + 1;
    }
    n
}

/// The byte `b`.
pub fn byte<'a>(input: Span<'a>, b: u8) -> (r: IResult<'a, ()>)
    ensures
        agrees(r, input@, grammar::byte(input@, b)),
{
    match input.first() {
        Some(c) => {
            if c == b {
                Ok((input.take_from(1), ()))
            } else {
                Err(Rejection::Error(Error::from_char(input, b as char)))
            }
        },
        None => Err(Rejection::Error(Error::from_char(input, b as char))),
    }
}

/// One or more bytes of `class`; a mismatch has the kind `kind`.
pub fn take_while1<'a>(input: Span<'a>, class: ByteClass, kind: Primitive) -> (r: IResult<
    'a,
    Span<'a>,
>)
    ensures
        agrees(r, input@, grammar::take_while1(input@, class, kind)),
{
    proof {
        reveal(grammar::take_while1);
    }
    let n = scan(input, class);
    if n > 0 {
        Ok((input.take_from(n), input.take(n)))
    } else {
        Err(Rejection::Error(Error::from_error_kind(input, kind)))
    }
}

/// Skips whitespace.
pub fn multispace0<'a>(input: Span<'a>) -> (rest: Span<'a>)
    ensures
        rest@ == input@.skip(grammar::gap(input@)),
{
    let n = scan(input, ByteClass::MultiSpace);
    input.take_from(n)
}

/// One or more bytes of whitespace.
pub fn multispace1<'a>(input: Span<'a>) -> (r: IResult<'a, ()>)
    ensures
        agrees(r, input@, grammar::multispace1(input@)),
{
    proof {
        reveal(grammar::multispace1);
    }
    let n = scan(input, ByteClass::MultiSpace);
    if n > 0 {
        Ok((input.take_from(n), ()))
    } else {
        Err(Rejection::Error(Error::from_error_kind(input, Primitive::MultiSpace)))
    }
}

/// One or more spaces or tabs.
pub fn space1<'a>(input: Span<'a>) -> (r: IResult<'a, ()>)
    ensures
        agrees(r, input@, grammar::space1(input@)),
{
    proof {
        reveal(grammar::space1);
    }
    let n = scan(input, ByteClass::Space);
    if n > 0 {
        Ok((input.take_from(n), ()))
    } else {
        Err(Rejection::Error(Error::from_error_kind(input, Primitive::Space)))
    }
}

/// The end of the input.
pub fn eof<'a>(input: Span<'a>) -> (r: IResult<'a, ()>)
    ensures
        agrees(r, input@, grammar::eof(input@)),
{
    proof {
        reveal(grammar::eof);
    }
    if input.input_len() == 0 {
        Ok((input, ()))
    } else {
        Err(Rejection::Error(Error::from_error_kind(input, Primitive::Eof)))
    }
}

/// Commits: a mismatch becomes a failure.
pub fn cut<'a, T>(r: IResult<'a, T>) -> (c: IResult<'a, T>)
    ensures
        match r {
            Err(Rejection::Error(e)) => c == IResult::<'a, T>::Err(Rejection::Failure(e)),
            _ => c == r,
        },
{
    match r {
        Err(Rejection::Error(e)) => Err(Rejection::Failure(e)),
        other => other,
    }
}

/// Names the part of the grammar that began at `input`: an error in `r`
/// records the name.
pub fn context<'a, T>(name: &'static str, input: Span<'a>, r: IResult<'a, T>) -> (c: IResult<'a, T>)
    ensures
        match (r, c) {
            (Ok(a), Ok(b)) => a == b,
            (Err(Rejection::Error(e)), Err(Rejection::Error(f))) => f@ == e@.within(input@, name@),
            (Err(Rejection::Failure(e)), Err(Rejection::Failure(f))) => f@ == e@.within(
                input@,
                name@,
            ),
            _ => false,
        },
{
    match r {
        Ok(v) => Ok(v),
        Err(Rejection::Error(e)) => Err(Rejection::Error(Error::add_context(input, name, e))),
        Err(Rejection::Failure(e)) => Err(Rejection::Failure(Error::add_context(input, name, e))),
    }
}

/// The digits `digits[..n]` denote at most what all of `digits` denote.
pub proof fn lemma_decimal_prefix(digits: Seq<u8>, n: int)
    requires
        0 <= n <= digits.len(),
        forall|k: int| 0 <= k < digits.len() ==> 0x30 <= #[trigger] digits[k] <= 0x39,
    ensures
        grammar::decimal(digits.take(n)) <= grammar::decimal(digits),
    decreases digits.len() - n,
{
    if n < digits.len() {
        lemma_decimal_prefix(digits, n + 1);
        assert(digits.take(n + 1).drop_last() =~= digits.take(n));
    } else {
        assert(digits.take(n) =~= digits);
    }
}

/// A decimal number without sign that is at most `max`.
pub fn unsigned<'a>(input: Span<'a>, max: u64) -> (r: IResult<'a, u64>)
    ensures
        agrees(r, input@, grammar::unsigned(input@, max as nat).map(|n: nat| n as u64)),
        r matches Ok((_, value)) ==> value <= max,
{
    proof {
        reveal(grammar::unsigned);
    }
    let n = scan(input, ByteClass::Digit);
    if n == 0 {
        return Err(Rejection::Error(Error::from_error_kind(input, Primitive::Digit)));
    }
    let ghost digits = input@.take(n as nat).text();
    proof {
        lemma_run(input@, ByteClass::Digit);
        assert forall|k: int| 0 <= k < digits.len() implies 0x30 <= #[trigger] digits[k] <= 0x39 by {
            assert(digits[k] == input@.byte(k));
        }
    }
    let mut value: u64 = 0;
    let mut i: usize = 0;
    while i < n
        invariant
            i <= n,
            0 < n <= input@.len(),
            n == grammar::run(input@, ByteClass::Digit),
            input@.wf(),
            digits == input@.take(n as nat).text(),
            digits.len() == n,
            forall|k: int| 0 <= k < digits.len() ==> 0x30 <= #[trigger] digits[k] <= 0x39,
            value == grammar::decimal(digits.take(i as int)),
            value <= max,
        decreases n - i,
    {
        let b = input.byte_at(i);
        assert(b == digits[i as int]);
        let d = (b - grammar::DIGIT_ZERO) as u64;
        proof {
            reveal(grammar::unsigned);
            assert(digits.take(i + 1).drop_last() =~= digits.take(i as int));
            assert(digits.take(i + 1).last() == b);
            assert(grammar::decimal(digits.take(i + 1)) == value * 10 + d);
            lemma_decimal_prefix(digits, i + 1);
        }
        let next = match value.checked_mul(10) {
            Some(v) => v.checked_add(d),
            None => None,
        };
        match next {
            Some(v) => {
                if v > max {
                    return Err(Rejection::Error(Error::from_error_kind(input, Primitive::Digit)));
                }
                value = v;
            },
            None => {
                return Err(Rejection::Error(Error::from_error_kind(input, Primitive::Digit)));
            },
        }
        i = i + 1;
    }
    assert(digits.take(n as int) =~= digits);
    Ok((input.take_from(n), value))
}

/// The number of a layer.
pub fn layer<'a>(input: Span<'a>) -> (r: IResult<'a, u64>)
    ensures
        agrees(r, input@, grammar::layer(input@)),
{
    proof {
        reveal(grammar::layer);
    }
    unsigned(input, u64::MAX)
}

/// How many points a polygon has: a number that is at least 1.
pub fn count<'a>(input: Span<'a>) -> (r: IResult<'a, usize>)
    ensures
        agrees(r, input@, grammar::count(input@)),
        r matches Ok((_, n)) ==> n >= 1,
{
    proof {
        reveal(grammar::count);
        reveal(grammar::unsigned);
    }
    match unsigned(input, usize::MAX as u64) {
        Ok((rest, n)) => if n >= 1 {
            Ok((rest, n as usize))
        } else {
            Err(Rejection::Error(Error::from_error_kind(input, Primitive::Verify)))
        },
        Err(e) => Err(e),
    }
}

/// Length of the sign at the start of `input`: 1 or 0.
fn sign_len<'a>(input: Span<'a>) -> (n: usize)
    ensures
        n == grammar::sign_len(input@),
        n <= input@.len(),
{
    match input.first() {
        Some(b) => if b == grammar::PLUS || b == grammar::MINUS {
            1
        } else {
            0
        },
        None => 0,
    }
}

/// Whether `input` begins with the byte `b`.
fn starts_with<'a>(input: Span<'a>, b: u8) -> (r: bool)
    ensures
        r == input@.starts_with(b),
        r ==> input@.len() > 0,
        input@.wf(),
{
    match input.first() {
        Some(c) => c == b,
        None => false,
    }
}

/// The digits of a number, after its sign.
fn mantissa<'a>(input: Span<'a>) -> (r: IResult<'a, ()>)
    ensures
        agrees(r, input@, grammar::mantissa(input@)),
{
    proof {
        reveal(grammar::mantissa);
    }
    let whole = scan(input, ByteClass::Digit);
    if whole > 0 {
        let rest = input.take_from(whole);
        if starts_with(rest, grammar::DOT) {
            let fraction = scan(rest.take_from(1), ByteClass::Digit);
            Ok((rest.take_from(1).take_from(fraction), ()))
        } else {
            Ok((rest, ()))
        }
    } else if starts_with(input, grammar::DOT) {
        let fraction = scan(input.take_from(1), ByteClass::Digit);
        if fraction > 0 {
            Ok((input.take_from(1).take_from(fraction), ()))
        } else {
            Err(Rejection::Error(Error::from_error_kind(input.take_from(1), Primitive::Digit)))
        }
    } else {
        Err(Rejection::Error(Error::from_char(input, grammar::DOT as char)))
    }
}

/// The exponent of a number, if there is one.
fn exponent<'a>(input: Span<'a>) -> (r: IResult<'a, ()>)
    ensures
        agrees(r, input@, grammar::exponent(input@)),
{
    proof {
        reveal(grammar::exponent);
    }
    if starts_with(input, grammar::LOWER_E) || starts_with(input, grammar::UPPER_E) {
        let s = sign_len(input.take_from(1));
        let signed = input.take_from(1).take_from(s);
        let digits = scan(signed, ByteClass::Digit);
        if digits > 0 {
            Ok((signed.take_from(digits), ()))
        } else {
            Err(Rejection::Failure(Error::from_error_kind(signed, Primitive::Digit)))
        }
    } else {
        Ok((input, ()))
    }
}

/// The text of a floating-point number.
pub fn float_shape<'a>(input: Span<'a>) -> (r: IResult<'a, Span<'a>>)
    ensures
        agrees(r, input@, grammar::float_shape(input@)),
{
    proof {
        reveal(grammar::float_shape);
    }
    let s = sign_len(input);
    let (after_mantissa, _) = mantissa(input.take_from(s))?;
    let (rest, _) = exponent(after_mantissa)?;
    let len = rest.location_offset() - input.location_offset();
    Ok((rest, input.take(len)))
}

/// A finite number.
pub fn finite_double<'a>(input: Span<'a>) -> (r: IResult<'a, FiniteDouble>)
    ensures
        agrees(r, input@, grammar::finite_double(input@)),
{
    proof {
        reveal(grammar::finite_double);
    }
    let (rest, literal) = float_shape(input)?;
    match read_double(literal.fragment()) {
        Some(bits) => match FiniteDouble::try_from(bits) {
            Ok(d) => Ok((rest, d)),
            Err(cause) => Err(
                Rejection::Error(Error::from_external_error(rest, Primitive::Float, cause)),
            ),
        },
        None => Err(Rejection::Error(Error::from_error_kind(rest, Primitive::Float))),
    }
}

/// Two finite numbers with whitespace between them.
pub fn vec2<'a>(input: Span<'a>) -> (r: IResult<'a, Vec2>)
    ensures
        agrees(r, input@, grammar::vec2(input@)),
{
    proof {
        reveal(grammar::multispace1);
        reveal(grammar::vec2);
    }
    let (rest, x) = finite_double(input)?;
    let (rest, _) = multispace1(rest)?;
    let (rest, y) = finite_double(rest)?;
    Ok((rest, Vec2 { x, y }))
}

/// A position.
pub fn coordinate<'a>(input: Span<'a>) -> (r: IResult<'a, Coordinate>)
    ensures
        agrees(r, input@, grammar::coordinate(input@)),
{
    proof {
        reveal(grammar::coordinate);
    }
    context("coordinate", input, vec2(input))
}

/// An extent.
pub fn size<'a>(input: Span<'a>) -> (r: IResult<'a, Size>)
    ensures
        agrees(r, input@, grammar::size(input@)),
{
    proof {
        reveal(grammar::size);
    }
    context("size", input, vec2(input))
}

/// A rotation: one of the digits 0 to 3.
pub fn rotation<'a>(input: Span<'a>) -> (r: IResult<'a, Rotation>)
    ensures
        agrees(r, input@, grammar::rotation(input@)),
{
    proof {
        reveal(grammar::rotation);
    }
    let r = match input.first() {
        Some(0x30) => Ok((input.take_from(1), Rotation::Zero)),
        Some(0x31) => Ok((input.take_from(1), Rotation::One)),
        Some(0x32) => Ok((input.take_from(1), Rotation::Two)),
        Some(0x33) => Ok((input.take_from(1), Rotation::Three)),
        _ => Err(Rejection::Error(Error::from_char(input, '3'))),
    };
    context("rotation", input, r)
}

/// A flip: the digit 0 or 1.
pub fn flip<'a>(input: Span<'a>) -> (r: IResult<'a, Flip>)
    ensures
        agrees(r, input@, grammar::flip(input@)),
{
    proof {
        reveal(grammar::flip);
    }
    let r = match input.first() {
        Some(0x30) => Ok((input.take_from(1), Flip::Unflipped)),
        Some(0x31) => Ok((input.take_from(1), Flip::Flipped)),
        _ => Err(Rejection::Error(Error::from_char(input, '1'))),
    };
    context("flip", input, r)
}

impl Quoting {
    /// Whether `b` is ordinary text.
    pub fn normal(self, b: u8) -> (r: bool)
        ensures
            r == self.is_normal(b),
    {
        match self {
            Quoting::Property => b != grammar::BACKSLASH && b != grammar::OPEN_BRACE && b
                != grammar::CLOSE_BRACE,
            Quoting::Value => b != grammar::BACKSLASH && b != grammar::QUOTE,
        }
    }

    /// Length of what may stand after a backslash at the start of `input`,
    /// or 0 where nothing that stands there may be escaped.
    pub fn escape_len<'a>(self, input: Span<'a>) -> (n: usize)
        ensures
            n == self.escapable(input@),
            n <= input@.len(),
            n <= 2,
    {
        let len = input.input_len();
        if len == 0 {
            return 0;
        }
        let first = input.byte_at(0);
        let value = match self {
            Quoting::Value => true,
            Quoting::Property => false,
        };
        if value && len >= 2 && first == grammar::BACKSLASH && input.byte_at(1) == grammar::QUOTE {
            2
        } else if value && first == grammar::QUOTE {
            1
        } else if first == grammar::BACKSLASH || first == grammar::OPEN_BRACE || first
            == grammar::CLOSE_BRACE {
            1
        } else {
            0
        }
    }
}

/// Escaped text: ordinary bytes and escape sequences, up to the first
/// special byte that is not a backslash or to the end of the input.
pub fn escaped0<'a>(input: Span<'a>, quoting: Quoting) -> (r: IResult<'a, Span<'a>>)
    ensures
        agrees(r, input@, grammar::escaped0(input@, quoting)),
{
    proof {
        reveal(grammar::escaped0);
    }
    let len = input.input_len();
    let mut at: usize = 0;
    while at < len
        invariant
            at <= len,
            len == input@.len(),
            input@.wf(),
            grammar::escaped0(input@, quoting) == grammar::escaped_from(input@, quoting, at as nat),
        decreases len - at,
    {
        let b = input.byte_at(at);
        if quoting.normal(b) {
            at = at + 1;
        } else if b != grammar::BACKSLASH {
            return Ok((input.take_from(at), input.take(at)));
        } else if at + 1 >= len {
            return Err(Rejection::Error(Error::from_error_kind(input, Primitive::Escaped)));
        } else {
            let n = quoting.escape_len(input.take_from(at + 1));
            if n == 0 {
                return Err(
                    Rejection::Error(
                        Error::from_error_kind(input.take_from(at), Primitive::Escaped),
                    ),
                );
            }
            at = at + 1 + n;
        }
    }
    Ok((input.take_from(len), input))
}

/// The text of a property, a text or a reference.
pub fn property_string<'a>(input: Span<'a>) -> (r: IResult<'a, Span<'a>>)
    ensures
        agrees(r, input@, grammar::property_string(input@)),
{
    proof {
        reveal(grammar::property_string);
    }
    escaped0(input, Quoting::Property)
}

/// `{`, a property string named `name`, and `}`.
pub fn brace_enclosed<'a>(input: Span<'a>, name: &'static str) -> (r: IResult<'a, Span<'a>>)
    ensures
        agrees(r, input@, grammar::brace_enclosed(input@, name@)),
{
    proof {
        reveal(grammar::brace_enclosed);
    }
    let (inner, _) = byte(input, grammar::OPEN_BRACE)?;
    let (rest, string) = cut(context(name, inner, property_string(inner)))?;
    let (rest, _) = cut(byte(rest, grammar::CLOSE_BRACE))?;
    Ok((rest, string))
}

/// The body of a text object.
pub fn text<'a>(input: Span<'a>) -> (r: IResult<'a, Span<'a>>)
    ensures
        agrees(r, input@, grammar::text(input@)),
{
    proof {
        reveal(grammar::text);
    }
    brace_enclosed(input, "text")
}

/// The file name of a symbol.
pub fn reference<'a>(input: Span<'a>) -> (r: IResult<'a, Span<'a>>)
    ensures
        agrees(r, input@, grammar::reference(input@)),
{
    proof {
        reveal(grammar::reference);
    }
    brace_enclosed(input, "reference")
}

/// The key of an attribute.
pub fn key<'a>(input: Span<'a>) -> (r: IResult<'a, Span<'a>>)
    ensures
        agrees(r, input@, grammar::key(input@)),
{
    proof {
        reveal(grammar::key);
    }
    context("key", input, take_while1(input, ByteClass::Key, Primitive::TakeWhile1))
}

/// The value of an attribute: quoted, with escapes, or a run of printable
/// characters.
pub fn value<'a>(input: Span<'a>) -> (r: IResult<'a, Span<'a>>)
    ensures
        agrees(r, input@, grammar::value(input@)),
{
    proof {
        reveal(grammar::value);
    }
    let r = if starts_with(input, grammar::QUOTE) {
        match cut(escaped0(input.take_from(1), Quoting::Value)) {
            Ok((rest, value)) => match cut(byte(rest, grammar::QUOTE)) {
                Ok((rest, _)) => Ok((rest, value)),
                Err(e) => Err(e),
            },
            Err(e) => Err(e),
        }
    } else {
        take_while1(input, ByteClass::Value, Primitive::TakeWhile1)
    };
    context("value", input, r)
}

/// An attribute: a key, `=`, and a value.
pub fn key_value<'a>(input: Span<'a>) -> (r: IResult<'a, (Span<'a>, Span<'a>)>)
    ensures
        agrees(r, input@, grammar::key_value(input@)),
{
    proof {
        reveal(grammar::key_value);
    }
    let r = match key(input) {
        Ok((rest, k)) => match byte(rest, grammar::EQUALS) {
            Ok((rest, _)) => match value(rest) {
                Ok((rest, v)) => Ok((rest, (k, v))),
                Err(e) => Err(e),
            },
            Err(e) => Err(e),
        },
        Err(e) => Err(e),
    };
    context("key_value", input, r)
}

/// Turns a mismatch into the absence of a value: scanning goes on from the
/// place of the mismatch. A failure that the parser had committed to stays.
pub fn try_skip<'a, T>(r: IResult<'a, T>) -> (s: IResult<'a, Option<T>>)
    ensures
        match r {
            Ok((rest, value)) => s == IResult::<'a, Option<T>>::Ok((rest, Some(value))),
            Err(Rejection::Error(e)) => s == IResult::<'a, Option<T>>::Ok((e.err.input, None)),
            Err(Rejection::Failure(e)) => s == IResult::<'a, Option<T>>::Err(Rejection::Failure(e)),
        },
{
    match r {
        Ok((rest, value)) => Ok((rest, Some(value))),
        Err(Rejection::Error(e)) => Ok((e.err.input, None)),
        Err(Rejection::Failure(e)) => Err(Rejection::Failure(e)),
    }
}

/// Where an attribute matches, it is not empty; where it does not match, the
/// mismatch lies in the input, and after its start if the input starts with a
/// key.
pub proof fn lemma_key_value_progress(x: SpanView)
    requires
        x.wf(),
    ensures
        match grammar::key_value(x) {
            Parsed::Done { len, .. } => len >= 1,
            Parsed::Error(e) => e.err.input.source == x.source && e.err.input.end == x.end
                && x.start <= e.err.input.start <= x.end && (x.len() > 0 && ByteClass::Key.has(
                x.byte(0),
            ) ==> x.start < e.err.input.start),
            Parsed::Failure(_) => true,
        },
{
    reveal(grammar::key_value);
    reveal(grammar::key);
    reveal(grammar::value);
    reveal(grammar::take_while1);
    lemma_run(x, ByteClass::Key);
}

/// The attributes in `input`.
pub fn attributes<'a>(input: Span<'a>) -> (r: IResult<'a, Attributes<'a>>)
    ensures
        agrees(r, input@, grammar::attributes(input@)),
{
    proof {
        reveal(grammar::attributes);
    }
    let mut attrs = Attributes::new();
    let mut rest = input;
    let total = input.input_len();
    let mut left = total;
    while left > 0
        invariant
            input@.wf(),
            rest@.wf(),
            total == input@.len(),
            left == rest@.len(),
            left <= total,
            rest@ == input@.skip((total - left) as nat),
            grammar::attributes(input@) == grammar::attributes_from(rest@, attrs@).after(
                (total - left) as nat,
            ),
        decreases left,
    {
        let skipped = scan(rest, ByteClass::NotKey);
        proof {
            lemma_run(rest@, ByteClass::NotKey);
            lemma_key_value_progress(rest@.skip(skipped as nat));
        }
        match try_skip(key_value(rest.take_from(skipped))) {
            Ok((next, Some(pair))) => {
                attrs = attrs.insert(pair.0, pair.1);
                rest = next;
            },
            Ok((next, None)) => {
                rest = next;
            },
            Err(e) => {
                return Err(e);
            },
        }
        left = rest.input_len();
    }
    Ok((rest, attrs))
}

/// A property: a property string in braces, and the attributes found in
/// that string.
pub fn property<'a>(input: Span<'a>) -> (r: IResult<'a, Property<'a>>)
    ensures
        agrees(r, input@, grammar::property(input@)),
{
    proof {
        reveal(grammar::property);
    }
    let (rest, prop) = brace_enclosed(input, "property")?;
    match attributes(prop) {
        Ok((_, attrs)) => Ok((rest, Property { prop, attrs })),
        Err(e) => Err(e),
    }
}

/// Whitespace and a layer.
fn spaced_layer<'a>(input: Span<'a>) -> (r: IResult<'a, u64>)
    ensures
        agrees(r, input@, grammar::spaced_layer(input@)),
{
    proof {
        reveal(grammar::multispace1);
        reveal(grammar::spaced_layer);
    }
    let (rest, _) = multispace1(input)?;
    layer(rest)
}

/// Whitespace and a position.
fn spaced_coordinate<'a>(input: Span<'a>) -> (r: IResult<'a, Coordinate>)
    ensures
        agrees(r, input@, grammar::spaced_coordinate(input@)),
{
    proof {
        reveal(grammar::multispace1);
        reveal(grammar::spaced_coordinate);
    }
    let (rest, _) = multispace1(input)?;
    coordinate(rest)
}

/// Whitespace and a finite number.
fn spaced_double<'a>(input: Span<'a>) -> (r: IResult<'a, FiniteDouble>)
    ensures
        agrees(r, input@, grammar::spaced_double(input@)),
{
    proof {
        reveal(grammar::multispace1);
        reveal(grammar::spaced_double);
    }
    let (rest, _) = multispace1(input)?;
    finite_double(rest)
}

/// Whitespace and a property.
fn spaced_property<'a>(input: Span<'a>) -> (r: IResult<'a, Property<'a>>)
    ensures
        agrees(r, input@, grammar::spaced_property(input@)),
{
    proof {
        reveal(grammar::multispace1);
        reveal(grammar::spaced_property);
    }
    let (rest, _) = multispace1(input)?;
    property(rest)
}

/// Whitespace and a rotation.
fn spaced_rotation<'a>(input: Span<'a>) -> (r: IResult<'a, Rotation>)
    ensures
        agrees(r, input@, grammar::spaced_rotation(input@)),
{
    proof {
        reveal(grammar::multispace1);
        reveal(grammar::spaced_rotation);
    }
    let (rest, _) = multispace1(input)?;
    rotation(rest)
}

/// Whitespace and a flip.
fn spaced_flip<'a>(input: Span<'a>) -> (r: IResult<'a, Flip>)
    ensures
        agrees(r, input@, grammar::spaced_flip(input@)),
{
    proof {
        reveal(grammar::multispace1);
        reveal(grammar::spaced_flip);
    }
    let (rest, _) = multispace1(input)?;
    flip(rest)
}

/// The version: `v` and a property.
pub fn version_object<'a>(input: Span<'a>) -> (r: IResult<'a, Version<'a>>)
    ensures
        agrees(r, input@, grammar::version_object(input@)),
{
    proof {
        reveal(grammar::version_object);
    }
    let r = match byte(input, grammar::TAG_VERSION) {
        Ok((rest, _)) => match cut(spaced_property(rest)) {
            Ok((rest, p)) => Ok((rest, Version(p))),
            Err(e) => Err(e),
        },
        Err(e) => Err(e),
    };
    context("version", input, r)
}

/// A property of the schematic as a whole: its tag and a property.
pub fn property_object<'a>(input: Span<'a>, tag: u8) -> (r: IResult<'a, Property<'a>>)
    ensures
        agrees(r, input@, grammar::property_object(input@, tag)),
{
    proof {
        reveal(grammar::property_object);
    }
    let r = match byte(input, tag) {
        Ok((rest, _)) => cut(spaced_property(rest)),
        Err(e) => Err(e),
    };
    context("global property", input, r)
}

/// The fields of an arc.
fn arc_fields<'a>(input: Span<'a>) -> (r: IResult<'a, Arc<'a>>)
    ensures
        agrees(r, input@, grammar::arc_fields(input@)),
{
    proof {
        reveal(grammar::arc_fields);
    }
    let (rest, layer) = spaced_layer(input)?;
    let (rest, center) = spaced_coordinate(rest)?;
    let (rest, radius) = spaced_double(rest)?;
    let (rest, start_angle) = spaced_double(rest)?;
    let (rest, sweep_angle) = spaced_double(rest)?;
    let (rest, property) = spaced_property(rest)?;
    Ok((rest, Arc { layer, center, radius, start_angle, sweep_angle, property }))
}

/// An arc: `A`, a layer, the centre, the radius, the two angles and a
/// property.
pub fn arc_object<'a>(input: Span<'a>) -> (r: IResult<'a, Arc<'a>>)
    ensures
        agrees(r, input@, grammar::arc_object(input@)),
{
    proof {
        reveal(grammar::arc_object);
    }
    let r = match byte(input, grammar::TAG_ARC) {
        Ok((rest, _)) => cut(arc_fields(rest)),
        Err(e) => Err(e),
    };
    context("arc", input, r)
}

/// The fields of a line.
fn line_fields<'a>(input: Span<'a>) -> (r: IResult<'a, Line<'a>>)
    ensures
        agrees(
            r,
            input@,
            grammar::box_fields(input@).map(
                |f: (u64, crate::token::Vec2View, crate::token::Vec2View, crate::token::PropertyView)|
                    crate::token::LineView { layer: f.0, start: f.1, end: f.2, property: f.3 },
            ),
        ),
{
    proof {
        reveal(grammar::box_fields);
    }
    let (rest, layer) = spaced_layer(input)?;
    let (rest, start) = spaced_coordinate(rest)?;
    let (rest, end) = spaced_coordinate(rest)?;
    let (rest, property) = spaced_property(rest)?;
    Ok((rest, Line { layer, start, end, property }))
}

/// A line: `L`, a layer, two positions and a property.
pub fn line_object<'a>(input: Span<'a>) -> (r: IResult<'a, Line<'a>>)
    ensures
        agrees(r, input@, grammar::line_object(input@)),
{
    proof {
        reveal(grammar::line_object);
    }
    let r = match byte(input, grammar::TAG_LINE) {
        Ok((rest, _)) => cut(line_fields(rest)),
        Err(e) => Err(e),
    };
    context("line", input, r)
}

/// The fields of a rectangle.
fn rectangle_fields<'a>(input: Span<'a>) -> (r: IResult<'a, Rectangle<'a>>)
    ensures
        agrees(
            r,
            input@,
            grammar::box_fields(input@).map(
                |f: (u64, crate::token::Vec2View, crate::token::Vec2View, crate::token::PropertyView)|
                    crate::token::RectangleView { layer: f.0, start: f.1, end: f.2, property: f.3 },
            ),
        ),
{
    proof {
        reveal(grammar::box_fields);
    }
    let (rest, layer) = spaced_layer(input)?;
    let (rest, start) = spaced_coordinate(rest)?;
    let (rest, end) = spaced_coordinate(rest)?;
    let (rest, property) = spaced_property(rest)?;
    Ok((rest, Rectangle { layer, start, end, property }))
}

/// A rectangle: `B`, a layer, two positions and a property.
pub fn rectangle_object<'a>(input: Span<'a>) -> (r: IResult<'a, Rectangle<'a>>)
    ensures
        agrees(r, input@, grammar::rectangle_object(input@)),
{
    proof {
        reveal(grammar::rectangle_object);
    }
    let r = match byte(input, grammar::TAG_RECTANGLE) {
        Ok((rest, _)) => cut(rectangle_fields(rest)),
        Err(e) => Err(e),
    };
    context("rectangle", input, r)
}

/// A point of a polygon: spaces or tabs, and a position.
fn point<'a>(input: Span<'a>) -> (r: IResult<'a, Coordinate>)
    ensures
        agrees(r, input@, grammar::point(input@)),
{
    proof {
        reveal(grammar::space1);
        reveal(grammar::point);
    }
    let (rest, _) = space1(input)?;
    coordinate(rest)
}

/// The points of a polygon: their number, and as many points.
fn points<'a>(input: Span<'a>) -> (r: IResult<'a, Coordinates>)
    ensures
        agrees(r, input@, grammar::points(input@)),
        r matches Ok((_, found)) ==> found@.len() >= 1,
{
    proof {
        reveal(grammar::points);
    }
    let (start, n) = count(input)?;
    let mut rest = start;
    let mut found = Coordinates(Vec::new());
    let mut i: usize = 0;
    let ghost mut consumed: nat = grammar::count(input@)->len;
    assert(found@ =~= Seq::empty());
    while i < n
        invariant
            i <= n,
            found@.len() == i,
            rest@ == input@.skip(consumed),
            grammar::points(input@) == grammar::points_from(
                rest@,
                (n - i) as nat,
                found@,
            ).after(consumed),
        decreases n - i,
    {
        let ghost before = found@;
        match point(rest) {
            Ok((next, p)) => {
                found.0.push(p);
                assert(found@ =~= before.push(p@));
                proof {
                    consumed = consumed + grammar::point(rest@)->len;
                }
                rest = next;
            },
            Err(e) => {
                return Err(e);
            },
        }
        i = i + 1;
    }
    Ok((rest, found))
}

/// The fields of a polygon.
fn polygon_fields<'a>(input: Span<'a>) -> (r: IResult<'a, Polygon<'a>>)
    ensures
        agrees(r, input@, grammar::polygon_fields(input@)),
        r matches Ok((_, p)) ==> p@.points.len() >= 1,
{
    proof {
        reveal(grammar::multispace1);
        reveal(grammar::polygon_fields);
    }
    let (rest, layer) = spaced_layer(input)?;
    let (rest, _) = multispace1(rest)?;
    let (rest, points) = points(rest)?;
    let (rest, property) = spaced_property(rest)?;
    Ok((rest, Polygon { layer, points, property }))
}

/// A polygon: `P`, a layer, the number of points, which is not 0, as many
/// points, and a property.
pub fn polygon_object<'a>(input: Span<'a>) -> (r: IResult<'a, Polygon<'a>>)
    ensures
        agrees(r, input@, grammar::polygon_object(input@)),
        r matches Ok((_, p)) ==> p@.points.len() >= 1,
{
    proof {
        reveal(grammar::polygon_object);
    }
    let r = match byte(input, grammar::TAG_POLYGON) {
        Ok((rest, _)) => cut(polygon_fields(rest)),
        Err(e) => Err(e),
    };
    context("polygon", input, r)
}

/// The fields of a text.
fn text_fields<'a>(input: Span<'a>) -> (r: IResult<'a, Text<'a>>)
    ensures
        agrees(r, input@, grammar::text_fields(input@)),
{
    proof {
        reveal(grammar::multispace1);
        reveal(grammar::text_fields);
    }
    let (rest, _) = multispace1(input)?;
    let (rest, text) = text(rest)?;
    let (rest, position) = spaced_coordinate(rest)?;
    let (rest, rotation) = spaced_rotation(rest)?;
    let (rest, flip) = spaced_flip(rest)?;
    let (rest, _) = multispace1(rest)?;
    let (rest, size) = size(rest)?;
    let (rest, property) = spaced_property(rest)?;
    Ok((rest, Text { text, position, rotation, flip, size, property }))
}

/// A text: `T`, the text in braces, a position, a rotation, a flip, a size
/// and a property.
pub fn text_object<'a>(input: Span<'a>) -> (r: IResult<'a, Text<'a>>)
    ensures
        agrees(r, input@, grammar::text_object(input@)),
{
    proof {
        reveal(grammar::text_object);
    }
    let r = match byte(input, grammar::TAG_TEXT) {
        Ok((rest, _)) => cut(text_fields(rest)),
        Err(e) => Err(e),
    };
    context("text", input, r)
}

/// The fields of a wire.
fn wire_fields<'a>(input: Span<'a>) -> (r: IResult<'a, Wire<'a>>)
    ensures
        agrees(r, input@, grammar::wire_fields(input@)),
{
    proof {
        reveal(grammar::wire_fields);
    }
    let (rest, start) = spaced_coordinate(input)?;
    let (rest, end) = spaced_coordinate(rest)?;
    let (rest, property) = spaced_property(rest)?;
    Ok((rest, Wire { start, end, property }))
}

/// A wire: `N`, two positions and a property.
pub fn wire_object<'a>(input: Span<'a>) -> (r: IResult<'a, Wire<'a>>)
    ensures
        agrees(r, input@, grammar::wire_object(input@)),
{
    proof {
        reveal(grammar::wire_object);
    }
    let r = match byte(input, grammar::TAG_WIRE) {
        Ok((rest, _)) => cut(wire_fields(rest)),
        Err(e) => Err(e),
    };
    context("wire", input, r)
}

/// Whether the result `r` of a parser that ran on `input` is what the grammar
/// says, `p`, where `view` gives the model of a value.
pub open spec fn agrees_as<'a, T, V>(
    r: IResult<'a, T>,
    input: SpanView,
    p: Parsed<V>,
    view: spec_fn(T) -> V,
) -> bool {
    match r {
        Ok((rest, value)) => p is Done && rest@ == input.skip(p->len) && view(value) == p->value,
        Err(Rejection::Error(e)) => p == Parsed::<V>::Error(e@),
        Err(Rejection::Failure(e)) => p == Parsed::<V>::Failure(e@),
    }
}

/// A schematic: whitespace, the version, and objects, each after
/// whitespace, as far as they go. Symbols may be embedded in it as deep as
/// `MAX_DEPTH`.
pub fn schematic<'a>(input: Span<'a>) -> (r: IResult<'a, Schematic<'a>>)
    ensures
        agrees(r, input@, grammar::schematic(input@, MAX_DEPTH as nat)),
{
    schematic_within(input, MAX_DEPTH)
}

/// A schematic in which symbols may be embedded `levels` deep.
#[verifier::rlimit(80)]
pub fn schematic_within<'a>(input: Span<'a>, levels: usize) -> (r: IResult<'a, Schematic<'a>>)
    ensures
        agrees(r, input@, grammar::schematic(input@, levels as nat)),
    decreases input@.len(), 6int,
{
    let start = multispace0(input);
    let (rest, version) = version_object(start)?;
    objects_from(rest, Schematic::new(version), levels)
}

/// The objects in `input`, each after whitespace, taken into `held` one
/// after the other. Symbols may be embedded in them `levels` deep.
#[verifier::rlimit(80)]
pub fn objects_from<'a>(input: Span<'a>, held: Schematic<'a>, levels: usize) -> (r: IResult<
    'a,
    Schematic<'a>,
>)
    ensures
        agrees(r, input@, grammar::objects_from(input@, held@, levels as nat)),
    decreases input@.len(), 5int,
{
    let mut rest = input;
    let mut taken = held;
    let ghost mut consumed: nat = 0;
    let total = input.input_len();
    let mut left = total;
    loop
        invariant
            input@.wf(),
            total == input@.len(),
            left == rest@.len(),
            left <= total,
            rest@ == input@.skip(consumed),
            grammar::objects_from(input@, held@, levels as nat) == grammar::objects_from(
                rest@,
                taken@,
                levels as nat,
            ).after(consumed),
        decreases left,
    {
        proof {
                reveal(grammar::multispace1);
        }
        let after_gap = match multispace1(rest) {
            Ok((after_gap, _)) => after_gap,
            Err(_) => {
                return Ok((rest, taken));
            },
        };
        match any_object_within(after_gap, levels) {
            Ok((next, object)) => {
                let next_left = next.input_len();
                if next_left >= left {
                    return Err(
                        Rejection::Error(Error::from_error_kind(rest, Primitive::Many0)),
                    );
                }
                proof {
                    consumed = consumed + grammar::gap(rest@) + grammar::any_object(
                        after_gap@,
                        levels as nat,
                    )->len;
                }
                taken = taken.add_object(object);
                rest = next;
                left = next_left;
            },
            Err(Rejection::Error(_)) => {
                return Ok((rest, taken));
            },
            Err(Rejection::Failure(e)) => {
                return Err(Rejection::Failure(e));
            },
        }
    }
}

/// Any object but the version. The tag decides which. Symbols may be
/// embedded in it as deep as `MAX_DEPTH`.
pub fn any_object<'a>(input: Span<'a>) -> (r: IResult<'a, Object<'a>>)
    ensures
        agrees(r, input@, grammar::any_object(input@, MAX_DEPTH as nat)),
{
    any_object_within(input, MAX_DEPTH)
}

/// Any object but the version, in which symbols may be embedded `levels`
/// deep.
#[verifier::rlimit(80)]
pub fn any_object_within<'a>(input: Span<'a>, levels: usize) -> (r: IResult<'a, Object<'a>>)
    ensures
        agrees(r, input@, grammar::any_object(input@, levels as nat)),
    decreases input@.len(), 4int,
{
    match input.first() {
        Some(grammar::TAG_VHDL) => match property_object(input, grammar::TAG_VHDL) {
            Ok((rest, p)) => Ok((rest, Object::VhdlProperty(VhdlProperty(p)))),
            Err(e) => Err(e),
        },
        Some(grammar::TAG_SYMBOL) => match property_object(input, grammar::TAG_SYMBOL) {
            Ok((rest, p)) => Ok((rest, Object::SymbolProperty(SymbolProperty(p)))),
            Err(e) => Err(e),
        },
        Some(grammar::TAG_VERILOG) => match property_object(input, grammar::TAG_VERILOG) {
            Ok((rest, p)) => Ok((rest, Object::VerilogProperty(VerilogProperty(p)))),
            Err(e) => Err(e),
        },
        Some(grammar::TAG_SPICE) => match property_object(input, grammar::TAG_SPICE) {
            Ok((rest, p)) => Ok((rest, Object::SpiceProperty(SpiceProperty(p)))),
            Err(e) => Err(e),
        },
        Some(grammar::TAG_TEDAX) => match property_object(input, grammar::TAG_TEDAX) {
            Ok((rest, p)) => Ok((rest, Object::TedaXProperty(TedaXProperty(p)))),
            Err(e) => Err(e),
        },
        Some(grammar::TAG_ARC) => match arc_object(input) {
            Ok((rest, o)) => Ok((rest, Object::Arc(o))),
            Err(e) => Err(e),
        },
        Some(grammar::TAG_COMPONENT) => match component_within(input, levels) {
            Ok((rest, o)) => Ok((rest, Object::Component(o))),
            Err(e) => Err(e),
        },
        Some(grammar::TAG_LINE) => match line_object(input) {
            Ok((rest, o)) => Ok((rest, Object::Line(o))),
            Err(e) => Err(e),
        },
        Some(grammar::TAG_POLYGON) => match polygon_object(input) {
            Ok((rest, o)) => Ok((rest, Object::Polygon(o))),
            Err(e) => Err(e),
        },
        Some(grammar::TAG_RECTANGLE) => match rectangle_object(input) {
            Ok((rest, o)) => Ok((rest, Object::Rectangle(o))),
            Err(e) => Err(e),
        },
        Some(grammar::TAG_TEXT) => match text_object(input) {
            Ok((rest, o)) => Ok((rest, Object::Text(o))),
            Err(e) => Err(e),
        },
        _ => match wire_object(input) {
            Ok((rest, o)) => Ok((rest, Object::Wire(o))),
            Err(e) => Err(e),
        },
    }
}

/// A component: `C`, the reference in braces, a position, a rotation, a
/// flip, a property and, where one follows, the embedded symbol. Symbols
/// may be embedded in it as deep as `MAX_DEPTH`.
pub fn component_instance<'a>(input: Span<'a>) -> (r: IResult<'a, Component<'a>>)
    ensures
        agrees(r, input@, grammar::component_instance(input@, MAX_DEPTH as nat)),
{
    component_within(input, MAX_DEPTH)
}

/// A component in which symbols may be embedded `levels` deep.
#[verifier::rlimit(80)]
pub fn component_within<'a>(input: Span<'a>, levels: usize) -> (r: IResult<'a, Component<'a>>)
    ensures
        agrees(r, input@, grammar::component_instance(input@, levels as nat)),
    decreases input@.len(), 3int,
{
    let r = match byte(input, grammar::TAG_COMPONENT) {
        Ok((rest, _)) => cut(component_fields(rest, levels)),
        Err(e) => Err(e),
    };
    context("component", input, r)
}

/// The fields of a component.
#[verifier::rlimit(80)]
fn component_fields<'a>(input: Span<'a>, levels: usize) -> (r: IResult<'a, Component<'a>>)
    ensures
        agrees(r, input@, grammar::component_fields(input@, levels as nat)),
    decreases input@.len(), 2int,
{
    proof {
        reveal(grammar::multispace1);
    }
    let (rest, _) = multispace1(input)?;
    let (rest, reference) = reference(rest)?;
    let (rest, position) = spaced_coordinate(rest)?;
    let (rest, rotation) = spaced_rotation(rest)?;
    let (rest, flip) = spaced_flip(rest)?;
    let (rest, property) = spaced_property(rest)?;
    let (rest, embedding) = embedded(rest, levels)?;
    Ok((rest, Component { reference, position, rotation, flip, property, embedding }))
}

/// Whitespace and an embedded symbol, or nothing where none follows.
#[verifier::rlimit(80)]
fn embedded<'a>(input: Span<'a>, levels: usize) -> (r: IResult<'a, Option<Embedding<'a>>>)
    ensures
        agrees_as(
            r,
            input@,
            grammar::embedded(input@, levels as nat),
            |o: Option<Embedding<'a>>| option_view(o),
        ),
    decreases input@.len(), 1int,
{
    proof {
        reveal(grammar::multispace1);
    }
    let after_gap = match multispace1(input) {
        Ok((after_gap, _)) => after_gap,
        Err(_) => {
            return Ok((input, None));
        },
    };
    match embedding_within(after_gap, levels) {
        Ok((rest, e)) => Ok((rest, Some(e))),
        Err(Rejection::Error(_)) => Ok((input, None)),
        Err(Rejection::Failure(e)) => Err(Rejection::Failure(e)),
    }
}

/// An embedded symbol: `[`, whitespace, a schematic, whitespace and `]`.
/// Symbols may be embedded in it one level less deep than `MAX_DEPTH`.
pub fn embedding<'a>(input: Span<'a>) -> (r: IResult<'a, Embedding<'a>>)
    ensures
        agrees(r, input@, grammar::embedding(input@, MAX_DEPTH as nat)),
{
    embedding_within(input, MAX_DEPTH)
}

/// An embedded symbol where `levels` levels are left: none where no level is
/// left, and in it symbols may be embedded one level less deep.
#[verifier::rlimit(80)]
pub fn embedding_within<'a>(input: Span<'a>, levels: usize) -> (r: IResult<'a, Embedding<'a>>)
    ensures
        agrees(r, input@, grammar::embedding(input@, levels as nat)),
    decreases input@.len(), 0int,
{
    proof {
        reveal(grammar::multispace1);
    }
    let r = match byte(input, grammar::OPEN_BRACKET) {
        Ok((rest, _)) => if levels == 0 {
            Err(Rejection::Failure(Error::from_error_kind(input, Primitive::TooLarge)))
        } else {
            match cut(multispace1(rest)) {
                Ok((rest, _)) => match cut(schematic_within(rest, levels - 1)) {
                    Ok((rest, s)) => match cut(multispace1(rest)) {
                        Ok((rest, _)) => match cut(byte(rest, grammar::CLOSE_BRACKET)) {
                            Ok((rest, _)) => Ok((rest, Embedding(s))),
                            Err(e) => Err(e),
                        },
                        Err(e) => Err(e),
                    },
                    Err(e) => Err(e),
                },
                Err(e) => Err(e),
            }
        },
        Err(e) => Err(e),
    };
    context("embedded symbol", input, r)
}

/// A whole file: a schematic in which symbols are embedded no deeper than
/// `MAX_DEPTH`, whitespace, and the end of the input.
#[verifier::rlimit(80)]
pub fn schematic_full<'a>(input: Span<'a>) -> (r: Result<Schematic<'a>, Error<'a>>)
    ensures
        match r {
            Ok(s) => grammar::schematic_full(input@) == Ok::<_, crate::error::ErrorView>(s@),
            Err(e) => grammar::schematic_full(input@) == Err::<crate::token::SchematicView, _>(e@),
        },
{
    proof {
        reveal(grammar::schematic_full);
        reveal(grammar::eof);
    }
    match schematic(input) {
        Ok((rest, s)) => match eof(multispace0(rest)) {
            Ok(_) => Ok(s),
            Err(Rejection::Error(e)) => Err(e),
            Err(Rejection::Failure(e)) => Err(e),
        },
        Err(Rejection::Error(e)) => Err(e),
        Err(Rejection::Failure(e)) => Err(e),
    }
}

} // verus!
