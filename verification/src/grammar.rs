//! The grammar of schematic files, as mathematical functions.
//!
//! Every function here takes the input that is left, a [`SpanView`], and says
//! what a parser makes of it: how many bytes it consumes and which value it
//! produces, or with which error it stops. The executable parsers of
//! [`crate::parse`] are proved to compute exactly these functions.
use vstd::prelude::*;

use crate::error::{ErrorKind, ErrorView, Primitive};
use crate::number::double_value;
use crate::span::SpanView;
use crate::token::{
    insert_pair, is_finite_bits, ArcView, ComponentView, Flip, LineView, ObjectView, PolygonView,
    PropertyView, RectangleView, Rotation, SchematicView, TextView, Vec2View, WireView,
};

verus! {

/// The tag of the version: `v`.
pub const TAG_VERSION: u8 = 0x76;

/// The tag of the VHDL property: `G`.
pub const TAG_VHDL: u8 = 0x47;

/// The tag of the symbol property: `K`.
pub const TAG_SYMBOL: u8 = 0x4b;

/// The tag of the Verilog property: `V`.
pub const TAG_VERILOG: u8 = 0x56;

/// The tag of the Spice property: `S`.
pub const TAG_SPICE: u8 = 0x53;

/// The tag of the tEDAx property: `E`.
pub const TAG_TEDAX: u8 = 0x45;

/// The tag of an arc: `A`.
pub const TAG_ARC: u8 = 0x41;

/// The tag of a component: `C`.
pub const TAG_COMPONENT: u8 = 0x43;

/// The tag of a line: `L`.
pub const TAG_LINE: u8 = 0x4c;

/// The tag of a polygon: `P`.
pub const TAG_POLYGON: u8 = 0x50;

/// The tag of a rectangle: `B`.
pub const TAG_RECTANGLE: u8 = 0x42;

/// The tag of a text: `T`.
pub const TAG_TEXT: u8 = 0x54;

/// The tag of a wire: `N`.
pub const TAG_WIRE: u8 = 0x4e;

pub const OPEN_BRACE: u8 = 0x7b;

pub const CLOSE_BRACE: u8 = 0x7d;

pub const OPEN_BRACKET: u8 = 0x5b;

pub const CLOSE_BRACKET: u8 = 0x5d;

pub const BACKSLASH: u8 = 0x5c;

pub const QUOTE: u8 = 0x22;

pub const EQUALS: u8 = 0x3d;

pub const DOT: u8 = 0x2e;

pub const PLUS: u8 = 0x2b;

pub const MINUS: u8 = 0x2d;

pub const UNDERSCORE: u8 = 0x5f;

pub const DIGIT_ZERO: u8 = 0x30;

pub const LOWER_E: u8 = 0x65;

pub const UPPER_E: u8 = 0x45;

/// What a parser makes of an input.
pub ghost enum Parsed<T> {
    /// The parser consumed the first `len` bytes of the input and produced
    /// `value`.
    Done { len: nat, value: T },
    /// The parser does not match; an alternative may.
    Error(ErrorView),
    /// The parser had committed itself and then failed.
    Failure(ErrorView),
}

impl<T> Parsed<T> {
    /// The same failure, for a parser of another type of value.
    pub open spec fn retype<U>(self) -> Parsed<U> {
        match self {
            Parsed::Error(e) => Parsed::Error(e),
            Parsed::Failure(e) => Parsed::Failure(e),
            Parsed::Done { .. } => arbitrary(),
        }
    }

    /// Commits: a mismatch becomes a failure.
    pub open spec fn cut(self) -> Parsed<T> {
        match self {
            Parsed::Error(e) => Parsed::Failure(e),
            _ => self,
        }
    }

    /// Names the part of the grammar that began at `input`: an error that
    /// passes through records the name.
    pub open spec fn context(self, input: SpanView, name: Seq<char>) -> Parsed<T> {
        match self {
            Parsed::Error(e) => Parsed::Error(e.within(input, name)),
            Parsed::Failure(e) => Parsed::Failure(e.within(input, name)),
            _ => self,
        }
    }

    /// The result of a parser that ran after `n` bytes had been consumed,
    /// seen from before those bytes.
    pub open spec fn after(self, n: nat) -> Parsed<T> {
        match self {
            Parsed::Done { len, value } => Parsed::Done { len: n + len, value },
            _ => self,
        }
    }

    /// The result with its value passed through `f`.
    pub open spec fn map<U>(self, f: spec_fn(T) -> U) -> Parsed<U> {
        match self {
            Parsed::Done { len, value } => Parsed::Done { len, value: f(value) },
            Parsed::Error(e) => Parsed::Error(e),
            Parsed::Failure(e) => Parsed::Failure(e),
        }
    }
}

/// The error of a missing byte `b` at `x`.
pub open spec fn expected(x: SpanView, b: u8) -> ErrorView {
    ErrorView::leaf(x, ErrorKind::Char(b as char))
}

/// The error of a failed primitive at `x`.
pub open spec fn failed(x: SpanView, kind: Primitive) -> ErrorView {
    ErrorView::leaf(x, ErrorKind::Nom(kind))
}

/// A class of bytes.
#[derive(Clone, Copy, Debug, PartialEq, Eq, Structural)]
pub enum ByteClass {
    /// Space and tab.
    Space,
    /// Space, tab, carriage return and line feed.
    MultiSpace,
    /// The decimal digits.
    Digit,
    /// What a key is made of: ASCII letters, digits and the underscore.
    Key,
    /// Every byte that a key is not made of.
    NotKey,
    /// What an unquoted value is made of: ASCII letters, digits and
    /// punctuation, that is, every printable ASCII character but the space.
    Value,
}

/// Whether `b` is an ASCII letter or digit.
pub open spec fn is_alphanumeric(b: u8) -> bool {
    (0x30 <= b <= 0x39) || (0x41 <= b <= 0x5a) || (0x61 <= b <= 0x7a)
}

impl ByteClass {
    /// Whether `b` belongs to the class.
    pub open spec fn has(self, b: u8) -> bool {
        match self {
            ByteClass::Space => b == 0x20 || b == 0x09,
            ByteClass::MultiSpace => b == 0x20 || b == 0x09 || b == 0x0d || b == 0x0a,
            ByteClass::Digit => 0x30 <= b <= 0x39,
            ByteClass::Key => is_alphanumeric(b) || b == UNDERSCORE,
            ByteClass::NotKey => !(is_alphanumeric(b) || b == UNDERSCORE),
            ByteClass::Value => 0x21 <= b <= 0x7e,
        }
    }
}

/// Length of the longest prefix of `x` made of bytes of `class`.
pub open spec fn run(x: SpanView, class: ByteClass) -> nat
    decreases x.len(),
{
    if x.len() > 0 && class.has(x.byte(0)) {
        1 + run(x.skip(1), class)
    } else {
        0
    }
}

/// The byte `b`.
pub open spec fn byte(x: SpanView, b: u8) -> Parsed<()> {
    if x.starts_with(b) {
        Parsed::Done { len: 1, value: () }
    } else {
        Parsed::Error(expected(x, b))
    }
}

/// One or more bytes of `class`; the value is the span of those bytes.
#[verifier::opaque]
pub open spec fn take_while1(x: SpanView, class: ByteClass, kind: Primitive) -> Parsed<SpanView> {
    let n = run(x, class);
    if n > 0 {
        Parsed::Done { len: n, value: x.take(n) }
    } else {
        Parsed::Error(failed(x, kind))
    }
}

/// Length of the whitespace at the start of `x`.
pub open spec fn gap(x: SpanView) -> nat {
    run(x, ByteClass::MultiSpace)
}

/// One or more bytes of whitespace.
#[verifier::opaque]
pub open spec fn multispace1(x: SpanView) -> Parsed<()> {
    if gap(x) > 0 {
        Parsed::Done { len: gap(x), value: () }
    } else {
        Parsed::Error(failed(x, Primitive::MultiSpace))
    }
}

/// One or more spaces or tabs.
#[verifier::opaque]
pub open spec fn space1(x: SpanView) -> Parsed<()> {
    if run(x, ByteClass::Space) > 0 {
        Parsed::Done { len: run(x, ByteClass::Space), value: () }
    } else {
        Parsed::Error(failed(x, Primitive::Space))
    }
}

/// Whitespace, then what `p` says of the input after that whitespace.
pub open spec fn spaced<T>(x: SpanView, p: Parsed<T>) -> Parsed<T> {
    if gap(x) > 0 {
        p.after(gap(x))
    } else {
        Parsed::Error(failed(x, Primitive::MultiSpace))
    }
}

/// The end of the input.
#[verifier::opaque]
pub open spec fn eof(x: SpanView) -> Parsed<()> {
    if x.len() == 0 {
        Parsed::Done { len: 0, value: () }
    } else {
        Parsed::Error(failed(x, Primitive::Eof))
    }
}

/// The number that the decimal digits `digits` denote.
pub open spec fn decimal(digits: Seq<u8>) -> nat
    decreases digits.len(),
{
    if digits.len() == 0 {
        0
    } else {
        decimal(digits.drop_last()) * 10 + (digits.last() - DIGIT_ZERO) as nat
    }
}

/// A decimal number without sign that is at most `max`: all the digits at
/// the start of `x`.
#[verifier::opaque]
pub open spec fn unsigned(x: SpanView, max: nat) -> Parsed<nat> {
    let n = run(x, ByteClass::Digit);
    if n > 0 && decimal(x.take(n).text()) <= max {
        Parsed::Done { len: n, value: decimal(x.take(n).text()) }
    } else {
        Parsed::Error(failed(x, Primitive::Digit))
    }
}

/// The number of a layer.
#[verifier::opaque]
pub open spec fn layer(x: SpanView) -> Parsed<u64> {
    unsigned(x, u64::MAX as nat).map(|n: nat| n as u64)
}

/// How many points a polygon has: a number that is at least 1. A number
/// that is 0 is an error at the number.
#[verifier::opaque]
pub open spec fn count(x: SpanView) -> Parsed<usize> {
    match unsigned(x, usize::MAX as nat) {
        Parsed::Done { len, value } => if value >= 1 {
            Parsed::Done { len, value: value as usize }
        } else {
            Parsed::Error(failed(x, Primitive::Verify))
        },
        other => other.retype(),
    }
}

/// Length of the sign at the start of `x`: 1 or 0.
pub open spec fn sign_len(x: SpanView) -> nat {
    if x.starts_with(PLUS) || x.starts_with(MINUS) {
        1
    } else {
        0
    }
}

/// The digits of a number, after its sign: digits with an optional dot and
/// further digits, or a dot and digits. The value is the number of bytes.
#[verifier::opaque]
pub open spec fn mantissa(x: SpanView) -> Parsed<()> {
    let whole = run(x, ByteClass::Digit);
    if whole > 0 {
        if x.skip(whole).starts_with(DOT) {
            Parsed::Done { len: whole + 1 + run(x.skip(whole + 1), ByteClass::Digit), value: () }
        } else {
            Parsed::Done { len: whole, value: () }
        }
    } else if x.starts_with(DOT) {
        if run(x.skip(1), ByteClass::Digit) > 0 {
            Parsed::Done { len: 1 + run(x.skip(1), ByteClass::Digit), value: () }
        } else {
            Parsed::Error(failed(x.skip(1), Primitive::Digit))
        }
    } else {
        Parsed::Error(expected(x, DOT))
    }
}

/// The exponent of a number, if there is one: `e` or `E`, an optional sign,
/// and digits. After the letter the digits are owed.
#[verifier::opaque]
pub open spec fn exponent(x: SpanView) -> Parsed<()> {
    if x.starts_with(LOWER_E) || x.starts_with(UPPER_E) {
        let s = sign_len(x.skip(1));
        let digits = run(x.skip(1 + s), ByteClass::Digit);
        if digits > 0 {
            Parsed::Done { len: 1 + s + digits, value: () }
        } else {
            Parsed::Failure(failed(x.skip(1 + s), Primitive::Digit))
        }
    } else {
        Parsed::Done { len: 0, value: () }
    }
}

/// The text of a floating-point number: an optional sign, a mantissa and an
/// optional exponent. The value is the span of the number.
#[verifier::opaque]
pub open spec fn float_shape(x: SpanView) -> Parsed<SpanView> {
    let s = sign_len(x);
    let m = mantissa(x.skip(s));
    let e = exponent(x.skip(s + m->len));
    if m !is Done {
        m.retype()
    } else if e !is Done {
        e.retype()
    } else {
        Parsed::Done { len: s + m->len + e->len, value: x.take(s + m->len + e->len) }
    }
}

/// A finite number; the value is its bit pattern. A number that is shaped
/// well and has no finite value is an error after the number.
#[verifier::opaque]
pub open spec fn finite_double(x: SpanView) -> Parsed<u64> {
    match float_shape(x) {
        Parsed::Done { len, value } => match double_value(value.text()) {
            Some(bits) => if is_finite_bits(bits) {
                Parsed::Done { len, value: bits }
            } else {
                Parsed::Error(failed(x.skip(len), Primitive::Float))
            },
            None => Parsed::Error(failed(x.skip(len), Primitive::Float)),
        },
        other => other.retype(),
    }
}

/// Two finite numbers with whitespace between them.
#[verifier::opaque]
pub open spec fn vec2(x: SpanView) -> Parsed<Vec2View> {
    let a = finite_double(x);
    let b = spaced(x.skip(a->len), finite_double(x.skip(a->len + gap(x.skip(a->len)))));
    if a !is Done {
        a.retype()
    } else if b !is Done {
        b.retype()
    } else {
        Parsed::Done { len: a->len + b->len, value: Vec2View { x: a->value, y: b->value } }
    }
}

/// A position.
#[verifier::opaque]
pub open spec fn coordinate(x: SpanView) -> Parsed<Vec2View> {
    vec2(x).context(x, "coordinate"@)
}

/// An extent.
#[verifier::opaque]
pub open spec fn size(x: SpanView) -> Parsed<Vec2View> {
    vec2(x).context(x, "size"@)
}

/// A rotation: one of the digits 0 to 3.
#[verifier::opaque]
pub open spec fn rotation(x: SpanView) -> Parsed<Rotation> {
    (if x.starts_with(0x30) {
        Parsed::Done { len: 1, value: Rotation::Zero }
    } else if x.starts_with(0x31) {
        Parsed::Done { len: 1, value: Rotation::One }
    } else if x.starts_with(0x32) {
        Parsed::Done { len: 1, value: Rotation::Two }
    } else if x.starts_with(0x33) {
        Parsed::Done { len: 1, value: Rotation::Three }
    } else {
        Parsed::Error(expected(x, 0x33))
    }).context(x, "rotation"@)
}

/// A flip: the digit 0 or 1.
#[verifier::opaque]
pub open spec fn flip(x: SpanView) -> Parsed<Flip> {
    (if x.starts_with(0x30) {
        Parsed::Done { len: 1, value: Flip::Unflipped }
    } else if x.starts_with(0x31) {
        Parsed::Done { len: 1, value: Flip::Flipped }
    } else {
        Parsed::Error(expected(x, 0x31))
    }).context(x, "flip"@)
}

/// The two escape disciplines of the format.
#[derive(Clone, Copy, Debug, PartialEq, Eq, Structural)]
pub enum Quoting {
    /// Inside braces: a backslash, `{` and `}` are special; a backslash may
    /// be followed by any of the three.
    Property,
    /// Inside a quoted value: a backslash and `"` are special; a backslash
    /// may be followed by a backslash and a quote, by a quote, by a
    /// backslash, by `{` or by `}`.
    Value,
}

impl Quoting {
    /// Whether `b` is ordinary text.
    pub open spec fn is_normal(self, b: u8) -> bool {
        match self {
            Quoting::Property => b != BACKSLASH && b != OPEN_BRACE && b != CLOSE_BRACE,
            Quoting::Value => b != BACKSLASH && b != QUOTE,
        }
    }

    /// Length of what may stand after a backslash at the start of `x`, or 0
    /// where nothing that stands there may be escaped. In a value, a
    /// backslash and a quote are taken together before a backslash is taken
    /// alone.
    pub open spec fn escapable(self, x: SpanView) -> nat {
        if self == Quoting::Value && x.len() >= 2 && x.byte(0) == BACKSLASH && x.byte(1) == QUOTE {
            2
        } else if self == Quoting::Value && x.len() >= 1 && x.byte(0) == QUOTE {
            1
        } else if x.len() >= 1 && (x.byte(0) == BACKSLASH || x.byte(0) == OPEN_BRACE || x.byte(0)
            == CLOSE_BRACE) {
            1
        } else {
            0
        }
    }
}

/// Escaped text, scanned as far as `at` bytes into `x`: ordinary bytes and
/// escape sequences up to the first special byte that is not a backslash, or
/// to the end of `x`. The value is the span of the text. A backslash that is
/// the last byte of `x` is an error at the start of `x`; a backslash before
/// anything that may not be escaped is an error at the backslash.
pub open spec fn escaped_from(x: SpanView, q: Quoting, at: nat) -> Parsed<SpanView>
    decreases x.len() - at,
{
    if at >= x.len() {
        Parsed::Done { len: x.len(), value: x }
    } else if q.is_normal(x.byte(at as int)) {
        escaped_from(x, q, at + 1)
    } else if x.byte(at as int) != BACKSLASH {
        Parsed::Done { len: at, value: x.take(at) }
    } else if at + 1 >= x.len() {
        Parsed::Error(failed(x, Primitive::Escaped))
    } else if q.escapable(x.skip(at + 1)) == 0 {
        Parsed::Error(failed(x.skip(at), Primitive::Escaped))
    } else {
        escaped_from(x, q, at + 1 + q.escapable(x.skip(at + 1)))
    }
}

/// Escaped text at the start of `x`.
#[verifier::opaque]
pub open spec fn escaped0(x: SpanView, q: Quoting) -> Parsed<SpanView> {
    escaped_from(x, q, 0)
}

/// The text of a property, a text or a reference: everything up to the first
/// brace that is not escaped.
#[verifier::opaque]
pub open spec fn property_string(x: SpanView) -> Parsed<SpanView> {
    escaped0(x, Quoting::Property)
}

/// `{`, a property string named `name`, and `}`. After the `{` the parser is
/// committed.
#[verifier::opaque]
pub open spec fn brace_enclosed(x: SpanView, name: Seq<char>) -> Parsed<SpanView> {
    if !x.starts_with(OPEN_BRACE) {
        Parsed::Error(expected(x, OPEN_BRACE))
    } else {
        match property_string(x.skip(1)).context(x.skip(1), name) {
            Parsed::Done { len, value } => if x.skip(1 + len).starts_with(CLOSE_BRACE) {
                Parsed::Done { len: len + 2, value }
            } else {
                Parsed::Failure(expected(x.skip(1 + len), CLOSE_BRACE))
            },
            Parsed::Error(e) => Parsed::Failure(e),
            Parsed::Failure(e) => Parsed::Failure(e),
        }
    }
}

/// The body of a text object.
#[verifier::opaque]
pub open spec fn text(x: SpanView) -> Parsed<SpanView> {
    brace_enclosed(x, "text"@)
}

/// The file name of a symbol.
#[verifier::opaque]
pub open spec fn reference(x: SpanView) -> Parsed<SpanView> {
    brace_enclosed(x, "reference"@)
}

/// The key of an attribute.
#[verifier::opaque]
pub open spec fn key(x: SpanView) -> Parsed<SpanView> {
    take_while1(x, ByteClass::Key, Primitive::TakeWhile1).context(x, "key"@)
}

/// The value of an attribute: quoted, with escapes, or a run of printable
/// characters. The value of a quoted value is the span between the quotes.
/// After the opening quote the parser is committed.
#[verifier::opaque]
pub open spec fn value(x: SpanView) -> Parsed<SpanView> {
    (if x.starts_with(QUOTE) {
        match escaped0(x.skip(1), Quoting::Value) {
            Parsed::Done { len, value } => if x.skip(1 + len).starts_with(QUOTE) {
                Parsed::Done { len: len + 2, value }
            } else {
                Parsed::Failure(expected(x.skip(1 + len), QUOTE))
            },
            Parsed::Error(e) => Parsed::Failure(e),
            Parsed::Failure(e) => Parsed::Failure(e),
        }
    } else {
        take_while1(x, ByteClass::Value, Primitive::TakeWhile1)
    }).context(x, "value"@)
}

/// An attribute: a key, `=`, and a value.
#[verifier::opaque]
pub open spec fn key_value(x: SpanView) -> Parsed<(SpanView, SpanView)> {
    let k = key(x);
    let v = value(x.skip(k->len + 1));
    (if k !is Done {
        k.retype()
    } else if !x.skip(k->len).starts_with(EQUALS) {
        Parsed::Error(expected(x.skip(k->len), EQUALS))
    } else if v !is Done {
        v.retype()
    } else {
        Parsed::Done { len: k->len + 1 + v->len, value: (k->value, v->value) }
    }).context(x, "key_value"@)
}

/// The pairs `found` with the pair `pair` inserted.
pub open spec fn insert_pair_of(
    found: Seq<(SpanView, SpanView)>,
    pair: (SpanView, SpanView),
) -> Seq<(SpanView, SpanView)> {
    insert_pair(found, pair.0, pair.1)
}

/// The attributes in `x`, added to `found`. Scanning skips what cannot start
/// a key, tries an attribute, and where none matches goes on from the place
/// of the mismatch. Only a failure that a parser had committed to ends it
/// before the end of `x`.
pub open spec fn attributes_from(x: SpanView, found: Seq<(SpanView, SpanView)>) -> Parsed<
    Seq<(SpanView, SpanView)>,
>
    decreases x.len(),
{
    if x.len() == 0 {
        Parsed::Done { len: 0, value: found }
    } else {
        let skipped = run(x, ByteClass::NotKey);
        proof {
            reveal(key_value);
            reveal(key);
            reveal(value);
            reveal(take_while1);
        }
        match key_value(x.skip(skipped)) {
            Parsed::Done { len, value } => attributes_from(
                x.skip(skipped + len),
                insert_pair_of(found, value),
            ).after(skipped + len),
            Parsed::Error(e) => attributes_from(e.err.input, found).after(
                (e.err.input.start - x.start) as nat,
            ),
            Parsed::Failure(e) => Parsed::Failure(e),
        }
    }
}

/// The attributes in `x`.
#[verifier::opaque]
pub open spec fn attributes(x: SpanView) -> Parsed<Seq<(SpanView, SpanView)>> {
    attributes_from(x, Seq::empty())
}

/// A property: a property string in braces, and the attributes found in
/// that string.
#[verifier::opaque]
pub open spec fn property(x: SpanView) -> Parsed<PropertyView> {
    match brace_enclosed(x, "property"@) {
        Parsed::Done { len, value } => match attributes(value) {
            Parsed::Done { value: attrs, .. } => Parsed::Done {
                len,
                value: PropertyView { prop: value, attrs },
            },
            other => other.retype(),
        },
        other => other.retype(),
    }
}

/// An object: its tag `tag` and then `body`, which is what the parser of the
/// fields says of the input after the tag. After the tag the parser is
/// committed. The whole is named `name`.
pub open spec fn object<T>(x: SpanView, tag: u8, name: Seq<char>, body: Parsed<T>) -> Parsed<T> {
    (if x.starts_with(tag) {
        body.cut().after(1)
    } else {
        Parsed::Error(expected(x, tag))
    }).context(x, name)
}

/// Whitespace and a layer.
#[verifier::opaque]
pub open spec fn spaced_layer(x: SpanView) -> Parsed<u64> {
    spaced(x, layer(x.skip(gap(x))))
}

/// Whitespace and a position.
#[verifier::opaque]
pub open spec fn spaced_coordinate(x: SpanView) -> Parsed<Vec2View> {
    spaced(x, coordinate(x.skip(gap(x))))
}

/// Whitespace and a finite number.
#[verifier::opaque]
pub open spec fn spaced_double(x: SpanView) -> Parsed<u64> {
    spaced(x, finite_double(x.skip(gap(x))))
}

/// Whitespace and a property.
#[verifier::opaque]
pub open spec fn spaced_property(x: SpanView) -> Parsed<PropertyView> {
    spaced(x, property(x.skip(gap(x))))
}

/// Whitespace and a rotation.
#[verifier::opaque]
pub open spec fn spaced_rotation(x: SpanView) -> Parsed<Rotation> {
    spaced(x, rotation(x.skip(gap(x))))
}

/// Whitespace and a flip.
#[verifier::opaque]
pub open spec fn spaced_flip(x: SpanView) -> Parsed<Flip> {
    spaced(x, flip(x.skip(gap(x))))
}

/// The version: `v` and a property.
#[verifier::opaque]
pub open spec fn version_object(x: SpanView) -> Parsed<PropertyView> {
    object(x, TAG_VERSION, "version"@, spaced_property(x.skip(1)))
}

/// A property of the schematic as a whole: its tag and a property.
#[verifier::opaque]
pub open spec fn property_object(x: SpanView, tag: u8) -> Parsed<PropertyView> {
    object(x, tag, "global property"@, spaced_property(x.skip(1)))
}

/// The fields of an arc.
#[verifier::opaque]
pub open spec fn arc_fields(x: SpanView) -> Parsed<ArcView> {
    let a = spaced_layer(x);
    let b = spaced_coordinate(x.skip(a->len));
    let c = spaced_double(x.skip(a->len + b->len));
    let d = spaced_double(x.skip(a->len + b->len + c->len));
    let e = spaced_double(x.skip(a->len + b->len + c->len + d->len));
    let f = spaced_property(x.skip(a->len + b->len + c->len + d->len + e->len));
    if a !is Done {
        a.retype()
    } else if b !is Done {
        b.retype()
    } else if c !is Done {
        c.retype()
    } else if d !is Done {
        d.retype()
    } else if e !is Done {
        e.retype()
    } else if f !is Done {
        f.retype()
    } else {
        Parsed::Done {
            len: a->len + b->len + c->len + d->len + e->len + f->len,
            value: ArcView {
                layer: a->value,
                center: b->value,
                radius: c->value,
                start_angle: d->value,
                sweep_angle: e->value,
                property: f->value,
            },
        }
    }
}

/// An arc: `A`, a layer, the centre, the radius, the two angles and a
/// property.
#[verifier::opaque]
pub open spec fn arc_object(x: SpanView) -> Parsed<ArcView> {
    object(x, TAG_ARC, "arc"@, arc_fields(x.skip(1)))
}

/// The fields of a line or of a rectangle: a layer, two positions and a
/// property.
#[verifier::opaque]
pub open spec fn box_fields(x: SpanView) -> Parsed<(u64, Vec2View, Vec2View, PropertyView)> {
    let a = spaced_layer(x);
    let b = spaced_coordinate(x.skip(a->len));
    let c = spaced_coordinate(x.skip(a->len + b->len));
    let d = spaced_property(x.skip(a->len + b->len + c->len));
    if a !is Done {
        a.retype()
    } else if b !is Done {
        b.retype()
    } else if c !is Done {
        c.retype()
    } else if d !is Done {
        d.retype()
    } else {
        Parsed::Done {
            len: a->len + b->len + c->len + d->len,
            value: (a->value, b->value, c->value, d->value),
        }
    }
}

/// A line: `L`, a layer, two positions and a property.
#[verifier::opaque]
pub open spec fn line_object(x: SpanView) -> Parsed<LineView> {
    object(
        x,
        TAG_LINE,
        "line"@,
        box_fields(x.skip(1)).map(
            |f: (u64, Vec2View, Vec2View, PropertyView)|
                LineView { layer: f.0, start: f.1, end: f.2, property: f.3 },
        ),
    )
}

/// A rectangle: `B`, a layer, two positions and a property.
#[verifier::opaque]
pub open spec fn rectangle_object(x: SpanView) -> Parsed<RectangleView> {
    object(
        x,
        TAG_RECTANGLE,
        "rectangle"@,
        box_fields(x.skip(1)).map(
            |f: (u64, Vec2View, Vec2View, PropertyView)|
                RectangleView { layer: f.0, start: f.1, end: f.2, property: f.3 },
        ),
    )
}

/// A point of a polygon: spaces or tabs, and a position.
#[verifier::opaque]
pub open spec fn point(x: SpanView) -> Parsed<Vec2View> {
    if run(x, ByteClass::Space) > 0 {
        coordinate(x.skip(run(x, ByteClass::Space))).after(run(x, ByteClass::Space))
    } else {
        Parsed::Error(failed(x, Primitive::Space))
    }
}

/// `n` more points, added to `found`.
pub open spec fn points_from(x: SpanView, n: nat, found: Seq<Vec2View>) -> Parsed<Seq<Vec2View>>
    decreases n,
{
    if n == 0 {
        Parsed::Done { len: 0, value: found }
    } else {
        match point(x) {
            Parsed::Done { len, value } => points_from(
                x.skip(len),
                (n - 1) as nat,
                found.push(value),
            ).after(len),
            other => other.retype(),
        }
    }
}

/// The points of a polygon: their number, and as many points.
#[verifier::opaque]
pub open spec fn points(x: SpanView) -> Parsed<Seq<Vec2View>> {
    match count(x) {
        Parsed::Done { len, value } => points_from(
            x.skip(len),
            value as nat,
            Seq::empty(),
        ).after(len),
        other => other.retype(),
    }
}

/// The fields of a polygon.
#[verifier::opaque]
pub open spec fn polygon_fields(x: SpanView) -> Parsed<PolygonView> {
    let a = spaced_layer(x);
    let b = spaced(x.skip(a->len), points(x.skip(a->len + gap(x.skip(a->len)))));
    let c = spaced_property(x.skip(a->len + b->len));
    if a !is Done {
        a.retype()
    } else if b !is Done {
        b.retype()
    } else if c !is Done {
        c.retype()
    } else {
        Parsed::Done {
            len: a->len + b->len + c->len,
            value: PolygonView { layer: a->value, points: b->value, property: c->value },
        }
    }
}

/// A polygon: `P`, a layer, the number of points, which is not 0, as many
/// points, and a property.
#[verifier::opaque]
pub open spec fn polygon_object(x: SpanView) -> Parsed<PolygonView> {
    object(x, TAG_POLYGON, "polygon"@, polygon_fields(x.skip(1)))
}

/// The fields of a text.
#[verifier::opaque]
pub open spec fn text_fields(x: SpanView) -> Parsed<TextView> {
    let a = spaced(x, text(x.skip(gap(x))));
    let b = spaced_coordinate(x.skip(a->len));
    let c = spaced_rotation(x.skip(a->len + b->len));
    let d = spaced_flip(x.skip(a->len + b->len + c->len));
    let e = spaced(
        x.skip(a->len + b->len + c->len + d->len),
        size(
            x.skip(
                a->len + b->len + c->len + d->len + gap(x.skip(a->len + b->len + c->len + d->len)),
            ),
        ),
    );
    let f = spaced_property(x.skip(a->len + b->len + c->len + d->len + e->len));
    if a !is Done {
        a.retype()
    } else if b !is Done {
        b.retype()
    } else if c !is Done {
        c.retype()
    } else if d !is Done {
        d.retype()
    } else if e !is Done {
        e.retype()
    } else if f !is Done {
        f.retype()
    } else {
        Parsed::Done {
            len: a->len + b->len + c->len + d->len + e->len + f->len,
            value: TextView {
                text: a->value,
                position: b->value,
                rotation: c->value,
                flip: d->value,
                size: e->value,
                property: f->value,
            },
        }
    }
}

/// A text: `T`, the text in braces, a position, a rotation, a flip, a size
/// and a property.
#[verifier::opaque]
pub open spec fn text_object(x: SpanView) -> Parsed<TextView> {
    object(x, TAG_TEXT, "text"@, text_fields(x.skip(1)))
}

/// The fields of a wire.
#[verifier::opaque]
pub open spec fn wire_fields(x: SpanView) -> Parsed<WireView> {
    let a = spaced_coordinate(x);
    let b = spaced_coordinate(x.skip(a->len));
    let c = spaced_property(x.skip(a->len + b->len));
    if a !is Done {
        a.retype()
    } else if b !is Done {
        b.retype()
    } else if c !is Done {
        c.retype()
    } else {
        Parsed::Done {
            len: a->len + b->len + c->len,
            value: WireView { start: a->value, end: b->value, property: c->value },
        }
    }
}

/// A wire: `N`, two positions and a property.
#[verifier::opaque]
pub open spec fn wire_object(x: SpanView) -> Parsed<WireView> {
    object(x, TAG_WIRE, "wire"@, wire_fields(x.skip(1)))
}

/// How deep symbols may be embedded in one another.
pub const MAX_DEPTH: usize = 64;

/// A schematic: whitespace, the version, and objects, each after
/// whitespace, as far as they go. Symbols may be embedded in it `levels`
/// deep.
pub open spec fn schematic(x: SpanView, levels: nat) -> Parsed<SchematicView>
    decreases x.len(), 6int,
{
    match version_object(x.skip(gap(x))) {
        Parsed::Done { len, value } => objects_from(
            x.skip(gap(x) + len),
            SchematicView::new(value),
            levels,
        ).after(gap(x) + len),
        other => other.retype(),
    }
}

/// The objects in `x`, each after whitespace, taken into `held` one after
/// the other. Where whitespace or an object does not match, the objects end
/// before that whitespace.
pub open spec fn objects_from(x: SpanView, held: SchematicView, levels: nat) -> Parsed<
    SchematicView,
>
    decreases x.len(), 5int,
{
    if gap(x) == 0 {
        Parsed::Done { len: 0, value: held }
    } else {
        match any_object(x.skip(gap(x)), levels) {
            Parsed::Done { len, value } => if x.skip(gap(x) + len).len() < x.len() {
                objects_from(x.skip(gap(x) + len), held.add_object(value), levels).after(
                    gap(x) + len,
                )
            } else {
                Parsed::Error(failed(x, Primitive::Many0))
            },
            Parsed::Error(_) => Parsed::Done { len: 0, value: held },
            Parsed::Failure(e) => Parsed::Failure(e),
        }
    }
}

/// Any object but the version. The tag decides which; where no tag matches,
/// the error is that of the object tried last, the wire.
pub open spec fn any_object(x: SpanView, levels: nat) -> Parsed<ObjectView>
    decreases x.len(), 4int,
{
    if x.starts_with(TAG_VHDL) {
        property_object(x, TAG_VHDL).map(|p: PropertyView| ObjectView::VhdlProperty(p))
    } else if x.starts_with(TAG_SYMBOL) {
        property_object(x, TAG_SYMBOL).map(|p: PropertyView| ObjectView::SymbolProperty(p))
    } else if x.starts_with(TAG_VERILOG) {
        property_object(x, TAG_VERILOG).map(|p: PropertyView| ObjectView::VerilogProperty(p))
    } else if x.starts_with(TAG_SPICE) {
        property_object(x, TAG_SPICE).map(|p: PropertyView| ObjectView::SpiceProperty(p))
    } else if x.starts_with(TAG_TEDAX) {
        property_object(x, TAG_TEDAX).map(|p: PropertyView| ObjectView::TedaXProperty(p))
    } else if x.starts_with(TAG_ARC) {
        arc_object(x).map(|o: ArcView| ObjectView::Arc(o))
    } else if x.starts_with(TAG_COMPONENT) {
        component_instance(x, levels).map(|o: ComponentView| ObjectView::Component(o))
    } else if x.starts_with(TAG_LINE) {
        line_object(x).map(|o: LineView| ObjectView::Line(o))
    } else if x.starts_with(TAG_POLYGON) {
        polygon_object(x).map(|o: PolygonView| ObjectView::Polygon(o))
    } else if x.starts_with(TAG_RECTANGLE) {
        rectangle_object(x).map(|o: RectangleView| ObjectView::Rectangle(o))
    } else if x.starts_with(TAG_TEXT) {
        text_object(x).map(|o: TextView| ObjectView::Text(o))
    } else {
        wire_object(x).map(|o: WireView| ObjectView::Wire(o))
    }
}

/// A component: `C`, the reference in braces, a position, a rotation, a
/// flip, a property and, where one follows, the embedded symbol.
pub open spec fn component_instance(x: SpanView, levels: nat) -> Parsed<ComponentView>
    decreases x.len(), 3int,
{
    object(x, TAG_COMPONENT, "component"@, component_fields(x.skip(1), levels))
}

/// The fields of a component.
pub open spec fn component_fields(x: SpanView, levels: nat) -> Parsed<ComponentView>
    decreases x.len(), 2int,
{
    let a = spaced(x, reference(x.skip(gap(x))));
    let b = spaced_coordinate(x.skip(a->len));
    let c = spaced_rotation(x.skip(a->len + b->len));
    let d = spaced_flip(x.skip(a->len + b->len + c->len));
    let e = spaced_property(x.skip(a->len + b->len + c->len + d->len));
    let f = embedded(x.skip(a->len + b->len + c->len + d->len + e->len), levels);
    if a !is Done {
        a.retype()
    } else if b !is Done {
        b.retype()
    } else if c !is Done {
        c.retype()
    } else if d !is Done {
        d.retype()
    } else if e !is Done {
        e.retype()
    } else if f !is Done {
        f.retype()
    } else {
        Parsed::Done {
            len: a->len + b->len + c->len + d->len + e->len + f->len,
            value: ComponentView {
                reference: a->value,
                position: b->value,
                rotation: c->value,
                flip: d->value,
                property: e->value,
                embedding: f->value,
            },
        }
    }
}

/// Whitespace and an embedded symbol, or nothing where none follows.
pub open spec fn embedded(x: SpanView, levels: nat) -> Parsed<Option<SchematicView>>
    decreases x.len(), 1int,
{
    match spaced(x, embedding(x.skip(gap(x)), levels)) {
        Parsed::Done { len, value } => Parsed::Done { len, value: Some(value) },
        Parsed::Error(_) => Parsed::Done { len: 0, value: None },
        Parsed::Failure(e) => Parsed::Failure(e),
    }
}

/// An embedded symbol: `[`, whitespace, a schematic, whitespace and `]`.
/// After the `[` the parser is committed. Where no level is left, the `[`
/// is one too many: a failure at the `[`. In the symbol, symbols may be
/// embedded one level less deep.
pub open spec fn embedding(x: SpanView, levels: nat) -> Parsed<SchematicView>
    decreases x.len(), 0int,
{
    (if x.starts_with(OPEN_BRACKET) {
        let before = 1 + gap(x.skip(1));
        if levels == 0 {
            Parsed::Failure(failed(x, Primitive::TooLarge))
        } else if gap(x.skip(1)) == 0 {
            Parsed::Failure(failed(x.skip(1), Primitive::MultiSpace))
        } else {
            match schematic(x.skip(before), (levels - 1) as nat) {
                Parsed::Done { len, value } => {
                    let after = gap(x.skip(before + len));
                    if after == 0 {
                        Parsed::Failure(failed(x.skip(before + len), Primitive::MultiSpace))
                    } else if x.skip(before + len + after).starts_with(CLOSE_BRACKET) {
                        Parsed::Done { len: before + len + after + 1, value }
                    } else {
                        Parsed::Failure(expected(x.skip(before + len + after), CLOSE_BRACKET))
                    }
                },
                Parsed::Error(e) => Parsed::Failure(e),
                Parsed::Failure(e) => Parsed::Failure(e),
            }
        }
    } else {
        Parsed::Error(expected(x, OPEN_BRACKET))
    }).context(x, "embedded symbol"@)
}

/// A whole file: a schematic in which symbols are embedded no deeper than
/// `MAX_DEPTH`, whitespace, and the end of the input.
#[verifier::opaque]
pub open spec fn schematic_full(x: SpanView) -> Result<SchematicView, ErrorView> {
    match schematic(x, MAX_DEPTH as nat) {
        Parsed::Done { len, value } => {
            let end = x.skip(len + gap(x.skip(len)));
            if end.len() == 0 {
                Ok(value)
            } else {
                Err(failed(end, Primitive::Eof))
            }
        },
        Parsed::Error(e) => Err(e),
        Parsed::Failure(e) => Err(e),
    }
}

} // verus!
