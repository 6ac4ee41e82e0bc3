//! The text of a parsed schematic parses back to the same schematic.
use vstd::prelude::*;
use vstd::std_specs::cmp::PartialEqSpec;

use crate::fidelity::{
    arc_faithful, component_faithful, line_faithful, object_faithful, points_faithful,
    polygon_faithful, prints_faithfully, rectangle_faithful, schematic_faithful, text_faithful,
    vec2_faithful, wire_faithful,
};
use crate::grammar;
use crate::grammar::{ByteClass, Parsed, Quoting, CLOSE_BRACE, OPEN_BRACE};
use crate::laws::{
    agree, anchored, arc_sound, closed, component_nests, component_sound, lemma_escaped,
    lemma_escaped_agree, lemma_key_value, lemma_taken_first, line_sound, object_nests,
    object_sound, polygon_sound, property_sound, rectangle_sound, schematic_nests,
    schematic_sound, taken, text_sound, wire_sound,
};
use crate::number::double_text;
use crate::parse::lemma_run;
use crate::render::{
    arc_text, component_text, component_texts, embedding_text, flip_text, instance_text, joined,
    line_text, points_text, polygon_text, primitives_text, properties_text, property_text,
    rectangle_text, rotation_text, schematic_text, section, slot_text, tagged_text, text_text,
    unsigned_text, vec2_text, wire_text, SPACE,
};
use crate::span::{SpanView, NEWLINE};
use crate::token::{
    component_equal, components_equal, distinct_keys, is_finite_bits, key_index, key_index_from,
    lemma_components_view, lemma_key_index, same_attributes, schematic_equal, ArcView, Component,
    ComponentView, Flip, LineView, ObjectView, PolygonView, PropertyView, RectangleView,
    Rotation, Schematic, SchematicView, TextView, Vec2View, WireView,
};

verus! {

/// The input `y` begins with the bytes `t`.
pub open spec fn begins(y: SpanView, t: Seq<u8>) -> bool {
    t.len() <= y.len() && forall|i: int| 0 <= i < t.len() ==> y.byte(i) == #[trigger] t[i]
}

/// An input that begins with `a + b` begins with `a`, and after `a` it
/// begins with `b`.
pub proof fn lemma_begins_split(y: SpanView, a: Seq<u8>, b: Seq<u8>)
    requires
        begins(y, a + b),
    ensures
        begins(y, a),
        begins(y.skip(a.len()), b),
{
    assert forall|i: int| 0 <= i < a.len() implies y.byte(i) == #[trigger] a[i] by {
        assert((a + b)[i] == a[i]);
    }
    assert forall|i: int| 0 <= i < b.len() implies y.skip(a.len()).byte(i) == #[trigger] b[i] by {
        assert((a + b)[a.len() + i] == b[i]);
    }
}

/// An input that begins with bytes of a class, after which it ends or goes
/// on with a byte that is not of the class, has these bytes as its run.
pub proof fn lemma_run_begins(y: SpanView, t: Seq<u8>, class: ByteClass)
    requires
        begins(y, t),
        forall|i: int| 0 <= i < t.len() ==> class.has(#[trigger] t[i]),
        y.len() == t.len() || !class.has(y.byte(t.len() as int)),
    ensures
        grammar::run(y, class) == t.len(),
    decreases t.len(),
{
    if t.len() > 0 {
        let rest = t.drop_first();
        assert(y.byte(0) == t[0]);
        assert forall|i: int| 0 <= i < rest.len() implies y.skip(1).byte(i) == #[trigger] rest[i] by {
            assert(y.byte(i + 1) == t[i + 1]);
        }
        assert forall|i: int| 0 <= i < rest.len() implies class.has(#[trigger] rest[i]) by {
            assert(class.has(t[i + 1]));
        }
        assert(y.skip(1).byte(rest.len() as int) == y.byte(t.len() as int));
        lemma_run_begins(y.skip(1), rest, class);
    }
}

/// Two inputs with the same first `k` bytes have the same run, if that of
/// one of them ends before the `k`-th byte.
pub proof fn lemma_run_agree(y: SpanView, z: SpanView, class: ByteClass, k: nat)
    requires
        agree(y, z, k),
        grammar::run(z, class) < k,
    ensures
        grammar::run(y, class) == grammar::run(z, class),
    decreases k,
{
    assert(y.byte(0) == z.byte(0));
    if class.has(z.byte(0)) {
        assert forall|i: int| 0 <= i < k - 1 implies #[trigger] y.skip(1).byte(i) == z.skip(1).byte(
            i,
        ) by {
            assert(y.byte(i + 1) == z.byte(i + 1));
        }
        lemma_run_agree(y.skip(1), z.skip(1), class, (k - 1) as nat);
    }
}

/// What is left of two inputs with the same first `k` bytes, after `n` of
/// them, has the same first `k - n` bytes.
pub proof fn lemma_agree_skip(y: SpanView, z: SpanView, k: nat, n: nat)
    requires
        agree(y, z, k),
        n <= k,
    ensures
        agree(y.skip(n), z.skip(n), (k - n) as nat),
{
    assert forall|i: int| 0 <= i < k - n implies #[trigger] y.skip(n).byte(i) == z.skip(n).byte(
        i,
    ) by {
        assert(y.byte(i + n) == z.byte(i + n));
    }
}

/// An input that begins with `t` has the same first bytes as `t` itself.
pub proof fn lemma_begins_agree(y: SpanView, t: Seq<u8>)
    requires
        begins(y, t),
    ensures
        agree(y, SpanView::whole(t), t.len()),
{
    let z = SpanView::whole(t);
    assert forall|i: int| 0 <= i < t.len() implies #[trigger] y.byte(i) == z.byte(i) by {
        assert(y.byte(i) == t[i]);
    }
}

/// The digits of a number are digits, at least one, and denote the number.
pub proof fn lemma_unsigned_text(n: nat)
    ensures
        unsigned_text(n).len() >= 1,
        forall|i: int|
            0 <= i < unsigned_text(n).len() ==> ByteClass::Digit.has(#[trigger] unsigned_text(n)[i]),
        grammar::decimal(unsigned_text(n)) == n,
    decreases n,
{
    let t = unsigned_text(n);
    if n < 10 {
        assert(t.drop_last() =~= Seq::<u8>::empty());
        assert(grammar::decimal(t.drop_last()) == 0);
    } else {
        lemma_unsigned_text(n / 10);
        assert(t.drop_last() =~= unsigned_text(n / 10));
    }
}

/// A number without sign, written out and followed by something that is no
/// digit, is read back.
pub proof fn lemma_unsigned_back(y: SpanView, n: nat, max: nat)
    requires
        y.wf(),
        begins(y, unsigned_text(n)),
        y.len() == unsigned_text(n).len() || !ByteClass::Digit.has(
            y.byte(unsigned_text(n).len() as int),
        ),
        n <= max,
    ensures
        grammar::unsigned(y, max) == (Parsed::Done { len: unsigned_text(n).len(), value: n }),
{
    reveal(grammar::unsigned);
    let t = unsigned_text(n);
    lemma_unsigned_text(n);
    lemma_run_begins(y, t, ByteClass::Digit);
    assert(y.take(t.len()).text() =~= t) by {
        assert forall|i: int| 0 <= i < t.len() implies y.take(t.len()).text()[i] == t[i] by {
            assert(y.byte(i) == t[i]);
        }
    }
}

/// Where the text of a number begins, something other than whitespace
/// stands.
pub proof fn lemma_float_first(z: SpanView)
    requires
        grammar::float_shape(z) is Done,
    ensures
        z.len() > 0,
        !ByteClass::MultiSpace.has(z.byte(0)),
        grammar::float_shape(z)->len >= 1,
{
    reveal(grammar::float_shape);
    reveal(grammar::mantissa);
    reveal(grammar::exponent);
    let s = grammar::sign_len(z);
    let x = z.skip(s);
    if grammar::run(x, ByteClass::Digit) > 0 {
        assert(x.len() > 0);
    }
}

/// Two inputs with the same first `k` bytes have numbers of the same shape
/// at their start, if that of one of them ends before the `k`-th byte.
pub proof fn lemma_float_shape_agree(y: SpanView, z: SpanView, k: nat)
    requires
        y.wf(),
        z.wf(),
        agree(y, z, k),
        grammar::float_shape(z) is Done,
        grammar::float_shape(z)->len < k,
    ensures
        grammar::float_shape(y) == (Parsed::Done {
            len: grammar::float_shape(z)->len,
            value: y.take(grammar::float_shape(z)->len),
        }),
{
    reveal(grammar::float_shape);
    reveal(grammar::mantissa);
    reveal(grammar::exponent);
    let n = grammar::float_shape(z)->len;
    let s = grammar::sign_len(z);
    assert(y.byte(0) == z.byte(0));
    assert(grammar::sign_len(y) == s);
    let ym = y.skip(s);
    let zm = z.skip(s);
    lemma_agree_skip(y, z, k, s);
    let whole = grammar::run(zm, ByteClass::Digit);
    lemma_run(zm, ByteClass::Digit);
    let m = grammar::mantissa(zm)->len;
    if whole > 0 {
        lemma_run_agree(ym, zm, ByteClass::Digit, (k - s) as nat);
        assert(ym.skip(whole).byte(0) == ym.byte(whole as int));
        assert(zm.skip(whole).byte(0) == zm.byte(whole as int));
        assert(ym.byte(whole as int) == zm.byte(whole as int));
        if zm.skip(whole).starts_with(grammar::DOT) {
            lemma_agree_skip(ym, zm, (k - s) as nat, whole + 1);
            lemma_run_agree(
                ym.skip(whole + 1),
                zm.skip(whole + 1),
                ByteClass::Digit,
                (k - s - whole - 1) as nat,
            );
        }
    } else {
        lemma_run_agree(ym, zm, ByteClass::Digit, (k - s) as nat);
        assert(ym.byte(0) == zm.byte(0));
        lemma_agree_skip(ym, zm, (k - s) as nat, 1);
        lemma_run_agree(ym.skip(1), zm.skip(1), ByteClass::Digit, (k - s - 1) as nat);
    }
    assert(grammar::mantissa(ym) == grammar::mantissa(zm));
    let ye = y.skip(s + m);
    let ze = z.skip(s + m);
    lemma_agree_skip(y, z, k, s + m);
    assert(ye.byte(0) == ze.byte(0));
    if ze.starts_with(grammar::LOWER_E) || ze.starts_with(grammar::UPPER_E) {
        lemma_agree_skip(ye, ze, (k - s - m) as nat, 1);
        assert(ye.skip(1).byte(0) == ze.skip(1).byte(0));
        let g = grammar::sign_len(ze.skip(1));
        assert(grammar::sign_len(ye.skip(1)) == g);
        lemma_agree_skip(ye, ze, (k - s - m) as nat, 1 + g);
        lemma_run_agree(
            ye.skip(1 + g),
            ze.skip(1 + g),
            ByteClass::Digit,
            (k - s - m - 1 - g) as nat,
        );
    }
    assert(grammar::exponent(ye) == grammar::exponent(ze));
}

/// A finite number that is written faithfully, written out and followed by a
/// space, is read back.
pub proof fn lemma_double_back(y: SpanView, bits: u64)
    requires
        y.wf(),
        begins(y, double_text(bits) + seq![SPACE]),
        is_finite_bits(bits),
        prints_faithfully(bits),
    ensures
        grammar::finite_double(y) == (Parsed::Done { len: double_text(bits).len(), value: bits }),
        double_text(bits).len() >= 1,
        !ByteClass::MultiSpace.has(y.byte(0)),
{
    reveal(grammar::finite_double);
    let t = double_text(bits);
    let z = SpanView::whole(t + seq![SPACE]);
    lemma_begins_agree(y, t + seq![SPACE]);
    lemma_float_shape_agree(y, z, t.len() + 1);
    lemma_float_first(z);
    lemma_begins_split(y, t, seq![SPACE]);
    assert(y.take(t.len()).text() =~= t) by {
        assert forall|i: int| 0 <= i < t.len() implies y.take(t.len()).text()[i] == t[i] by {
            assert(y.byte(i) == t[i]);
        }
    }
    assert(y.byte(0) == z.byte(0));
}

/// A text that can stand between braces, written between braces, is read
/// back.
pub proof fn lemma_brace_back(y: SpanView, t: Seq<u8>, name: Seq<char>)
    requires
        y.wf(),
        begins(y, seq![OPEN_BRACE] + t + seq![CLOSE_BRACE]),
        closed(t),
    ensures
        grammar::brace_enclosed(y, name) == (Parsed::Done {
            len: t.len() + 2,
            value: y.skip(1).take(t.len()),
        }),
        y.skip(1).take(t.len()).text() == t,
        y.skip(1).take(t.len()).wf(),
{
    reveal(grammar::brace_enclosed);
    reveal(grammar::property_string);
    reveal(grammar::escaped0);
    let n = t.len();
    let all = seq![OPEN_BRACE] + t + seq![CLOSE_BRACE];
    assert(y.byte(0) == all[0]);
    let y1 = y.skip(1);
    let z = SpanView::whole(t.push(CLOSE_BRACE));
    assert forall|i: int| 0 <= i < n + 1 implies #[trigger] y1.byte(i) == z.byte(i) by {
        assert(y.byte(i + 1) == all[i + 1]);
    }
    lemma_escaped_agree(y1, z, Quoting::Property, 0, n + 1);
    assert(y1.skip(n).byte(0) == y1.byte(n as int));
    assert(y1.take(n).text() =~= t) by {
        assert forall|i: int| 0 <= i < n implies y1.take(n).text()[i] == t[i] by {
            assert(y1.byte(i) == z.byte(i));
        }
    }
}

/// The inputs `x` and `y` hold the same text.
pub open spec fn alike(x: SpanView, y: SpanView) -> bool {
    &&& x.wf()
    &&& y.wf()
    &&& x.len() == y.len()
    &&& forall|i: int| 0 <= i < x.len() ==> #[trigger] x.byte(i) == y.byte(i)
}

/// Inputs with the same text hold the same text.
pub proof fn lemma_alike(x: SpanView, y: SpanView)
    requires
        x.wf(),
        y.wf(),
        x.text() == y.text(),
    ensures
        alike(x, y),
{
    assert(x.text().len() == x.len());
    assert(y.text().len() == y.len());
    assert forall|i: int| 0 <= i < x.len() implies #[trigger] x.byte(i) == y.byte(i) by {
        assert(x.text()[i] == x.byte(i));
        assert(y.text()[i] == y.byte(i));
    }
}

/// Parts at the same place of inputs with the same text have the same text.
pub proof fn lemma_alike_part(x: SpanView, y: SpanView, from: nat, n: nat)
    requires
        alike(x, y),
        from + n <= x.len(),
    ensures
        alike(x.skip(from), y.skip(from)),
        alike(x.skip(from).take(n), y.skip(from).take(n)),
        x.skip(from).take(n).text() == y.skip(from).take(n).text(),
{
    assert forall|i: int| 0 <= i < x.len() - from implies #[trigger] x.skip(from).byte(i)
        == y.skip(from).byte(i) by {
        assert(x.byte(i + from) == y.byte(i + from));
    }
    assert forall|i: int| 0 <= i < n implies #[trigger] x.skip(from).take(n).byte(i) == y.skip(
        from,
    ).take(n).byte(i) by {
        assert(x.byte(i + from) == y.byte(i + from));
    }
    assert(x.skip(from).take(n).text() =~= y.skip(from).take(n).text()) by {
        assert forall|i: int| 0 <= i < n implies x.skip(from).take(n).text()[i] == y.skip(from).take(
            n,
        ).text()[i] by {
            assert(x.byte(i + from) == y.byte(i + from));
        }
    }
}

/// Inputs with the same text have the same runs.
pub proof fn lemma_run_alike(x: SpanView, y: SpanView, class: ByteClass)
    requires
        alike(x, y),
    ensures
        grammar::run(x, class) == grammar::run(y, class),
    decreases x.len(),
{
    if x.len() > 0 {
        assert(x.byte(0) == y.byte(0));
        if class.has(x.byte(0)) {
            lemma_alike_part(x, y, 1, 0);
            lemma_run_alike(x.skip(1), y.skip(1), class);
        }
    }
}

/// Inputs with the same text hold the same escaped text.
pub proof fn lemma_escaped_alike(x: SpanView, y: SpanView, q: Quoting, at: nat)
    requires
        alike(x, y),
        at <= x.len(),
    ensures
        match grammar::escaped_from(x, q, at) {
            Parsed::Done { len, value } => grammar::escaped_from(y, q, at) matches Parsed::Done {
                len: l,
                ..
            } && l == len,
            Parsed::Error(_) => grammar::escaped_from(y, q, at) is Error,
            Parsed::Failure(_) => grammar::escaped_from(y, q, at) is Failure,
        },
    decreases x.len() - at,
{
    if at < x.len() {
        assert(x.byte(at as int) == y.byte(at as int));
        if q.is_normal(x.byte(at as int)) {
            lemma_escaped_alike(x, y, q, at + 1);
        } else if x.byte(at as int) == grammar::BACKSLASH && at + 1 < x.len() {
            lemma_alike_part(x, y, at + 1, 0);
            let xs = x.skip(at + 1);
            let ys = y.skip(at + 1);
            assert(xs.byte(0) == ys.byte(0));
            if xs.len() >= 2 {
                assert(xs.byte(1) == ys.byte(1));
            }
            let e = q.escapable(xs);
            assert(q.escapable(ys) == e);
            if e != 0 {
                lemma_escaped_alike(x, y, q, at + 1 + e);
            }
        }
    }
}

/// The pairs `f` and `g` have the same texts, pair by pair.
pub open spec fn pairs_alike(f: Seq<(SpanView, SpanView)>, g: Seq<(SpanView, SpanView)>) -> bool {
    &&& f.len() == g.len()
    &&& forall|i: int|
        0 <= i < f.len() ==> (#[trigger] f[i]).0.text() == g[i].0.text() && f[i].1.text()
            == g[i].1.text()
}

/// In pairs with the same texts a key is found at the same place.
pub proof fn lemma_key_index_alike(
    f: Seq<(SpanView, SpanView)>,
    g: Seq<(SpanView, SpanView)>,
    key: Seq<u8>,
    from: int,
)
    requires
        pairs_alike(f, g),
        0 <= from <= f.len(),
    ensures
        key_index_from(f, key, from) == key_index_from(g, key, from),
    decreases f.len() - from,
{
    if from < f.len() {
        assert(f[from].0.text() == g[from].0.text());
        if f[from].0.text() != key {
            lemma_key_index_alike(f, g, key, from + 1);
        }
    }
}

/// Pairs with the same texts into which pairs with the same texts are
/// inserted have the same texts.
pub proof fn lemma_insert_alike(
    f: Seq<(SpanView, SpanView)>,
    g: Seq<(SpanView, SpanView)>,
    a: (SpanView, SpanView),
    b: (SpanView, SpanView),
)
    requires
        pairs_alike(f, g),
        a.0.text() == b.0.text(),
        a.1.text() == b.1.text(),
    ensures
        pairs_alike(grammar::insert_pair_of(f, a), grammar::insert_pair_of(g, b)),
{
    lemma_key_index_alike(f, g, a.0.text(), 0);
    crate::token::lemma_key_index(f, a.0.text(), 0);
    let i = key_index(f, a.0.text());
    let ff = grammar::insert_pair_of(f, a);
    let gg = grammar::insert_pair_of(g, b);
    assert forall|j: int| 0 <= j < ff.len() implies (#[trigger] ff[j]).0.text() == gg[j].0.text()
        && ff[j].1.text() == gg[j].1.text() by {
        if j < f.len() && j != i {
            assert(f[j].0.text() == g[j].0.text());
        }
    }
}

/// Inputs with the same text hold the same attribute at their start, or
/// none at the same place.
pub proof fn lemma_key_value_alike(x: SpanView, y: SpanView)
    requires
        alike(x, y),
    ensures
        match grammar::key_value(x) {
            Parsed::Done { len, value } => grammar::key_value(y) matches Parsed::Done {
                len: l,
                value: w,
            } && l == len && value.0.text() == w.0.text() && value.1.text() == w.1.text(),
            Parsed::Error(e) => grammar::key_value(y) matches Parsed::Error(f) && f.err.input.start
                - y.start == e.err.input.start - x.start,
            Parsed::Failure(_) => grammar::key_value(y) is Failure,
        },
{
    reveal(grammar::key_value);
    reveal(grammar::key);
    reveal(grammar::value);
    reveal(grammar::take_while1);
    reveal(grammar::escaped0);
    lemma_run_alike(x, y, ByteClass::Key);
    lemma_run(x, ByteClass::Key);
    let k = grammar::run(x, ByteClass::Key);
    if k > 0 {
        lemma_alike_part(x, y, 0, k);
        assert(x.skip(0) == x);
        assert(y.skip(0) == y);
        if k < x.len() {
            lemma_alike_part(x, y, k, 0);
            assert(x.skip(k).byte(0) == y.skip(k).byte(0));
        }
        if x.skip(k).starts_with(grammar::EQUALS) {
            let xv = x.skip(k + 1);
            let yv = y.skip(k + 1);
            lemma_alike_part(x, y, k + 1, 0);
            if xv.len() > 0 {
                assert(xv.byte(0) == yv.byte(0));
            }
            if xv.starts_with(grammar::QUOTE) {
                lemma_alike_part(xv, yv, 1, 0);
                lemma_escaped_alike(xv.skip(1), yv.skip(1), Quoting::Value, 0);
                lemma_escaped(xv.skip(1), Quoting::Value, 0);
                lemma_escaped(yv.skip(1), Quoting::Value, 0);
                match grammar::escaped_from(xv.skip(1), Quoting::Value, 0) {
                    Parsed::Done { len, value } => {
                        lemma_alike_part(xv.skip(1), yv.skip(1), 0, len);
                        assert(xv.skip(1).skip(0) == xv.skip(1));
                        assert(yv.skip(1).skip(0) == yv.skip(1));
                        if len < xv.skip(1).len() {
                            lemma_alike_part(xv.skip(1), yv.skip(1), len, 0);
                            assert(xv.skip(1).skip(len).byte(0) == yv.skip(1).skip(len).byte(0));
                        }
                    },
                    _ => {},
                }
            } else {
                lemma_run_alike(xv, yv, ByteClass::Value);
                lemma_run(xv, ByteClass::Value);
                let n = grammar::run(xv, ByteClass::Value);
                lemma_alike_part(xv, yv, 0, n);
                assert(xv.skip(0) == xv);
                assert(yv.skip(0) == yv);
            }
        }
    }
}

/// Inputs with the same text hold attributes with the same texts.
pub proof fn lemma_attributes_alike(
    x: SpanView,
    y: SpanView,
    f: Seq<(SpanView, SpanView)>,
    g: Seq<(SpanView, SpanView)>,
)
    requires
        alike(x, y),
        pairs_alike(f, g),
    ensures
        match grammar::attributes_from(x, f) {
            Parsed::Done { len, value } => grammar::attributes_from(y, g) matches Parsed::Done {
                len: l,
                value: w,
            } && l == len && pairs_alike(value, w),
            Parsed::Error(_) => grammar::attributes_from(y, g) is Error,
            Parsed::Failure(_) => grammar::attributes_from(y, g) is Failure,
        },
    decreases x.len(),
{
    if x.len() > 0 {
        let skipped = grammar::run(x, ByteClass::NotKey);
        lemma_run_alike(x, y, ByteClass::NotKey);
        lemma_run(x, ByteClass::NotKey);
        let xs = x.skip(skipped);
        let ys = y.skip(skipped);
        lemma_alike_part(x, y, skipped, 0);
        lemma_key_value_alike(xs, ys);
        lemma_key_value(xs);
        lemma_key_value(ys);
        match grammar::key_value(xs) {
            Parsed::Done { len, value } => {
                let w = grammar::key_value(ys)->value;
                lemma_insert_alike(f, g, value, w);
                lemma_alike_part(x, y, skipped + len, 0);
                lemma_attributes_alike(
                    x.skip(skipped + len),
                    y.skip(skipped + len),
                    grammar::insert_pair_of(f, value),
                    grammar::insert_pair_of(g, w),
                );
            },
            Parsed::Error(e) => {
                let e2 = grammar::key_value(ys)->Error_0;
                let j = (e.err.input.start - x.start) as nat;
                lemma_alike_part(x, y, j, 0);
                assert(e.err.input == x.skip(j));
                assert(e2.err.input == y.skip(j));
                lemma_attributes_alike(e.err.input, e2.err.input, f, g);
            },
            Parsed::Failure(_) => {},
        }
    }
}

/// The properties `p` and `q` say the same: their texts are the same, and
/// so are the texts of their attributes, pair by pair.
pub open spec fn same_property(p: PropertyView, q: PropertyView) -> bool {
    p.prop.text() == q.prop.text() && pairs_alike(p.attrs, q.attrs)
}

/// The property `p` can be written and read back: its text can stand
/// between braces, and its attributes are those that its text holds.
pub open spec fn printable(p: PropertyView) -> bool {
    &&& p.prop.wf()
    &&& closed(p.prop.text())
    &&& grammar::attributes(p.prop) matches Parsed::Done { value, .. } && value == p.attrs
}

/// A property that can be written and read back, written out, is read back.
pub proof fn lemma_property_back(y: SpanView, p: PropertyView)
    requires
        y.wf(),
        begins(y, property_text(p)),
        printable(p),
    ensures
        grammar::property(y) matches Parsed::Done { len, value } && len == property_text(p).len()
            && same_property(p, value) && printable(value),
        property_text(p).len() == p.prop.len() + 2,
{
    reveal(grammar::property);
    reveal(grammar::attributes);
    let t = p.prop.text();
    lemma_brace_back(y, t, "property"@);
    let v = y.skip(1).take(t.len());
    lemma_alike(p.prop, v);
    lemma_attributes_alike(p.prop, v, Seq::empty(), Seq::empty());
}

/// The text `t` after a space.
pub open spec fn sp(t: Seq<u8>) -> Seq<u8> {
    seq![SPACE] + t
}

/// One byte of whitespace before something else is a gap of one byte.
pub proof fn lemma_gap_one(y: SpanView)
    requires
        y.len() >= 2,
        ByteClass::MultiSpace.has(y.byte(0)),
        !ByteClass::MultiSpace.has(y.byte(1)),
    ensures
        grammar::gap(y) == 1,
{
    assert(y.skip(1).byte(0) == y.byte(1));
    assert(grammar::run(y.skip(1), ByteClass::MultiSpace) == 0);
}

/// An input that begins with a space and then with `t` begins, after the
/// space, with `t`.
pub proof fn lemma_after_space(y: SpanView, t: Seq<u8>, rest: Seq<u8>)
    requires
        y.wf(),
        begins(y, sp(t) + rest),
    ensures
        y.byte(0) == SPACE,
        y.len() >= 1 + t.len() + rest.len(),
        begins(y.skip(1), t + rest),
        begins(y.skip(1), t),
        begins(y.skip(1 + t.len()), rest),
        y.skip(1).wf(),
        y.skip(1 + t.len()).wf(),
{
    assert(sp(t) + rest =~= seq![SPACE] + (t + rest));
    lemma_begins_split(y, seq![SPACE], t + rest);
    assert(y.byte(0) == seq![SPACE][0]);
    lemma_begins_split(y.skip(1), t, rest);
    assert(y.skip(1).skip(t.len()) == y.skip(1 + t.len()));
}

/// A layer, written after a space and before another, is read back.
pub proof fn lemma_spaced_layer_back(y: SpanView, n: u64, rest: Seq<u8>)
    requires
        y.wf(),
        begins(y, sp(unsigned_text(n as nat)) + rest),
        rest.len() > 0,
        rest[0] == SPACE,
    ensures
        grammar::spaced_layer(y) == (Parsed::Done {
            len: 1 + unsigned_text(n as nat).len(),
            value: n,
        }),
        begins(y.skip(1 + unsigned_text(n as nat).len()), rest),
        y.skip(1 + unsigned_text(n as nat).len()).wf(),
{
    reveal(grammar::spaced_layer);
    reveal(grammar::layer);
    let t = unsigned_text(n as nat);
    lemma_after_space(y, t, rest);
    lemma_unsigned_text(n as nat);
    let y1 = y.skip(1);
    assert(y1.byte(0) == t[0]);
    assert(y.skip(1).byte(0) == y.byte(1));
    lemma_gap_one(y);
    assert(y1.skip(t.len()).byte(0) == rest[0]);
    assert(y1.skip(t.len()).byte(0) == y1.byte(t.len() as int));
    lemma_unsigned_back(y1, n as nat, u64::MAX as nat);
}

/// A finite number, written after a space and before another, is read back.
pub proof fn lemma_spaced_double_back(y: SpanView, bits: u64, rest: Seq<u8>)
    requires
        y.wf(),
        begins(y, sp(double_text(bits)) + rest),
        rest.len() > 0,
        rest[0] == SPACE,
        is_finite_bits(bits),
        prints_faithfully(bits),
    ensures
        grammar::spaced_double(y) == (Parsed::Done {
            len: 1 + double_text(bits).len(),
            value: bits,
        }),
        begins(y.skip(1 + double_text(bits).len()), rest),
        y.skip(1 + double_text(bits).len()).wf(),
{
    reveal(grammar::spaced_double);
    let t = double_text(bits);
    lemma_after_space(y, t, rest);
    let y1 = y.skip(1);
    assert(prints_faithfully(bits));
    assert(begins(y1, t + seq![SPACE])) by {
        assert forall|i: int| 0 <= i < t.len() + 1 implies y1.byte(i) == #[trigger] (t + seq![
            SPACE,
        ])[i] by {
            assert((t + rest)[i] == (t + seq![SPACE])[i]);
        }
    }
    lemma_double_back(y1, bits);
    assert(y.skip(1).byte(0) == y.byte(1));
    lemma_gap_one(y);
}

/// A pair of finite numbers, written before a space, is read back.
pub proof fn lemma_vec2_back(y: SpanView, v: Vec2View, rest: Seq<u8>)
    requires
        y.wf(),
        begins(y, vec2_text(v) + rest),
        rest.len() > 0,
        rest[0] == SPACE,
        is_finite_bits(v.x),
        is_finite_bits(v.y),
        vec2_faithful(v),
    ensures
        grammar::vec2(y) == (Parsed::Done { len: vec2_text(v).len(), value: v }),
        begins(y.skip(vec2_text(v).len()), rest),
        y.skip(vec2_text(v).len()).wf(),
        !ByteClass::MultiSpace.has(y.byte(0)),
        vec2_text(v).len() >= 1,
{
    reveal(grammar::vec2);
    reveal(grammar::spaced_double);
    let a = double_text(v.x);
    let b = double_text(v.y);
    assert(vec2_text(v) + rest =~= a + (sp(b) + rest));
    lemma_begins_split(y, a, sp(b) + rest);
    assert(prints_faithfully(v.x));
    assert(begins(y, a + seq![SPACE])) by {
        assert forall|i: int| 0 <= i < a.len() + 1 implies y.byte(i) == #[trigger] (a + seq![
            SPACE,
        ])[i] by {
            assert((a + (sp(b) + rest))[i] == (a + seq![SPACE])[i]);
        }
    }
    lemma_double_back(y, v.x);
    lemma_spaced_double_back(y.skip(a.len()), v.y, rest);
    assert(y.skip(a.len()).skip(1 + b.len()) == y.skip(vec2_text(v).len()));
    assert(vec2_text(v).len() == a.len() + 1 + b.len());
}

/// A position, written after a space and before another, is read back.
pub proof fn lemma_spaced_coordinate_back(y: SpanView, v: Vec2View, rest: Seq<u8>)
    requires
        y.wf(),
        begins(y, sp(vec2_text(v)) + rest),
        rest.len() > 0,
        rest[0] == SPACE,
        is_finite_bits(v.x),
        is_finite_bits(v.y),
        vec2_faithful(v),
    ensures
        grammar::spaced_coordinate(y) == (Parsed::Done { len: 1 + vec2_text(v).len(), value: v }),
        grammar::spaced(y, grammar::size(y.skip(grammar::gap(y)))) == (Parsed::Done {
            len: 1 + vec2_text(v).len(),
            value: v,
        }),
        grammar::gap(y) == 1,
        begins(y.skip(1 + vec2_text(v).len()), rest),
        y.skip(1 + vec2_text(v).len()).wf(),
{
    reveal(grammar::spaced_coordinate);
    reveal(grammar::coordinate);
    reveal(grammar::size);
    let t = vec2_text(v);
    lemma_after_space(y, t, rest);
    lemma_vec2_back(y.skip(1), v, rest);
    assert(y.skip(1).byte(0) == y.byte(1));
    lemma_gap_one(y);
    assert(y.skip(1).skip(t.len()) == y.skip(1 + t.len()));
}

/// A rotation, written after a space, is read back.
pub proof fn lemma_spaced_rotation_back(y: SpanView, r: Rotation, rest: Seq<u8>)
    requires
        y.wf(),
        begins(y, sp(rotation_text(r)) + rest),
    ensures
        grammar::spaced_rotation(y) == (Parsed::Done { len: 2, value: r }),
        begins(y.skip(2), rest),
        y.skip(2).wf(),
{
    reveal(grammar::spaced_rotation);
    reveal(grammar::rotation);
    let t = rotation_text(r);
    lemma_after_space(y, t, rest);
    assert(y.skip(1).byte(0) == t[0]);
    assert(y.skip(1).byte(0) == y.byte(1));
    lemma_gap_one(y);
}

/// A flip, written after a space, is read back.
pub proof fn lemma_spaced_flip_back(y: SpanView, f: Flip, rest: Seq<u8>)
    requires
        y.wf(),
        begins(y, sp(flip_text(f)) + rest),
    ensures
        grammar::spaced_flip(y) == (Parsed::Done { len: 2, value: f }),
        begins(y.skip(2), rest),
        y.skip(2).wf(),
{
    reveal(grammar::spaced_flip);
    reveal(grammar::flip);
    let t = flip_text(f);
    lemma_after_space(y, t, rest);
    assert(y.skip(1).byte(0) == t[0]);
    assert(y.skip(1).byte(0) == y.byte(1));
    lemma_gap_one(y);
}

/// A property that can be written and read back, written after a space, is
/// read back.
pub proof fn lemma_spaced_property_back(y: SpanView, p: PropertyView)
    requires
        y.wf(),
        begins(y, sp(property_text(p))),
        printable(p),
    ensures
        grammar::spaced_property(y) matches Parsed::Done { len, value } && len == 1
            + property_text(p).len() && same_property(p, value) && printable(value),
{
    reveal(grammar::spaced_property);
    let t = property_text(p);
    assert(sp(t) =~= sp(t) + Seq::<u8>::empty());
    lemma_after_space(y, t, Seq::empty());
    assert(y.skip(1).byte(0) == t[0]);
    assert(y.skip(1).byte(0) == y.byte(1));
    lemma_gap_one(y);
    lemma_property_back(y.skip(1), p);
}

/// A text that can stand between braces, written between braces after a
/// space, is read back.
pub proof fn lemma_spaced_braces_back(y: SpanView, t: Seq<u8>, name: Seq<char>, rest: Seq<u8>)
    requires
        y.wf(),
        begins(y, sp(seq![OPEN_BRACE] + t + seq![CLOSE_BRACE]) + rest),
        closed(t),
    ensures
        grammar::spaced(y, grammar::brace_enclosed(y.skip(grammar::gap(y)), name))
            matches Parsed::Done { len, value } && len == 3 + t.len() && value.text() == t
            && value.wf() && value.source == y.source,
        begins(y.skip(3 + t.len()), rest),
        y.skip(3 + t.len()).wf(),
{
    let b = seq![OPEN_BRACE] + t + seq![CLOSE_BRACE];
    lemma_after_space(y, b, rest);
    assert(y.skip(1).byte(0) == b[0]);
    assert(y.skip(1).byte(0) == y.byte(1));
    lemma_gap_one(y);
    lemma_brace_back(y.skip(1), t, name);
}

/// A property of the schematic, or the version, written out, is read back.
pub proof fn lemma_property_object_back(y: SpanView, tag: u8, p: PropertyView)
    requires
        y.wf(),
        begins(y, tagged_text(tag, p)),
        printable(p),
    ensures
        grammar::property_object(y, tag) matches Parsed::Done { len, value } && len == tagged_text(
            tag,
            p,
        ).len() && same_property(p, value),
        tag == grammar::TAG_VERSION ==> grammar::version_object(y) == grammar::property_object(y, tag),
        tagged_text(tag, p).len() == p.prop.len() + 4,
{
    reveal(grammar::property_object);
    reveal(grammar::version_object);
    let t = property_text(p);
    assert(tagged_text(tag, p) =~= seq![tag] + sp(t));
    lemma_begins_split(y, seq![tag], sp(t));
    assert(y.byte(0) == seq![tag][0]);
    lemma_spaced_property_back(y.skip(1), p);
    assert(t.len() == p.prop.text().len() + 2);
}

/// The arcs `a` and `b` say the same.
pub open spec fn same_arc(a: ArcView, b: ArcView) -> bool {
    &&& a.layer == b.layer
    &&& a.center == b.center
    &&& a.radius == b.radius
    &&& a.start_angle == b.start_angle
    &&& a.sweep_angle == b.sweep_angle
    &&& same_property(a.property, b.property)
}

/// The lines `a` and `b` say the same.
pub open spec fn same_line(a: LineView, b: LineView) -> bool {
    &&& a.layer == b.layer
    &&& a.start == b.start
    &&& a.end == b.end
    &&& same_property(a.property, b.property)
}

/// The rectangles `a` and `b` say the same.
pub open spec fn same_rectangle(a: RectangleView, b: RectangleView) -> bool {
    &&& a.layer == b.layer
    &&& a.start == b.start
    &&& a.end == b.end
    &&& same_property(a.property, b.property)
}

/// The texts `a` and `b` say the same.
pub open spec fn same_text(a: TextView, b: TextView) -> bool {
    &&& a.text.text() == b.text.text()
    &&& a.position == b.position
    &&& a.rotation == b.rotation
    &&& a.flip == b.flip
    &&& a.size == b.size
    &&& same_property(a.property, b.property)
}

/// The wires `a` and `b` say the same.
pub open spec fn same_wire(a: WireView, b: WireView) -> bool {
    &&& a.start == b.start
    &&& a.end == b.end
    &&& same_property(a.property, b.property)
}

/// A sound arc, written out, is read back.
pub proof fn lemma_arc_back(y: SpanView, a: ArcView, source: Seq<u8>)
    requires
        y.wf(),
        begins(y, arc_text(a)),
        arc_sound(a, source),
        arc_faithful(a),
    ensures
        grammar::arc_object(y) matches Parsed::Done { len, value } && len == arc_text(a).len()
            && same_arc(a, value),
{
    reveal(grammar::arc_object);
    reveal(grammar::arc_fields);
    let f1 = sp(unsigned_text(a.layer as nat));
    let f2 = sp(vec2_text(a.center));
    let f3 = sp(double_text(a.radius));
    let f4 = sp(double_text(a.start_angle));
    let f5 = sp(double_text(a.sweep_angle));
    let f6 = sp(property_text(a.property));
    let r5 = f6;
    let r4 = f5 + r5;
    let r3 = f4 + r4;
    let r2 = f3 + r3;
    let r1 = f2 + r2;
    assert(arc_text(a) =~= seq![grammar::TAG_ARC] + (f1 + r1));
    lemma_begins_split(y, seq![grammar::TAG_ARC], f1 + r1);
    assert(y.byte(0) == seq![grammar::TAG_ARC][0]);
    let y1 = y.skip(1);
    assert(r1[0] == SPACE && r2[0] == SPACE && r3[0] == SPACE && r4[0] == SPACE && r5[0] == SPACE);
    lemma_spaced_layer_back(y1, a.layer, r1);
    let y2 = y1.skip(f1.len());
    lemma_spaced_coordinate_back(y2, a.center, r2);
    let y3 = y2.skip(f2.len());
    lemma_spaced_double_back(y3, a.radius, r3);
    let y4 = y3.skip(f3.len());
    lemma_spaced_double_back(y4, a.start_angle, r4);
    let y5 = y4.skip(f4.len());
    lemma_spaced_double_back(y5, a.sweep_angle, r5);
    let y6 = y5.skip(f5.len());
    lemma_spaced_property_back(y6, a.property);
    assert(y2 == y1.skip(f1.len()));
    assert(y3 == y1.skip(f1.len() + f2.len()));
    assert(y4 == y1.skip(f1.len() + f2.len() + f3.len()));
    assert(y5 == y1.skip(f1.len() + f2.len() + f3.len() + f4.len()));
    assert(y6 == y1.skip(f1.len() + f2.len() + f3.len() + f4.len() + f5.len()));
    assert(arc_text(a).len() == 1 + f1.len() + f2.len() + f3.len() + f4.len() + f5.len()
        + f6.len());
}

/// The fields of a sound line or rectangle, written out, are read back.
pub proof fn lemma_box_back(
    y: SpanView,
    layer: u64,
    start: Vec2View,
    end: Vec2View,
    property: PropertyView,
)
    requires
        y.wf(),
        begins(
            y,
            sp(unsigned_text(layer as nat)) + (sp(vec2_text(start)) + (sp(vec2_text(end)) + sp(
                property_text(property),
            ))),
        ),
        is_finite_bits(start.x),
        is_finite_bits(start.y),
        is_finite_bits(end.x),
        is_finite_bits(end.y),
        printable(property),
        vec2_faithful(start),
        vec2_faithful(end),
    ensures
        grammar::box_fields(y) matches Parsed::Done { len, value } && len == 4 + unsigned_text(
            layer as nat,
        ).len() + vec2_text(start).len() + vec2_text(end).len() + property_text(property).len()
            && value.0 == layer && value.1 == start && value.2 == end && same_property(
            property,
            value.3,
        ),
{
    reveal(grammar::box_fields);
    let f1 = sp(unsigned_text(layer as nat));
    let f2 = sp(vec2_text(start));
    let f3 = sp(vec2_text(end));
    let f4 = sp(property_text(property));
    let r2 = f3 + f4;
    let r1 = f2 + r2;
    assert(r1[0] == SPACE && r2[0] == SPACE && f4[0] == SPACE);
    lemma_spaced_layer_back(y, layer, r1);
    let y2 = y.skip(f1.len());
    lemma_spaced_coordinate_back(y2, start, r2);
    let y3 = y2.skip(f2.len());
    lemma_spaced_coordinate_back(y3, end, f4);
    let y4 = y3.skip(f3.len());
    lemma_spaced_property_back(y4, property);
    assert(y3 == y.skip(f1.len() + f2.len()));
    assert(y4 == y.skip(f1.len() + f2.len() + f3.len()));
}

/// A sound line, written out, is read back.
pub proof fn lemma_line_back(y: SpanView, l: LineView, source: Seq<u8>)
    requires
        y.wf(),
        begins(y, line_text(l)),
        line_sound(l, source),
        line_faithful(l),
    ensures
        grammar::line_object(y) matches Parsed::Done { len, value } && len == line_text(l).len()
            && same_line(l, value),
{
    reveal(grammar::line_object);
    let fields = sp(unsigned_text(l.layer as nat)) + (sp(vec2_text(l.start)) + (sp(
        vec2_text(l.end),
    ) + sp(property_text(l.property))));
    assert(line_text(l) =~= seq![grammar::TAG_LINE] + fields);
    lemma_begins_split(y, seq![grammar::TAG_LINE], fields);
    assert(y.byte(0) == seq![grammar::TAG_LINE][0]);
    lemma_box_back(y.skip(1), l.layer, l.start, l.end, l.property);
    assert(line_text(l).len() == 1 + fields.len());
}

/// A sound rectangle, written out, is read back.
pub proof fn lemma_rectangle_back(y: SpanView, r: RectangleView, source: Seq<u8>)
    requires
        y.wf(),
        begins(y, rectangle_text(r)),
        rectangle_sound(r, source),
        rectangle_faithful(r),
    ensures
        grammar::rectangle_object(y) matches Parsed::Done { len, value } && len == rectangle_text(
            r,
        ).len() && same_rectangle(r, value),
{
    reveal(grammar::rectangle_object);
    let fields = sp(unsigned_text(r.layer as nat)) + (sp(vec2_text(r.start)) + (sp(
        vec2_text(r.end),
    ) + sp(property_text(r.property))));
    assert(rectangle_text(r) =~= seq![grammar::TAG_RECTANGLE] + fields);
    lemma_begins_split(y, seq![grammar::TAG_RECTANGLE], fields);
    assert(y.byte(0) == seq![grammar::TAG_RECTANGLE][0]);
    lemma_box_back(y.skip(1), r.layer, r.start, r.end, r.property);
    assert(rectangle_text(r).len() == 1 + fields.len());
}

/// A sound wire, written out, is read back.
pub proof fn lemma_wire_back(y: SpanView, w: WireView, source: Seq<u8>)
    requires
        y.wf(),
        begins(y, wire_text(w)),
        wire_sound(w, source),
        wire_faithful(w),
    ensures
        grammar::wire_object(y) matches Parsed::Done { len, value } && len == wire_text(w).len()
            && same_wire(w, value),
{
    reveal(grammar::wire_object);
    reveal(grammar::wire_fields);
    let f1 = sp(vec2_text(w.start));
    let f2 = sp(vec2_text(w.end));
    let f3 = sp(property_text(w.property));
    let r1 = f2 + f3;
    assert(wire_text(w) =~= seq![grammar::TAG_WIRE] + (f1 + r1));
    lemma_begins_split(y, seq![grammar::TAG_WIRE], f1 + r1);
    assert(y.byte(0) == seq![grammar::TAG_WIRE][0]);
    assert(r1[0] == SPACE && f3[0] == SPACE);
    let y1 = y.skip(1);
    lemma_spaced_coordinate_back(y1, w.start, r1);
    let y2 = y1.skip(f1.len());
    lemma_spaced_coordinate_back(y2, w.end, f3);
    let y3 = y2.skip(f2.len());
    lemma_spaced_property_back(y3, w.property);
    assert(y3 == y1.skip(f1.len() + f2.len()));
    assert(wire_text(w).len() == 1 + f1.len() + f2.len() + f3.len());
}

/// A sound text, written out, is read back.
#[verifier::rlimit(80)]
pub proof fn lemma_text_back(y: SpanView, t: TextView, source: Seq<u8>)
    requires
        y.wf(),
        begins(y, text_text(t)),
        text_sound(t, source),
        text_faithful(t),
    ensures
        grammar::text_object(y) matches Parsed::Done { len, value } && len == text_text(t).len()
            && same_text(t, value),
{
    reveal(grammar::text_object);
    reveal(grammar::text_fields);
    reveal(grammar::text);
    let body = t.text.text();
    let f1 = sp(seq![OPEN_BRACE] + body + seq![CLOSE_BRACE]);
    let f2 = sp(vec2_text(t.position));
    let f3 = sp(rotation_text(t.rotation));
    let f4 = sp(flip_text(t.flip));
    let f5 = sp(vec2_text(t.size));
    let f6 = sp(property_text(t.property));
    let r4 = f5 + f6;
    let r3 = f4 + r4;
    let r2 = f3 + r3;
    let r1 = f2 + r2;
    assert(text_text(t) =~= seq![grammar::TAG_TEXT] + (f1 + r1));
    lemma_begins_split(y, seq![grammar::TAG_TEXT], f1 + r1);
    assert(y.byte(0) == seq![grammar::TAG_TEXT][0]);
    assert(r2[0] == SPACE && r4[0] == SPACE && f6[0] == SPACE);
    let y1 = y.skip(1);
    lemma_spaced_braces_back(y1, body, "text"@, r1);
    let y2 = y1.skip(f1.len());
    lemma_spaced_coordinate_back(y2, t.position, r2);
    let y3 = y2.skip(f2.len());
    lemma_spaced_rotation_back(y3, t.rotation, r3);
    let y4 = y3.skip(f3.len());
    lemma_spaced_flip_back(y4, t.flip, r4);
    let y5 = y4.skip(f4.len());
    lemma_spaced_coordinate_back(y5, t.size, f6);
    let y6 = y5.skip(f5.len());
    lemma_spaced_property_back(y6, t.property);
    assert(y3 == y1.skip(f1.len() + f2.len()));
    assert(y4 == y1.skip(f1.len() + f2.len() + f3.len()));
    assert(y5 == y1.skip(f1.len() + f2.len() + f3.len() + f4.len()));
    assert(y6 == y1.skip(f1.len() + f2.len() + f3.len() + f4.len() + f5.len()));
    assert(text_text(t).len() == 1 + f1.len() + f2.len() + f3.len() + f4.len() + f5.len()
        + f6.len());
}

/// The texts `items` from the `from`-th on, each after the byte
/// `separator`.
pub open spec fn spread(items: Seq<Seq<u8>>, separator: u8, from: int) -> Seq<u8>
    decreases items.len() - from,
{
    if from < 0 || from >= items.len() {
        Seq::empty()
    } else {
        seq![separator] + items[from] + spread(items, separator, from + 1)
    }
}

/// The texts with one more at their end are spread as the texts are, and
/// then the one more.
pub proof fn lemma_spread_push(items: Seq<Seq<u8>>, last: Seq<u8>, separator: u8, from: int)
    requires
        0 <= from <= items.len(),
    ensures
        spread(items.push(last), separator, from) == spread(items, separator, from) + (seq![
            separator,
        ] + last),
    decreases items.len() - from,
{
    let more = items.push(last);
    if from < items.len() {
        lemma_spread_push(items, last, separator, from + 1);
        assert(more[from] == items[from]);
        assert(spread(more, separator, from) =~= spread(items, separator, from) + (seq![separator]
            + last));
    } else {
        assert(more[from] == last);
        assert(spread(more, separator, from + 1) =~= Seq::<u8>::empty());
        assert(spread(more, separator, from) =~= spread(items, separator, from) + (seq![separator]
            + last));
    }
}

/// Texts that are joined, after one more separator, are spread.
pub proof fn lemma_joined_spread(items: Seq<Seq<u8>>, separator: u8)
    requires
        items.len() >= 1,
    ensures
        seq![separator] + joined(items, seq![separator]) == spread(items, separator, 0),
    decreases items.len(),
{
    let front = items.drop_last();
    assert(items =~= front.push(items.last()));
    lemma_spread_push(front, items.last(), separator, 0);
    if items.len() == 1 {
        assert(spread(front, separator, 0) =~= Seq::<u8>::empty());
        assert(seq![separator] + joined(items, seq![separator]) =~= spread(front, separator, 0) + (
        seq![separator] + items.last()));
    } else {
        lemma_joined_spread(front, separator);
        assert(seq![separator] + joined(items, seq![separator]) =~= seq![separator] + joined(
            front,
            seq![separator],
        ) + (seq![separator] + items.last()));
    }
}

/// The texts of both of two lists are spread as those of the first, and
/// then those of the second.
pub proof fn lemma_spread_concat(a: Seq<Seq<u8>>, b: Seq<Seq<u8>>, separator: u8)
    ensures
        spread(a + b, separator, 0) == spread(a, separator, 0) + spread(b, separator, 0),
    decreases b.len(),
{
    if b.len() == 0 {
        assert(a + b =~= a);
        assert(spread(b, separator, 0) =~= Seq::<u8>::empty());
        assert(spread(a, separator, 0) + spread(b, separator, 0) =~= spread(a, separator, 0));
    } else {
        let front = b.drop_last();
        assert(b =~= front.push(b.last()));
        assert(a + b =~= (a + front).push(b.last()));
        lemma_spread_concat(a, front, separator);
        lemma_spread_push(a + front, b.last(), separator, 0);
        lemma_spread_push(front, b.last(), separator, 0);
        assert(spread(a, separator, 0) + spread(front, separator, 0) + (seq![separator] + b.last())
            =~= spread(a, separator, 0) + (spread(front, separator, 0) + (seq![separator]
            + b.last())));
    }
}

/// One space or tab before something else is a run of one.
pub proof fn lemma_space_one(y: SpanView)
    requires
        y.len() >= 2,
        y.byte(0) == SPACE,
        !ByteClass::MultiSpace.has(y.byte(1)),
    ensures
        grammar::run(y, ByteClass::Space) == 1,
{
    assert(y.skip(1).byte(0) == y.byte(1));
    assert(grammar::run(y.skip(1), ByteClass::Space) == 0);
}

/// The texts of the points `points`.
pub open spec fn point_texts(points: Seq<Vec2View>) -> Seq<Seq<u8>> {
    Seq::new(points.len(), |i: int| vec2_text(points[i]))
}

/// Points, each written after a space, and a space after the last one, are
/// read back.
pub proof fn lemma_points_back(
    y: SpanView,
    points: Seq<Vec2View>,
    from: nat,
    found: Seq<Vec2View>,
    rest: Seq<u8>,
)
    requires
        y.wf(),
        from <= points.len(),
        begins(y, spread(point_texts(points), SPACE, from as int) + rest),
        rest.len() > 0,
        rest[0] == SPACE,
        forall|i: int|
            0 <= i < points.len() ==> is_finite_bits((#[trigger] points[i]).x) && is_finite_bits(
                points[i].y,
            ),
        points_faithful(points),
    ensures
        grammar::points_from(y, (points.len() - from) as nat, found) == (Parsed::Done {
            len: spread(point_texts(points), SPACE, from as int).len(),
            value: found + points.skip(from as int),
        }),
        begins(y.skip(spread(point_texts(points), SPACE, from as int).len()), rest),
        y.skip(spread(point_texts(points), SPACE, from as int).len()).wf(),
    decreases points.len() - from,
{
    reveal(grammar::point);
    reveal(grammar::coordinate);
    let texts = point_texts(points);
    if from < points.len() {
        let v = points[from as int];
        let t = vec2_text(v);
        let later = spread(texts, SPACE, from as int + 1);
        assert(texts[from as int] == t);
        assert(spread(texts, SPACE, from as int) + rest =~= sp(t) + (later + rest));
        assert((later + rest)[0] == SPACE) by {
            if from + 1 < points.len() {
                assert(later[0] == SPACE);
            } else {
                assert(later =~= Seq::<u8>::empty());
            }
        }
        lemma_after_space(y, t, later + rest);
        lemma_vec2_back(y.skip(1), v, later + rest);
        assert(y.skip(1).byte(0) == y.byte(1));
        lemma_space_one(y);
        let next = y.skip(1 + t.len());
        assert(y.skip(1).skip(t.len()) == next);
        lemma_points_back(next, points, from + 1, found.push(v), rest);
        assert(found.push(v) + points.skip(from as int + 1) =~= found + points.skip(from as int));
        assert(spread(texts, SPACE, from as int).len() == 1 + t.len() + later.len());
        assert(next.skip(later.len()) == y.skip(spread(texts, SPACE, from as int).len()));
    } else {
        assert(spread(texts, SPACE, from as int) =~= Seq::<u8>::empty());
        assert(spread(texts, SPACE, from as int) + rest =~= rest);
        assert(found + points.skip(from as int) =~= found);
        assert(y.skip(0) == y);
    }
}

/// The polygons `a` and `b` say the same.
pub open spec fn same_polygon(a: PolygonView, b: PolygonView) -> bool {
    &&& a.layer == b.layer
    &&& a.points == b.points
    &&& same_property(a.property, b.property)
}

/// A sound polygon, written out, is read back.
#[verifier::rlimit(80)]
pub proof fn lemma_polygon_back(y: SpanView, p: PolygonView, source: Seq<u8>)
    requires
        y.wf(),
        begins(y, polygon_text(p)),
        polygon_sound(p, source),
        polygon_faithful(p),
    ensures
        grammar::polygon_object(y) matches Parsed::Done { len, value } && len == polygon_text(
            p,
        ).len() && same_polygon(p, value),
{
    reveal(grammar::polygon_object);
    reveal(grammar::polygon_fields);
    reveal(grammar::points);
    reveal(grammar::count);
    reveal(grammar::spaced_property);
    let n = p.points.len();
    let texts = point_texts(p.points);
    let f1 = sp(unsigned_text(p.layer as nat));
    let c = unsigned_text(n);
    let prop = property_text(p.property);
    let f3 = sp(prop);
    let items = spread(texts, SPACE, 0);
    let tail = items + f3;
    let r1 = sp(c) + tail;
    assert(polygon_text(p) =~= seq![grammar::TAG_POLYGON] + (f1 + r1)) by {
        lemma_joined_spread(texts, SPACE);
        assert(seq![SPACE] + points_text(p.points) == items);
        assert(polygon_text(p) =~= seq![grammar::TAG_POLYGON, SPACE] + unsigned_text(
            p.layer as nat,
        ) + seq![SPACE] + c + (seq![SPACE] + points_text(p.points)) + seq![SPACE] + prop);
    }
    lemma_begins_split(y, seq![grammar::TAG_POLYGON], f1 + r1);
    assert(y.byte(0) == seq![grammar::TAG_POLYGON][0]);
    let y1 = y.skip(1);
    assert(r1[0] == SPACE);
    lemma_spaced_layer_back(y1, p.layer, r1);
    let y2 = y1.skip(f1.len());
    assert(tail[0] == SPACE) by {
        assert(items[0] == SPACE);
    }
    lemma_after_space(y2, c, tail);
    lemma_unsigned_text(n);
    let y3 = y2.skip(1);
    assert(y3.byte(0) == c[0]);
    assert(y3.byte(0) == y2.byte(1));
    lemma_gap_one(y2);
    assert(y3.skip(c.len()).byte(0) == tail[0]);
    assert(y3.skip(c.len()).byte(0) == y3.byte(c.len() as int));
    lemma_unsigned_back(y3, n, usize::MAX as nat);
    let y4 = y3.skip(c.len());
    assert(y4 == y2.skip(1 + c.len()));
    lemma_points_back(y4, p.points, 0, Seq::empty(), f3);
    assert(Seq::<Vec2View>::empty() + p.points.skip(0) =~= p.points);
    let y5 = y4.skip(items.len());
    lemma_spaced_property_back(y5, p.property);
}

/// The components `a` and `b` say the same, and so does what they embed.
pub open spec fn same_component(a: ComponentView, b: ComponentView) -> bool
    decreases a, 0int,
{
    &&& a.reference.text() == b.reference.text()
    &&& a.position == b.position
    &&& a.rotation == b.rotation
    &&& a.flip == b.flip
    &&& same_property(a.property, b.property)
    &&& match a.embedding {
        Some(s) => b.embedding is Some && same_schematic(s, b.embedding->0),
        None => b.embedding is None,
    }
}

/// The slots `a` and `b` are both empty or hold properties that say the
/// same.
pub open spec fn same_slot(a: Option<PropertyView>, b: Option<PropertyView>) -> bool {
    match a {
        Some(p) => b is Some && same_property(p, b->0),
        None => b is None,
    }
}

/// The schematics `a` and `b` say the same: they hold the same texts and
/// the same numbers in the same places. Where in a buffer the texts lie does
/// not count.
pub open spec fn same_schematic(a: SchematicView, b: SchematicView) -> bool
    decreases a, 1int,
{
    &&& same_property(a.version, b.version)
    &&& same_slot(a.vhdl_property, b.vhdl_property)
    &&& same_slot(a.symbol_property, b.symbol_property)
    &&& same_slot(a.verilog_property, b.verilog_property)
    &&& same_slot(a.spice_property, b.spice_property)
    &&& same_slot(a.tedax_property, b.tedax_property)
    &&& a.texts.len() == b.texts.len()
    &&& forall|i: int| 0 <= i < a.texts.len() ==> same_text(#[trigger] a.texts[i], b.texts[i])
    &&& a.lines.len() == b.lines.len()
    &&& forall|i: int| 0 <= i < a.lines.len() ==> same_line(#[trigger] a.lines[i], b.lines[i])
    &&& a.rectangles.len() == b.rectangles.len()
    &&& forall|i: int|
        0 <= i < a.rectangles.len() ==> same_rectangle(#[trigger] a.rectangles[i], b.rectangles[i])
    &&& a.polygons.len() == b.polygons.len()
    &&& forall|i: int|
        0 <= i < a.polygons.len() ==> same_polygon(#[trigger] a.polygons[i], b.polygons[i])
    &&& a.arcs.len() == b.arcs.len()
    &&& forall|i: int| 0 <= i < a.arcs.len() ==> same_arc(#[trigger] a.arcs[i], b.arcs[i])
    &&& a.wires.len() == b.wires.len()
    &&& forall|i: int| 0 <= i < a.wires.len() ==> same_wire(#[trigger] a.wires[i], b.wires[i])
    &&& a.components.len() == b.components.len()
    &&& forall|i: int|
        0 <= i < a.components.len() ==> same_component(#[trigger] a.components[i], b.components[i])
}

/// The objects `a` and `b` are of one kind and say the same.
pub open spec fn same_object(a: ObjectView, b: ObjectView) -> bool {
    match a {
        ObjectView::SpiceProperty(p) => b is SpiceProperty && same_property(p, b->SpiceProperty_0),
        ObjectView::VerilogProperty(p) => b is VerilogProperty && same_property(
            p,
            b->VerilogProperty_0,
        ),
        ObjectView::VhdlProperty(p) => b is VhdlProperty && same_property(p, b->VhdlProperty_0),
        ObjectView::TedaXProperty(p) => b is TedaXProperty && same_property(p, b->TedaXProperty_0),
        ObjectView::SymbolProperty(p) => b is SymbolProperty && same_property(
            p,
            b->SymbolProperty_0,
        ),
        ObjectView::Arc(o) => b is Arc && same_arc(o, b->Arc_0),
        ObjectView::Component(o) => b is Component && same_component(o, b->Component_0),
        ObjectView::Line(o) => b is Line && same_line(o, b->Line_0),
        ObjectView::Polygon(o) => b is Polygon && same_polygon(o, b->Polygon_0),
        ObjectView::Rectangle(o) => b is Rectangle && same_rectangle(o, b->Rectangle_0),
        ObjectView::Text(o) => b is Text && same_text(o, b->Text_0),
        ObjectView::Wire(o) => b is Wire && same_wire(o, b->Wire_0),
    }
}

/// Schematics that say the same, into which objects that say the same are
/// taken, say the same.
pub proof fn lemma_add_same(h: SchematicView, held: SchematicView, o: ObjectView, p: ObjectView)
    requires
        same_schematic(h, held),
        same_object(o, p),
    ensures
        same_schematic(h.add_object(o), held.add_object(p)),
{
    let a = h.add_object(o);
    let b = held.add_object(p);
    assert forall|i: int| 0 <= i < a.texts.len() implies same_text(
        #[trigger] a.texts[i],
        b.texts[i],
    ) by {
        if i < h.texts.len() {
            assert(same_text(h.texts[i], held.texts[i]));
        }
    }
    assert forall|i: int| 0 <= i < a.lines.len() implies same_line(
        #[trigger] a.lines[i],
        b.lines[i],
    ) by {
        if i < h.lines.len() {
            assert(same_line(h.lines[i], held.lines[i]));
        }
    }
    assert forall|i: int| 0 <= i < a.rectangles.len() implies same_rectangle(
        #[trigger] a.rectangles[i],
        b.rectangles[i],
    ) by {
        if i < h.rectangles.len() {
            assert(same_rectangle(h.rectangles[i], held.rectangles[i]));
        }
    }
    assert forall|i: int| 0 <= i < a.polygons.len() implies same_polygon(
        #[trigger] a.polygons[i],
        b.polygons[i],
    ) by {
        if i < h.polygons.len() {
            assert(same_polygon(h.polygons[i], held.polygons[i]));
        }
    }
    assert forall|i: int| 0 <= i < a.arcs.len() implies same_arc(#[trigger] a.arcs[i], b.arcs[i]) by {
        if i < h.arcs.len() {
            assert(same_arc(h.arcs[i], held.arcs[i]));
        }
    }
    assert forall|i: int| 0 <= i < a.wires.len() implies same_wire(
        #[trigger] a.wires[i],
        b.wires[i],
    ) by {
        if i < h.wires.len() {
            assert(same_wire(h.wires[i], held.wires[i]));
        }
    }
    assert forall|i: int| 0 <= i < a.components.len() implies same_component(
        #[trigger] a.components[i],
        b.components[i],
    ) by {
        if i < h.components.len() {
            assert(same_component(h.components[i], held.components[i]));
        }
    }
}

/// The text of an object.
pub open spec fn object_text(o: ObjectView) -> Seq<u8> {
    match o {
        ObjectView::VhdlProperty(p) => tagged_text(grammar::TAG_VHDL, p),
        ObjectView::SymbolProperty(p) => tagged_text(grammar::TAG_SYMBOL, p),
        ObjectView::VerilogProperty(p) => tagged_text(grammar::TAG_VERILOG, p),
        ObjectView::SpiceProperty(p) => tagged_text(grammar::TAG_SPICE, p),
        ObjectView::TedaXProperty(p) => tagged_text(grammar::TAG_TEDAX, p),
        ObjectView::Arc(o) => arc_text(o),
        ObjectView::Component(o) => component_text(o),
        ObjectView::Line(o) => line_text(o),
        ObjectView::Polygon(o) => polygon_text(o),
        ObjectView::Rectangle(o) => rectangle_text(o),
        ObjectView::Text(o) => text_text(o),
        ObjectView::Wire(o) => wire_text(o),
    }
}

/// The tag of an object.
pub open spec fn object_tag(o: ObjectView) -> u8 {
    match o {
        ObjectView::VhdlProperty(_) => grammar::TAG_VHDL,
        ObjectView::SymbolProperty(_) => grammar::TAG_SYMBOL,
        ObjectView::VerilogProperty(_) => grammar::TAG_VERILOG,
        ObjectView::SpiceProperty(_) => grammar::TAG_SPICE,
        ObjectView::TedaXProperty(_) => grammar::TAG_TEDAX,
        ObjectView::Arc(_) => grammar::TAG_ARC,
        ObjectView::Component(_) => grammar::TAG_COMPONENT,
        ObjectView::Line(_) => grammar::TAG_LINE,
        ObjectView::Polygon(_) => grammar::TAG_POLYGON,
        ObjectView::Rectangle(_) => grammar::TAG_RECTANGLE,
        ObjectView::Text(_) => grammar::TAG_TEXT,
        ObjectView::Wire(_) => grammar::TAG_WIRE,
    }
}

/// The text of an object begins with its tag.
pub proof fn lemma_object_text_first(o: ObjectView)
    ensures
        object_text(o).len() >= 1,
        object_text(o)[0] == object_tag(o),
{
    match o {
        ObjectView::Component(c) => {
            assert(instance_text(c)[0] == grammar::TAG_COMPONENT);
            assert(component_text(c)[0] == instance_text(c)[0]);
        },
        _ => {},
    }
}

/// The texts of the objects `objects`.
pub open spec fn object_texts(objects: Seq<ObjectView>) -> Seq<Seq<u8>> {
    Seq::new(objects.len(), |i: int| object_text(objects[i]))
}

/// What may follow an object: the end of the input, or a line feed before
/// something that is neither whitespace nor an opening bracket.
pub open spec fn boundary(z: SpanView) -> bool {
    z.len() == 0 || (z.len() >= 2 && z.byte(0) == NEWLINE && !ByteClass::MultiSpace.has(z.byte(1))
        && z.byte(1) != grammar::OPEN_BRACKET)
}

/// What may follow a schematic: the end of the input, or a line feed and a
/// closing bracket.
pub open spec fn stop(z: SpanView) -> bool {
    z.len() == 0 || (z.len() >= 2 && z.byte(0) == NEWLINE && z.byte(1) == grammar::CLOSE_BRACKET)
}

/// A sound schematic, written out before the end of the input or before the
/// end of an embedded symbol, is read back.
#[verifier::rlimit(80)]
pub proof fn lemma_schematic_back(y: SpanView, s: SchematicView, source: Seq<u8>, levels: nat)
    requires
        y.wf(),
        begins(y, schematic_text(s)),
        stop(y.skip(schematic_text(s).len())),
        schematic_sound(s, source),
        schematic_faithful(s),
        schematic_nests(s, levels),
    ensures
        grammar::schematic(y, levels) matches Parsed::Done { len, value } && len == schematic_text(
            s,
        ).len() && same_schematic(s, value),
    decreases schematic_text(s).len(), 5int,
{
    let lines = object_lines(s);
    let head = tagged_text(grammar::TAG_VERSION, s.version);
    let body = spread(object_texts(lines), NEWLINE, 0);
    lemma_structure_text(s);
    lemma_structure_fold(s);
    lemma_structure_sound(s, source);
    lemma_structure_faithful(s);
    lemma_structure_nests(s, levels);
    lemma_begins_split(y, head, body);
    assert(y.byte(0) == head[0]);
    assert(grammar::gap(y) == 0);
    assert(y.skip(0) == y);
    lemma_property_object_back(y, grammar::TAG_VERSION, s.version);
    let version = grammar::version_object(y)->value;
    let y1 = y.skip(head.len());
    assert(y1.skip(body.len()) == y.skip(schematic_text(s).len()));
    let h = SchematicView::new(s.version);
    let held = SchematicView::new(version);
    assert(same_schematic(h, held));
    assert(lines.skip(0) =~= lines);
    lemma_objects_back(y1, lines, 0, h, held, source, levels);
}

/// Sound objects, each written on a line of its own before the end of the
/// input or before the end of an embedded symbol, are read back.
#[verifier::rlimit(80)]
pub proof fn lemma_objects_back(
    y: SpanView,
    objects: Seq<ObjectView>,
    from: nat,
    h: SchematicView,
    held: SchematicView,
    source: Seq<u8>,
    levels: nat,
)
    requires
        y.wf(),
        from <= objects.len(),
        all_nest(objects, levels),
        begins(y, spread(object_texts(objects), NEWLINE, from as int)),
        stop(y.skip(spread(object_texts(objects), NEWLINE, from as int).len())),
        forall|i: int| 0 <= i < objects.len() ==> object_sound(#[trigger] objects[i], source),
        same_schematic(h, held),
        forall|i: int| 0 <= i < objects.len() ==> object_faithful(#[trigger] objects[i]),
    ensures
        grammar::objects_from(y, held, levels) matches Parsed::Done { len, value } && len == spread(
            object_texts(objects),
            NEWLINE,
            from as int,
        ).len() && same_schematic(taken(h, objects.skip(from as int)), value),
    decreases spread(object_texts(objects), NEWLINE, from as int).len(), 4int,
{
    let texts = object_texts(objects);
    let all = spread(texts, NEWLINE, from as int);
    if from < objects.len() {
        let o = objects[from as int];
        let t = object_text(o);
        let later = spread(texts, NEWLINE, from as int + 1);
        assert(texts[from as int] == t);
        assert(all =~= seq![NEWLINE] + (t + later));
        lemma_object_text_first(o);
        lemma_begins_split(y, seq![NEWLINE], t + later);
        assert(y.byte(0) == seq![NEWLINE][0]);
        let y1 = y.skip(1);
        lemma_begins_split(y1, t, later);
        assert(y1.byte(0) == t[0]);
        assert(y1.byte(0) == y.byte(1));
        lemma_gap_one(y);
        let y2 = y1.skip(t.len());
        assert(y2 == y.skip(1 + t.len()));
        assert(y2.skip(later.len()) == y.skip(all.len()));
        assert(boundary(y2)) by {
            if from + 1 < objects.len() {
                let next = objects[from as int + 1];
                lemma_object_text_first(next);
                assert(texts[from as int + 1] == object_text(next));
                assert(later[0] == NEWLINE);
                assert(later[1] == object_tag(next));
                assert(y2.byte(0) == later[0]);
                assert(y2.byte(1) == later[1]);
            } else {
                assert(later =~= Seq::<u8>::empty());
            }
        }
        assert(object_nests(o, levels));
        lemma_any_object_back(y1, o, source, levels);
        let parsed = grammar::any_object(y1, levels)->value;
        lemma_add_same(h, held, o, parsed);
        lemma_objects_back(
            y2,
            objects,
            from + 1,
            h.add_object(o),
            held.add_object(parsed),
            source,
            levels,
        );
        assert(objects.skip(from as int) =~= seq![o] + objects.skip(from as int + 1));
        lemma_taken_first(h, o, objects.skip(from as int + 1));
    } else {
        assert(all =~= Seq::<u8>::empty());
        assert(y.skip(0) == y);
        assert(objects.skip(from as int) =~= Seq::<ObjectView>::empty());
        if y.len() > 0 {
            assert(y.skip(1).byte(0) == y.byte(1));
            lemma_gap_one(y);
            reveal(grammar::wire_object);
        }
    }
}

/// A sound object, written out before something that may follow an object,
/// is read back.
#[verifier::rlimit(80)]
pub proof fn lemma_any_object_back(y: SpanView, o: ObjectView, source: Seq<u8>, levels: nat)
    requires
        y.wf(),
        begins(y, object_text(o)),
        boundary(y.skip(object_text(o).len())),
        object_sound(o, source),
        object_faithful(o),
        object_nests(o, levels),
    ensures
        grammar::any_object(y, levels) matches Parsed::Done { len, value } && len == object_text(
            o,
        ).len() && same_object(o, value),
    decreases object_text(o).len(), 3int,
{
    lemma_object_text_first(o);
    assert(y.byte(0) == object_text(o)[0]);
    match o {
        ObjectView::VhdlProperty(p) => {
            lemma_property_object_back(y, grammar::TAG_VHDL, p);
        },
        ObjectView::SymbolProperty(p) => {
            lemma_property_object_back(y, grammar::TAG_SYMBOL, p);
        },
        ObjectView::VerilogProperty(p) => {
            lemma_property_object_back(y, grammar::TAG_VERILOG, p);
        },
        ObjectView::SpiceProperty(p) => {
            lemma_property_object_back(y, grammar::TAG_SPICE, p);
        },
        ObjectView::TedaXProperty(p) => {
            lemma_property_object_back(y, grammar::TAG_TEDAX, p);
        },
        ObjectView::Arc(a) => {
            lemma_arc_back(y, a, source);
        },
        ObjectView::Component(c) => {
            lemma_component_back(y, c, source, levels);
        },
        ObjectView::Line(l) => {
            lemma_line_back(y, l, source);
        },
        ObjectView::Polygon(p) => {
            lemma_polygon_back(y, p, source);
        },
        ObjectView::Rectangle(r) => {
            lemma_rectangle_back(y, r, source);
        },
        ObjectView::Text(t) => {
            lemma_text_back(y, t, source);
        },
        ObjectView::Wire(w) => {
            lemma_wire_back(y, w, source);
        },
    }
}

/// The fields of a sound component before what it embeds, written out, are
/// read back.
pub proof fn lemma_instance_back(y: SpanView, c: ComponentView, source: Seq<u8>)
    requires
        y.wf(),
        begins(y, instance_text(c)),
        component_sound(c, source),
        component_faithful(c),
    ensures
        y.starts_with(grammar::TAG_COMPONENT),
        ({
            let x = y.skip(1);
            let a = grammar::spaced(x, grammar::reference(x.skip(grammar::gap(x))));
            let b = grammar::spaced_coordinate(x.skip(a->len));
            let c1 = grammar::spaced_rotation(x.skip(a->len + b->len));
            let d = grammar::spaced_flip(x.skip(a->len + b->len + c1->len));
            let e = grammar::spaced_property(x.skip(a->len + b->len + c1->len + d->len));
            &&& a is Done
            &&& b is Done
            &&& c1 is Done
            &&& d is Done
            &&& e is Done
            &&& a->value.text() == c.reference.text()
            &&& b->value == c.position
            &&& c1->value == c.rotation
            &&& d->value == c.flip
            &&& same_property(c.property, e->value)
            &&& 1 + a->len + b->len + c1->len + d->len + e->len == instance_text(c).len()
        }),
        y.skip(instance_text(c).len()).wf(),
{
    reveal(grammar::reference);
    let name = c.reference.text();
    let f1 = sp(seq![OPEN_BRACE] + name + seq![CLOSE_BRACE]);
    let f2 = sp(vec2_text(c.position));
    let f3 = sp(rotation_text(c.rotation));
    let f4 = sp(flip_text(c.flip));
    let f5 = sp(property_text(c.property));
    let r3 = f4 + f5;
    let r2 = f3 + r3;
    let r1 = f2 + r2;
    assert(instance_text(c) =~= seq![grammar::TAG_COMPONENT] + (f1 + r1));
    lemma_begins_split(y, seq![grammar::TAG_COMPONENT], f1 + r1);
    assert(y.byte(0) == seq![grammar::TAG_COMPONENT][0]);
    assert(r2[0] == SPACE && f5[0] == SPACE);
    let y1 = y.skip(1);
    lemma_spaced_braces_back(y1, name, "reference"@, r1);
    let y2 = y1.skip(f1.len());
    lemma_spaced_coordinate_back(y2, c.position, r2);
    let y3 = y2.skip(f2.len());
    lemma_spaced_rotation_back(y3, c.rotation, r3);
    let y4 = y3.skip(f3.len());
    lemma_spaced_flip_back(y4, c.flip, f5);
    let y5 = y4.skip(f4.len());
    assert(f5 =~= f5 + Seq::<u8>::empty());
    lemma_spaced_property_back(y5, c.property);
    assert(y3 == y1.skip(f1.len() + f2.len()));
    assert(y4 == y1.skip(f1.len() + f2.len() + f3.len()));
    assert(y5 == y1.skip(f1.len() + f2.len() + f3.len() + f4.len()));
    assert(instance_text(c).len() == 1 + f1.len() + f2.len() + f3.len() + f4.len() + f5.len());
}

/// What a sound component embeds, written out after the component, is read
/// back; where it embeds nothing, nothing is read.
#[verifier::rlimit(80)]
pub proof fn lemma_embedded_back(z: SpanView, c: ComponentView, source: Seq<u8>, levels: nat)
    requires
        z.wf(),
        component_sound(c, source),
        component_faithful(c),
        component_nests(c, levels),
        match c.embedding {
            Some(s) => begins(z, seq![NEWLINE] + embedding_text(s)),
            None => boundary(z),
        },
    ensures
        match c.embedding {
            Some(s) => grammar::embedded(z, levels) matches Parsed::Done { len, value: Some(t) }
                && len == 1 + embedding_text(s).len() && same_schematic(s, t),
            None => grammar::embedded(z, levels) == (Parsed::Done {
                len: 0,
                value: None::<SchematicView>,
            }),
        },
    decreases
            match c.embedding {
                Some(s) => embedding_text(s).len() + 1,
                None => 0,
            },
            1int,
{
    match c.embedding {
        Some(s) => {
            let e = embedding_text(s);
            lemma_begins_split(z, seq![NEWLINE], e);
            assert(z.byte(0) == seq![NEWLINE][0]);
            assert(z.skip(1).byte(0) == e[0]);
            assert(z.skip(1).byte(0) == z.byte(1));
            lemma_gap_one(z);
            lemma_embedding_back(z.skip(1), s, source, levels);
        },
        None => {
            if z.len() > 0 {
                assert(z.skip(1).byte(0) == z.byte(1));
                lemma_gap_one(z);
            }
        },
    }
}

/// A sound component, written out before something that may follow an
/// object, is read back.
#[verifier::rlimit(80)]
pub proof fn lemma_component_back(y: SpanView, c: ComponentView, source: Seq<u8>, levels: nat)
    requires
        y.wf(),
        begins(y, component_text(c)),
        boundary(y.skip(component_text(c).len())),
        component_sound(c, source),
        component_faithful(c),
        component_nests(c, levels),
    ensures
        grammar::component_instance(y, levels) matches Parsed::Done { len, value } && len
            == component_text(c).len() && same_component(c, value),
    decreases component_text(c).len(), 2int,
{
    let tail = match c.embedding {
        Some(s) => seq![NEWLINE] + embedding_text(s),
        None => Seq::<u8>::empty(),
    };
    assert(component_text(c) =~= instance_text(c) + tail);
    lemma_begins_split(y, instance_text(c), tail);
    lemma_instance_back(y, c, source);
    let z = y.skip(instance_text(c).len());
    lemma_embedded_back(z, c, source, levels);
    let x = y.skip(1);
    let a = grammar::spaced(x, grammar::reference(x.skip(grammar::gap(x))));
    let b = grammar::spaced_coordinate(x.skip(a->len));
    let c1 = grammar::spaced_rotation(x.skip(a->len + b->len));
    let d = grammar::spaced_flip(x.skip(a->len + b->len + c1->len));
    let e = grammar::spaced_property(x.skip(a->len + b->len + c1->len + d->len));
    assert(z == x.skip(a->len + b->len + c1->len + d->len + e->len));
}

/// Where an embedded symbol is written out, the brackets, the line feeds and
/// the schematic stand where the parser looks for them.
pub proof fn lemma_embedding_bytes(y: SpanView, s: SchematicView)
    requires
        y.wf(),
        begins(y, embedding_text(s)),
    ensures
        y.starts_with(grammar::OPEN_BRACKET),
        grammar::gap(y.skip(1)) == 1,
        y.skip(2).wf(),
        begins(y.skip(2), schematic_text(s)),
        stop(y.skip(2).skip(schematic_text(s).len())),
        grammar::gap(y.skip(2 + schematic_text(s).len())) == 1,
        y.skip(2 + schematic_text(s).len() + 1).starts_with(grammar::CLOSE_BRACKET),
        embedding_text(s).len() == schematic_text(s).len() + 4,
{
    let inner = schematic_text(s);
    let close = seq![NEWLINE, grammar::CLOSE_BRACKET];
    assert(embedding_text(s) =~= seq![grammar::OPEN_BRACKET, NEWLINE] + (inner + close));
    lemma_begins_split(y, seq![grammar::OPEN_BRACKET, NEWLINE], inner + close);
    assert(y.byte(0) == seq![grammar::OPEN_BRACKET, NEWLINE][0]);
    assert(y.byte(1) == seq![grammar::OPEN_BRACKET, NEWLINE][1]);
    let y2 = y.skip(2);
    lemma_begins_split(y2, inner, close);
    lemma_structure_text(s);
    assert(y2.byte(0) == inner[0]);
    assert(y.skip(1).byte(0) == y.byte(1));
    assert(y.skip(1).byte(1) == y.byte(2));
    assert(y2.byte(0) == y.byte(2));
    lemma_gap_one(y.skip(1));
    let y3 = y2.skip(inner.len());
    assert(y3.byte(0) == close[0]);
    assert(y3.byte(1) == close[1]);
    assert(y3.skip(1).byte(0) == y3.byte(1));
    lemma_gap_one(y3);
    assert(y3 == y.skip(2 + inner.len()));
    assert(y3.skip(1) == y.skip(2 + inner.len() + 1));
}

/// A sound schematic, written out as an embedded symbol, is read back.
#[verifier::rlimit(80)]
pub proof fn lemma_embedding_back(y: SpanView, s: SchematicView, source: Seq<u8>, levels: nat)
    requires
        y.wf(),
        begins(y, embedding_text(s)),
        schematic_sound(s, source),
        schematic_faithful(s),
        levels > 0,
        schematic_nests(s, (levels - 1) as nat),
    ensures
        grammar::embedding(y, levels) matches Parsed::Done { len, value } && len == embedding_text(
            s,
        ).len() && same_schematic(s, value),
    decreases embedding_text(s).len(), 0int,
{
    lemma_embedding_bytes(y, s);
    lemma_schematic_back(y.skip(2), s, source, (levels - 1) as nat);
    let inner = grammar::schematic(y.skip(2), (levels - 1) as nat);
    assert(y.skip(1 + grammar::gap(y.skip(1))) == y.skip(2));
    assert(inner is Done && inner->len == schematic_text(s).len());
}

/// The property `p` as the object with the tag `tag`.
pub open spec fn property_as_object(tag: u8, p: PropertyView) -> ObjectView {
    if tag == grammar::TAG_VHDL {
        ObjectView::VhdlProperty(p)
    } else if tag == grammar::TAG_SYMBOL {
        ObjectView::SymbolProperty(p)
    } else if tag == grammar::TAG_VERILOG {
        ObjectView::VerilogProperty(p)
    } else if tag == grammar::TAG_SPICE {
        ObjectView::SpiceProperty(p)
    } else {
        ObjectView::TedaXProperty(p)
    }
}

/// The property of the schematic in `slot`, as a list of one object or of
/// none.
pub open spec fn slot_line(slot: Option<PropertyView>, tag: u8) -> Seq<ObjectView> {
    match slot {
        Some(p) => seq![property_as_object(tag, p)],
        None => Seq::empty(),
    }
}

/// The objects of a schematic in the order in which they are written: the
/// properties of the schematic, then the texts, lines, rectangles, polygons,
/// arcs, wires and components.
pub open spec fn object_lines(s: SchematicView) -> Seq<ObjectView> {
    slot_line(s.vhdl_property, grammar::TAG_VHDL) + slot_line(
        s.symbol_property,
        grammar::TAG_SYMBOL,
    ) + slot_line(s.verilog_property, grammar::TAG_VERILOG) + slot_line(
        s.spice_property,
        grammar::TAG_SPICE,
    ) + slot_line(s.tedax_property, grammar::TAG_TEDAX) + Seq::new(
        s.texts.len(),
        |i: int| ObjectView::Text(s.texts[i]),
    ) + Seq::new(s.lines.len(), |i: int| ObjectView::Line(s.lines[i])) + Seq::new(
        s.rectangles.len(),
        |i: int| ObjectView::Rectangle(s.rectangles[i]),
    ) + Seq::new(s.polygons.len(), |i: int| ObjectView::Polygon(s.polygons[i])) + Seq::new(
        s.arcs.len(),
        |i: int| ObjectView::Arc(s.arcs[i]),
    ) + Seq::new(s.wires.len(), |i: int| ObjectView::Wire(s.wires[i])) + Seq::new(
        s.components.len(),
        |i: int| ObjectView::Component(s.components[i]),
    )
}

/// The objects `objects`, each on a line of its own after a line that came
/// before.
pub open spec fn lines_text(objects: Seq<ObjectView>) -> Seq<u8> {
    spread(object_texts(objects), NEWLINE, 0)
}

/// The lines of both of two lists of objects are those of the first, and
/// then those of the second.
pub proof fn lemma_lines_concat(a: Seq<ObjectView>, b: Seq<ObjectView>)
    ensures
        lines_text(a + b) == lines_text(a) + lines_text(b),
{
    assert(object_texts(a + b) =~= object_texts(a) + object_texts(b));
    lemma_spread_concat(object_texts(a), object_texts(b), NEWLINE);
}

/// A section of texts is these texts, each after a line feed.
pub proof fn lemma_section_spread(items: Seq<Seq<u8>>)
    ensures
        section(items) == spread(items, NEWLINE, 0),
{
    if items.len() >= 1 {
        lemma_joined_spread(items, NEWLINE);
    } else {
        assert(spread(items, NEWLINE, 0) =~= Seq::<u8>::empty());
    }
}

/// The texts of the first `n` components are the texts of these components.
pub proof fn lemma_component_texts(cs: Seq<ComponentView>, n: int)
    requires
        0 <= n <= cs.len(),
    ensures
        component_texts(cs, n) == Seq::new(n as nat, |i: int| component_text(cs[i])),
    decreases n,
{
    if n > 0 {
        lemma_component_texts(cs, n - 1);
    }
    assert(component_texts(cs, n) =~= Seq::new(n as nat, |i: int| component_text(cs[i])));
}

/// Concatenation can be regrouped.
pub proof fn lemma_regroup(
    x: Seq<u8>,
    a: Seq<u8>,
    b: Seq<u8>,
    c: Seq<u8>,
    d: Seq<u8>,
    e: Seq<u8>,
    f: Seq<u8>,
)
    ensures
        x + a + b + c + d + e + f == x + (a + b + c + d + e + f),
        x + a + b + c + d + e == x + (a + b + c + d + e),
{
    assert(x + a + b + c + d + e + f =~= x + (a + b + c + d + e + f));
    assert(x + a + b + c + d + e =~= x + (a + b + c + d + e));
}

/// The lines of the texts, lines, rectangles, polygons, arcs, wires and
/// components of a schematic are their sections.
pub proof fn lemma_kind_lines(s: SchematicView)
    ensures
        lines_text(Seq::new(s.texts.len(), |i: int| ObjectView::Text(s.texts[i]))) == section(
            Seq::new(s.texts.len(), |i: int| text_text(s.texts[i])),
        ),
        lines_text(Seq::new(s.lines.len(), |i: int| ObjectView::Line(s.lines[i]))) == section(
            Seq::new(s.lines.len(), |i: int| line_text(s.lines[i])),
        ),
        lines_text(Seq::new(s.rectangles.len(), |i: int| ObjectView::Rectangle(s.rectangles[i])))
            == section(Seq::new(s.rectangles.len(), |i: int| rectangle_text(s.rectangles[i]))),
        lines_text(Seq::new(s.polygons.len(), |i: int| ObjectView::Polygon(s.polygons[i])))
            == section(Seq::new(s.polygons.len(), |i: int| polygon_text(s.polygons[i]))),
        lines_text(Seq::new(s.arcs.len(), |i: int| ObjectView::Arc(s.arcs[i]))) == section(
            Seq::new(s.arcs.len(), |i: int| arc_text(s.arcs[i])),
        ),
        lines_text(Seq::new(s.wires.len(), |i: int| ObjectView::Wire(s.wires[i]))) == section(
            Seq::new(s.wires.len(), |i: int| wire_text(s.wires[i])),
        ),
        lines_text(Seq::new(s.components.len(), |i: int| ObjectView::Component(s.components[i])))
            == section(component_texts(s.components, s.components.len() as int)),
{
    let a6 = Seq::new(s.texts.len(), |i: int| ObjectView::Text(s.texts[i]));
    let a7 = Seq::new(s.lines.len(), |i: int| ObjectView::Line(s.lines[i]));
    let a8 = Seq::new(s.rectangles.len(), |i: int| ObjectView::Rectangle(s.rectangles[i]));
    let a9 = Seq::new(s.polygons.len(), |i: int| ObjectView::Polygon(s.polygons[i]));
    let a10 = Seq::new(s.arcs.len(), |i: int| ObjectView::Arc(s.arcs[i]));
    let a11 = Seq::new(s.wires.len(), |i: int| ObjectView::Wire(s.wires[i]));
    let a12 = Seq::new(s.components.len(), |i: int| ObjectView::Component(s.components[i]));
    let t6 = Seq::new(s.texts.len(), |i: int| text_text(s.texts[i]));
    let t7 = Seq::new(s.lines.len(), |i: int| line_text(s.lines[i]));
    let t8 = Seq::new(s.rectangles.len(), |i: int| rectangle_text(s.rectangles[i]));
    let t9 = Seq::new(s.polygons.len(), |i: int| polygon_text(s.polygons[i]));
    let t10 = Seq::new(s.arcs.len(), |i: int| arc_text(s.arcs[i]));
    let t11 = Seq::new(s.wires.len(), |i: int| wire_text(s.wires[i]));
    let t12 = component_texts(s.components, s.components.len() as int);
    lemma_component_texts(s.components, s.components.len() as int);
    assert(object_texts(a6) =~= t6);
    assert(object_texts(a7) =~= t7);
    assert(object_texts(a8) =~= t8);
    assert(object_texts(a9) =~= t9);
    assert(object_texts(a10) =~= t10);
    assert(object_texts(a11) =~= t11);
    assert(object_texts(a12) =~= t12);
    lemma_section_spread(t6);
    lemma_section_spread(t7);
    lemma_section_spread(t8);
    lemma_section_spread(t9);
    lemma_section_spread(t10);
    lemma_section_spread(t11);
    lemma_section_spread(t12);
}

/// The lines of the objects of a schematic are the lines of its properties,
/// then those of its texts, lines, rectangles, polygons, arcs and wires, then
/// those of its components.
pub proof fn lemma_lines_split(s: SchematicView)
    ensures
        lines_text(object_lines(s)) == lines_text(slot_line(s.vhdl_property, grammar::TAG_VHDL)) + lines_text(
            slot_line(s.symbol_property, grammar::TAG_SYMBOL),
        ) + lines_text(slot_line(s.verilog_property, grammar::TAG_VERILOG)) + lines_text(
            slot_line(s.spice_property, grammar::TAG_SPICE),
        ) + lines_text(slot_line(s.tedax_property, grammar::TAG_TEDAX)) + lines_text(
            Seq::new(s.texts.len(), |i: int| ObjectView::Text(s.texts[i])),
        ) + lines_text(Seq::new(s.lines.len(), |i: int| ObjectView::Line(s.lines[i])))
            + lines_text(
            Seq::new(s.rectangles.len(), |i: int| ObjectView::Rectangle(s.rectangles[i])),
        ) + lines_text(Seq::new(s.polygons.len(), |i: int| ObjectView::Polygon(s.polygons[i])))
            + lines_text(Seq::new(s.arcs.len(), |i: int| ObjectView::Arc(s.arcs[i]))) + lines_text(
            Seq::new(s.wires.len(), |i: int| ObjectView::Wire(s.wires[i])),
        ) + lines_text(
            Seq::new(s.components.len(), |i: int| ObjectView::Component(s.components[i])),
        ),
{
    let a1 = slot_line(s.vhdl_property, grammar::TAG_VHDL);
    let a2 = slot_line(s.symbol_property, grammar::TAG_SYMBOL);
    let a3 = slot_line(s.verilog_property, grammar::TAG_VERILOG);
    let a4 = slot_line(s.spice_property, grammar::TAG_SPICE);
    let a5 = slot_line(s.tedax_property, grammar::TAG_TEDAX);
    let a6 = Seq::new(s.texts.len(), |i: int| ObjectView::Text(s.texts[i]));
    let a7 = Seq::new(s.lines.len(), |i: int| ObjectView::Line(s.lines[i]));
    let a8 = Seq::new(s.rectangles.len(), |i: int| ObjectView::Rectangle(s.rectangles[i]));
    let a9 = Seq::new(s.polygons.len(), |i: int| ObjectView::Polygon(s.polygons[i]));
    let a10 = Seq::new(s.arcs.len(), |i: int| ObjectView::Arc(s.arcs[i]));
    let a11 = Seq::new(s.wires.len(), |i: int| ObjectView::Wire(s.wires[i]));
    let a12 = Seq::new(s.components.len(), |i: int| ObjectView::Component(s.components[i]));
    lemma_lines_concat(a1, a2);
    lemma_lines_concat(a1 + a2, a3);
    lemma_lines_concat(a1 + a2 + a3, a4);
    lemma_lines_concat(a1 + a2 + a3 + a4, a5);
    lemma_lines_concat(a1 + a2 + a3 + a4 + a5, a6);
    lemma_lines_concat(a1 + a2 + a3 + a4 + a5 + a6, a7);
    lemma_lines_concat(a1 + a2 + a3 + a4 + a5 + a6 + a7, a8);
    lemma_lines_concat(a1 + a2 + a3 + a4 + a5 + a6 + a7 + a8, a9);
    lemma_lines_concat(a1 + a2 + a3 + a4 + a5 + a6 + a7 + a8 + a9, a10);
    lemma_lines_concat(a1 + a2 + a3 + a4 + a5 + a6 + a7 + a8 + a9 + a10, a11);
    lemma_lines_concat(a1 + a2 + a3 + a4 + a5 + a6 + a7 + a8 + a9 + a10 + a11, a12);
}

/// The text of a schematic is its version and then its objects, each on a
/// line of its own.
#[verifier::rlimit(80)]
pub proof fn lemma_structure_text(s: SchematicView)
    ensures
        schematic_text(s) == tagged_text(grammar::TAG_VERSION, s.version) + lines_text(object_lines(s)),
        schematic_text(s).len() >= 1,
        schematic_text(s)[0] == grammar::TAG_VERSION,
        tagged_text(grammar::TAG_VERSION, s.version).len() >= 1,
{
    lemma_slot_lines(s.vhdl_property, grammar::TAG_VHDL);
    lemma_slot_lines(s.symbol_property, grammar::TAG_SYMBOL);
    lemma_slot_lines(s.verilog_property, grammar::TAG_VERILOG);
    lemma_slot_lines(s.spice_property, grammar::TAG_SPICE);
    lemma_slot_lines(s.tedax_property, grammar::TAG_TEDAX);
    lemma_kind_lines(s);
    lemma_lines_split(s);
    let v = tagged_text(grammar::TAG_VERSION, s.version);
    let l1 = slot_text(grammar::TAG_VHDL, s.vhdl_property);
    let l2 = slot_text(grammar::TAG_SYMBOL, s.symbol_property);
    let l3 = slot_text(grammar::TAG_VERILOG, s.verilog_property);
    let l4 = slot_text(grammar::TAG_SPICE, s.spice_property);
    let l5 = slot_text(grammar::TAG_TEDAX, s.tedax_property);
    let l6 = section(Seq::new(s.texts.len(), |i: int| text_text(s.texts[i])));
    let l7 = section(Seq::new(s.lines.len(), |i: int| line_text(s.lines[i])));
    let l8 = section(Seq::new(s.rectangles.len(), |i: int| rectangle_text(s.rectangles[i])));
    let l9 = section(Seq::new(s.polygons.len(), |i: int| polygon_text(s.polygons[i])));
    let l10 = section(Seq::new(s.arcs.len(), |i: int| arc_text(s.arcs[i])));
    let l11 = section(Seq::new(s.wires.len(), |i: int| wire_text(s.wires[i])));
    let l12 = section(component_texts(s.components, s.components.len() as int));
    let slots = l1 + l2 + l3 + l4 + l5;
    let kinds = l6 + l7 + l8 + l9 + l10 + l11;
    assert(properties_text(s) == v + l1 + l2 + l3 + l4 + l5);
    assert(primitives_text(s) == kinds);
    assert(schematic_text(s) == properties_text(s) + kinds + l12);
    assert(lines_text(object_lines(s)) == slots + l6 + l7 + l8 + l9 + l10 + l11 + l12);
    lemma_regroup(
        Seq::empty(),
        l1,
        l2,
        l3,
        l4,
        l5,
        Seq::empty(),
    );
    lemma_regroup(v, l1, l2, l3, l4, l5, Seq::empty());
    lemma_regroup(slots, l6, l7, l8, l9, l10, l11);
    assert(properties_text(s) == v + slots);
    assert(slots + l6 + l7 + l8 + l9 + l10 + l11 == slots + kinds);
    crate::render::lemma_concat(v, slots, kinds);
    crate::render::lemma_concat(v, slots + kinds, l12);
    assert(v[0] == grammar::TAG_VERSION);
}

/// The line of a property of the schematic is its text after a line feed.
pub proof fn lemma_slot_lines(slot: Option<PropertyView>, tag: u8)
    requires
        crate::laws::is_slot_tag(tag),
    ensures
        lines_text(slot_line(slot, tag)) == slot_text(tag, slot),
{
    let objects = slot_line(slot, tag);
    let texts = object_texts(objects);
    match slot {
        Some(p) => {
            assert(texts[0] == tagged_text(tag, p));
            assert(spread(texts, NEWLINE, 1) =~= Seq::<u8>::empty());
            assert(spread(texts, NEWLINE, 0) =~= seq![NEWLINE] + tagged_text(tag, p));
        },
        None => {
            assert(spread(texts, NEWLINE, 0) =~= Seq::<u8>::empty());
        },
    }
}

/// Taking both of two lists of objects is taking the first, and then the
/// second.
pub proof fn lemma_taken_concat(h: SchematicView, a: Seq<ObjectView>, b: Seq<ObjectView>)
    ensures
        taken(h, a + b) == taken(taken(h, a), b),
    decreases b.len(),
{
    if b.len() == 0 {
        assert(a + b =~= a);
    } else {
        lemma_taken_concat(h, a, b.drop_last());
        assert((a + b).drop_last() =~= a + b.drop_last());
        assert((a + b).last() == b.last());
    }
}

/// Every object of the list is sound.
pub open spec fn all_sound(objects: Seq<ObjectView>, source: Seq<u8>) -> bool {
    forall|i: int| 0 <= i < objects.len() ==> object_sound(#[trigger] objects[i], source)
}

/// Two lists of sound objects make a list of sound objects.
pub proof fn lemma_all_sound_concat(a: Seq<ObjectView>, b: Seq<ObjectView>, source: Seq<u8>)
    requires
        all_sound(a, source),
        all_sound(b, source),
    ensures
        all_sound(a + b, source),
{
    assert forall|i: int| 0 <= i < (a + b).len() implies object_sound(
        #[trigger] (a + b)[i],
        source,
    ) by {
        if i < a.len() {
            assert(object_sound(a[i], source));
        } else {
            assert(object_sound(b[i - a.len()], source));
        }
    }
}

/// The objects of a sound schematic are sound.
pub proof fn lemma_structure_sound(s: SchematicView, source: Seq<u8>)
    requires
        schematic_sound(s, source),
    ensures
        all_sound(object_lines(s), source),
        printable(s.version),
{
    let a1 = slot_line(s.vhdl_property, grammar::TAG_VHDL);
    let a2 = slot_line(s.symbol_property, grammar::TAG_SYMBOL);
    let a3 = slot_line(s.verilog_property, grammar::TAG_VERILOG);
    let a4 = slot_line(s.spice_property, grammar::TAG_SPICE);
    let a5 = slot_line(s.tedax_property, grammar::TAG_TEDAX);
    let a6 = Seq::new(s.texts.len(), |i: int| ObjectView::Text(s.texts[i]));
    let a7 = Seq::new(s.lines.len(), |i: int| ObjectView::Line(s.lines[i]));
    let a8 = Seq::new(s.rectangles.len(), |i: int| ObjectView::Rectangle(s.rectangles[i]));
    let a9 = Seq::new(s.polygons.len(), |i: int| ObjectView::Polygon(s.polygons[i]));
    let a10 = Seq::new(s.arcs.len(), |i: int| ObjectView::Arc(s.arcs[i]));
    let a11 = Seq::new(s.wires.len(), |i: int| ObjectView::Wire(s.wires[i]));
    let a12 = Seq::new(s.components.len(), |i: int| ObjectView::Component(s.components[i]));
    assert(all_sound(a6, source)) by {
        assert forall|i: int| 0 <= i < a6.len() implies object_sound(#[trigger] a6[i], source) by {
            assert(crate::laws::text_sound(s.texts[i], source));
        }
    }
    assert(all_sound(a7, source)) by {
        assert forall|i: int| 0 <= i < a7.len() implies object_sound(#[trigger] a7[i], source) by {
            assert(line_sound(s.lines[i], source));
        }
    }
    assert(all_sound(a8, source)) by {
        assert forall|i: int| 0 <= i < a8.len() implies object_sound(#[trigger] a8[i], source) by {
            assert(rectangle_sound(s.rectangles[i], source));
        }
    }
    assert(all_sound(a9, source)) by {
        assert forall|i: int| 0 <= i < a9.len() implies object_sound(#[trigger] a9[i], source) by {
            assert(polygon_sound(s.polygons[i], source));
        }
    }
    assert(all_sound(a10, source)) by {
        assert forall|i: int| 0 <= i < a10.len() implies object_sound(#[trigger] a10[i], source) by {
            assert(arc_sound(s.arcs[i], source));
        }
    }
    assert(all_sound(a11, source)) by {
        assert forall|i: int| 0 <= i < a11.len() implies object_sound(#[trigger] a11[i], source) by {
            assert(wire_sound(s.wires[i], source));
        }
    }
    assert(all_sound(a12, source)) by {
        assert forall|i: int| 0 <= i < a12.len() implies object_sound(#[trigger] a12[i], source) by {
            assert(component_sound(s.components[i], source));
        }
    }
    lemma_all_sound_concat(a1, a2, source);
    lemma_all_sound_concat(a1 + a2, a3, source);
    lemma_all_sound_concat(a1 + a2 + a3, a4, source);
    lemma_all_sound_concat(a1 + a2 + a3 + a4, a5, source);
    lemma_all_sound_concat(a1 + a2 + a3 + a4 + a5, a6, source);
    lemma_all_sound_concat(a1 + a2 + a3 + a4 + a5 + a6, a7, source);
    lemma_all_sound_concat(a1 + a2 + a3 + a4 + a5 + a6 + a7, a8, source);
    lemma_all_sound_concat(a1 + a2 + a3 + a4 + a5 + a6 + a7 + a8, a9, source);
    lemma_all_sound_concat(a1 + a2 + a3 + a4 + a5 + a6 + a7 + a8 + a9, a10, source);
    lemma_all_sound_concat(a1 + a2 + a3 + a4 + a5 + a6 + a7 + a8 + a9 + a10, a11, source);
    lemma_all_sound_concat(a1 + a2 + a3 + a4 + a5 + a6 + a7 + a8 + a9 + a10 + a11, a12, source);
}

/// Every number in every object of the list is written as it is read back.
pub open spec fn all_faithful(objects: Seq<ObjectView>) -> bool {
    forall|i: int| 0 <= i < objects.len() ==> object_faithful(#[trigger] objects[i])
}

/// Two lists of objects whose numbers are written as they are read back make
/// such a list.
pub proof fn lemma_all_faithful_concat(a: Seq<ObjectView>, b: Seq<ObjectView>)
    requires
        all_faithful(a),
        all_faithful(b),
    ensures
        all_faithful(a + b),
{
    assert forall|i: int| 0 <= i < (a + b).len() implies object_faithful(#[trigger] (a + b)[i]) by {
        if i < a.len() {
            assert(object_faithful(a[i]));
        } else {
            assert(object_faithful(b[i - a.len()]));
        }
    }
}

/// Where every number in a schematic is written as it is read back, so is
/// every number in each of its objects.
pub proof fn lemma_structure_faithful(s: SchematicView)
    requires
        schematic_faithful(s),
    ensures
        all_faithful(object_lines(s)),
{
    let a1 = slot_line(s.vhdl_property, grammar::TAG_VHDL);
    let a2 = slot_line(s.symbol_property, grammar::TAG_SYMBOL);
    let a3 = slot_line(s.verilog_property, grammar::TAG_VERILOG);
    let a4 = slot_line(s.spice_property, grammar::TAG_SPICE);
    let a5 = slot_line(s.tedax_property, grammar::TAG_TEDAX);
    let a6 = Seq::new(s.texts.len(), |i: int| ObjectView::Text(s.texts[i]));
    let a7 = Seq::new(s.lines.len(), |i: int| ObjectView::Line(s.lines[i]));
    let a8 = Seq::new(s.rectangles.len(), |i: int| ObjectView::Rectangle(s.rectangles[i]));
    let a9 = Seq::new(s.polygons.len(), |i: int| ObjectView::Polygon(s.polygons[i]));
    let a10 = Seq::new(s.arcs.len(), |i: int| ObjectView::Arc(s.arcs[i]));
    let a11 = Seq::new(s.wires.len(), |i: int| ObjectView::Wire(s.wires[i]));
    let a12 = Seq::new(s.components.len(), |i: int| ObjectView::Component(s.components[i]));
    assert(all_faithful(a6)) by {
        assert forall|i: int| 0 <= i < a6.len() implies object_faithful(#[trigger] a6[i]) by {
            assert(text_faithful(s.texts[i]));
        }
    }
    assert(all_faithful(a7)) by {
        assert forall|i: int| 0 <= i < a7.len() implies object_faithful(#[trigger] a7[i]) by {
            assert(line_faithful(s.lines[i]));
        }
    }
    assert(all_faithful(a8)) by {
        assert forall|i: int| 0 <= i < a8.len() implies object_faithful(#[trigger] a8[i]) by {
            assert(rectangle_faithful(s.rectangles[i]));
        }
    }
    assert(all_faithful(a9)) by {
        assert forall|i: int| 0 <= i < a9.len() implies object_faithful(#[trigger] a9[i]) by {
            assert(polygon_faithful(s.polygons[i]));
        }
    }
    assert(all_faithful(a10)) by {
        assert forall|i: int| 0 <= i < a10.len() implies object_faithful(#[trigger] a10[i]) by {
            assert(arc_faithful(s.arcs[i]));
        }
    }
    assert(all_faithful(a11)) by {
        assert forall|i: int| 0 <= i < a11.len() implies object_faithful(#[trigger] a11[i]) by {
            assert(wire_faithful(s.wires[i]));
        }
    }
    assert(all_faithful(a12)) by {
        assert forall|i: int| 0 <= i < a12.len() implies object_faithful(#[trigger] a12[i]) by {
            assert(component_faithful(s.components[i]));
        }
    }
    lemma_all_faithful_concat(a1, a2);
    lemma_all_faithful_concat(a1 + a2, a3);
    lemma_all_faithful_concat(a1 + a2 + a3, a4);
    lemma_all_faithful_concat(a1 + a2 + a3 + a4, a5);
    lemma_all_faithful_concat(a1 + a2 + a3 + a4 + a5, a6);
    lemma_all_faithful_concat(a1 + a2 + a3 + a4 + a5 + a6, a7);
    lemma_all_faithful_concat(a1 + a2 + a3 + a4 + a5 + a6 + a7, a8);
    lemma_all_faithful_concat(a1 + a2 + a3 + a4 + a5 + a6 + a7 + a8, a9);
    lemma_all_faithful_concat(a1 + a2 + a3 + a4 + a5 + a6 + a7 + a8 + a9, a10);
    lemma_all_faithful_concat(a1 + a2 + a3 + a4 + a5 + a6 + a7 + a8 + a9 + a10, a11);
    lemma_all_faithful_concat(a1 + a2 + a3 + a4 + a5 + a6 + a7 + a8 + a9 + a10 + a11, a12);
}

/// Symbols are embedded in each object of the list no deeper than `levels`.
pub open spec fn all_nest(objects: Seq<ObjectView>, levels: nat) -> bool {
    forall|i: int| 0 <= i < objects.len() ==> object_nests(#[trigger] objects[i], levels)
}

/// Where symbols are embedded in a schematic no deeper than `levels`, they
/// are embedded no deeper in each of its objects.
pub proof fn lemma_structure_nests(s: SchematicView, levels: nat)
    requires
        schematic_nests(s, levels),
    ensures
        all_nest(object_lines(s), levels),
{
    let lines = object_lines(s);
    let before = lines.len() - s.components.len();
    assert forall|i: int| 0 <= i < lines.len() implies object_nests(#[trigger] lines[i], levels) by {
        if lines[i] is Component {
            assert(i >= before);
            assert(lines[i] == ObjectView::Component(s.components[i - before]));
            assert(component_nests(s.components[i - before], levels));
        }
    }
}

/// A schematic into which the first `n` of some texts are taken holds them
/// after the texts that it held.
pub proof fn lemma_taken_kind(h: SchematicView, objects: Seq<ObjectView>)
    ensures
        ({
            let r = taken(h, objects);
            &&& (forall|i: int| 0 <= i < objects.len() ==> #[trigger] objects[i] is Text) ==> r
                == (SchematicView { texts: h.texts + texts_of(objects), ..h })
            &&& (forall|i: int| 0 <= i < objects.len() ==> #[trigger] objects[i] is Line) ==> r
                == (SchematicView { lines: h.lines + lines_of(objects), ..h })
            &&& (forall|i: int| 0 <= i < objects.len() ==> #[trigger] objects[i] is Rectangle) ==> r
                == (SchematicView { rectangles: h.rectangles + rectangles_of(objects), ..h })
            &&& (forall|i: int| 0 <= i < objects.len() ==> #[trigger] objects[i] is Polygon) ==> r
                == (SchematicView { polygons: h.polygons + polygons_of(objects), ..h })
            &&& (forall|i: int| 0 <= i < objects.len() ==> #[trigger] objects[i] is Arc) ==> r
                == (SchematicView { arcs: h.arcs + arcs_of(objects), ..h })
            &&& (forall|i: int| 0 <= i < objects.len() ==> #[trigger] objects[i] is Wire) ==> r
                == (SchematicView { wires: h.wires + wires_of(objects), ..h })
            &&& (forall|i: int| 0 <= i < objects.len() ==> #[trigger] objects[i] is Component) ==> r
                == (SchematicView { components: h.components + components_of(objects), ..h })
        }),
    decreases objects.len(),
{
    if objects.len() == 0 {
        assert(h.texts + texts_of(objects) =~= h.texts);
        assert(h.lines + lines_of(objects) =~= h.lines);
        assert(h.rectangles + rectangles_of(objects) =~= h.rectangles);
        assert(h.polygons + polygons_of(objects) =~= h.polygons);
        assert(h.arcs + arcs_of(objects) =~= h.arcs);
        assert(h.wires + wires_of(objects) =~= h.wires);
        assert(h.components + components_of(objects) =~= h.components);
    } else {
        let front = objects.drop_last();
        lemma_taken_kind(h, front);
        let last = objects.last();
        assert forall|i: int| 0 <= i < front.len() implies front[i] == objects[i] by {}
        if forall|i: int| 0 <= i < objects.len() ==> #[trigger] objects[i] is Text {
            assert(forall|i: int| 0 <= i < front.len() ==> #[trigger] front[i] is Text);
            assert(h.texts + texts_of(objects) =~= (h.texts + texts_of(front)).push(last->Text_0));
        }
        if forall|i: int| 0 <= i < objects.len() ==> #[trigger] objects[i] is Line {
            assert(forall|i: int| 0 <= i < front.len() ==> #[trigger] front[i] is Line);
            assert(h.lines + lines_of(objects) =~= (h.lines + lines_of(front)).push(last->Line_0));
        }
        if forall|i: int| 0 <= i < objects.len() ==> #[trigger] objects[i] is Rectangle {
            assert(forall|i: int| 0 <= i < front.len() ==> #[trigger] front[i] is Rectangle);
            assert(h.rectangles + rectangles_of(objects) =~= (h.rectangles + rectangles_of(
                front,
            )).push(last->Rectangle_0));
        }
        if forall|i: int| 0 <= i < objects.len() ==> #[trigger] objects[i] is Polygon {
            assert(forall|i: int| 0 <= i < front.len() ==> #[trigger] front[i] is Polygon);
            assert(h.polygons + polygons_of(objects) =~= (h.polygons + polygons_of(front)).push(
                last->Polygon_0,
            ));
        }
        if forall|i: int| 0 <= i < objects.len() ==> #[trigger] objects[i] is Arc {
            assert(forall|i: int| 0 <= i < front.len() ==> #[trigger] front[i] is Arc);
            assert(h.arcs + arcs_of(objects) =~= (h.arcs + arcs_of(front)).push(last->Arc_0));
        }
        if forall|i: int| 0 <= i < objects.len() ==> #[trigger] objects[i] is Wire {
            assert(forall|i: int| 0 <= i < front.len() ==> #[trigger] front[i] is Wire);
            assert(h.wires + wires_of(objects) =~= (h.wires + wires_of(front)).push(last->Wire_0));
        }
        if forall|i: int| 0 <= i < objects.len() ==> #[trigger] objects[i] is Component {
            assert(forall|i: int| 0 <= i < front.len() ==> #[trigger] front[i] is Component);
            assert(h.components + components_of(objects) =~= (h.components + components_of(
                front,
            )).push(last->Component_0));
        }
    }
}

/// The texts that the objects `objects` are.
pub open spec fn texts_of(objects: Seq<ObjectView>) -> Seq<TextView> {
    Seq::new(objects.len(), |i: int| objects[i]->Text_0)
}

/// The lines that the objects `objects` are.
pub open spec fn lines_of(objects: Seq<ObjectView>) -> Seq<LineView> {
    Seq::new(objects.len(), |i: int| objects[i]->Line_0)
}

/// The rectangles that the objects `objects` are.
pub open spec fn rectangles_of(objects: Seq<ObjectView>) -> Seq<RectangleView> {
    Seq::new(objects.len(), |i: int| objects[i]->Rectangle_0)
}

/// The polygons that the objects `objects` are.
pub open spec fn polygons_of(objects: Seq<ObjectView>) -> Seq<PolygonView> {
    Seq::new(objects.len(), |i: int| objects[i]->Polygon_0)
}

/// The arcs that the objects `objects` are.
pub open spec fn arcs_of(objects: Seq<ObjectView>) -> Seq<ArcView> {
    Seq::new(objects.len(), |i: int| objects[i]->Arc_0)
}

/// The wires that the objects `objects` are.
pub open spec fn wires_of(objects: Seq<ObjectView>) -> Seq<WireView> {
    Seq::new(objects.len(), |i: int| objects[i]->Wire_0)
}

/// The components that the objects `objects` are.
pub open spec fn components_of(objects: Seq<ObjectView>) -> Seq<ComponentView> {
    Seq::new(objects.len(), |i: int| objects[i]->Component_0)
}

/// A schematic into which the property of a slot is taken holds it in that
/// slot, and everything else as before.
pub proof fn lemma_taken_slot(h: SchematicView, slot: Option<PropertyView>, tag: u8)
    requires
        crate::laws::is_slot_tag(tag),
    ensures
        ({
            let r = taken(h, slot_line(slot, tag));
            let set = |other: u8, before: Option<PropertyView>|
                if other == tag && slot is Some {
                    slot
                } else {
                    before
                };
            &&& r.vhdl_property == set(grammar::TAG_VHDL, h.vhdl_property)
            &&& r.symbol_property == set(grammar::TAG_SYMBOL, h.symbol_property)
            &&& r.verilog_property == set(grammar::TAG_VERILOG, h.verilog_property)
            &&& r.spice_property == set(grammar::TAG_SPICE, h.spice_property)
            &&& r.tedax_property == set(grammar::TAG_TEDAX, h.tedax_property)
            &&& r.version == h.version
            &&& r.texts == h.texts
            &&& r.lines == h.lines
            &&& r.rectangles == h.rectangles
            &&& r.polygons == h.polygons
            &&& r.arcs == h.arcs
            &&& r.wires == h.wires
            &&& r.components == h.components
        }),
{
    let objects = slot_line(slot, tag);
    match slot {
        Some(p) => {
            assert(objects.drop_last() =~= Seq::<ObjectView>::empty());
            assert(taken(h, objects.drop_last()) == h);
            assert(objects.last() == property_as_object(tag, p));
        },
        None => {},
    }
}

/// The objects of a schematic, taken one after the other into the schematic
/// that holds its version and nothing else, make the schematic.
pub proof fn lemma_structure_fold(s: SchematicView)
    ensures
        taken(SchematicView::new(s.version), object_lines(s)) == s,
{
    let a1 = slot_line(s.vhdl_property, grammar::TAG_VHDL);
    let a2 = slot_line(s.symbol_property, grammar::TAG_SYMBOL);
    let a3 = slot_line(s.verilog_property, grammar::TAG_VERILOG);
    let a4 = slot_line(s.spice_property, grammar::TAG_SPICE);
    let a5 = slot_line(s.tedax_property, grammar::TAG_TEDAX);
    let a6 = Seq::new(s.texts.len(), |i: int| ObjectView::Text(s.texts[i]));
    let a7 = Seq::new(s.lines.len(), |i: int| ObjectView::Line(s.lines[i]));
    let a8 = Seq::new(s.rectangles.len(), |i: int| ObjectView::Rectangle(s.rectangles[i]));
    let a9 = Seq::new(s.polygons.len(), |i: int| ObjectView::Polygon(s.polygons[i]));
    let a10 = Seq::new(s.arcs.len(), |i: int| ObjectView::Arc(s.arcs[i]));
    let a11 = Seq::new(s.wires.len(), |i: int| ObjectView::Wire(s.wires[i]));
    let a12 = Seq::new(s.components.len(), |i: int| ObjectView::Component(s.components[i]));
    let h0 = SchematicView::new(s.version);
    let h1 = taken(h0, a1);
    let h2 = taken(h1, a2);
    let h3 = taken(h2, a3);
    let h4 = taken(h3, a4);
    let h5 = taken(h4, a5);
    let h6 = taken(h5, a6);
    let h7 = taken(h6, a7);
    let h8 = taken(h7, a8);
    let h9 = taken(h8, a9);
    let h10 = taken(h9, a10);
    let h11 = taken(h10, a11);
    let h12 = taken(h11, a12);
    lemma_taken_concat(h0, a1, a2);
    lemma_taken_concat(h0, a1 + a2, a3);
    lemma_taken_concat(h0, a1 + a2 + a3, a4);
    lemma_taken_concat(h0, a1 + a2 + a3 + a4, a5);
    lemma_taken_concat(h0, a1 + a2 + a3 + a4 + a5, a6);
    lemma_taken_concat(h0, a1 + a2 + a3 + a4 + a5 + a6, a7);
    lemma_taken_concat(h0, a1 + a2 + a3 + a4 + a5 + a6 + a7, a8);
    lemma_taken_concat(h0, a1 + a2 + a3 + a4 + a5 + a6 + a7 + a8, a9);
    lemma_taken_concat(h0, a1 + a2 + a3 + a4 + a5 + a6 + a7 + a8 + a9, a10);
    lemma_taken_concat(h0, a1 + a2 + a3 + a4 + a5 + a6 + a7 + a8 + a9 + a10, a11);
    lemma_taken_concat(h0, a1 + a2 + a3 + a4 + a5 + a6 + a7 + a8 + a9 + a10 + a11, a12);
    assert(taken(h0, object_lines(s)) == h12);
    lemma_taken_slot(h0, s.vhdl_property, grammar::TAG_VHDL);
    lemma_taken_slot(h1, s.symbol_property, grammar::TAG_SYMBOL);
    lemma_taken_slot(h2, s.verilog_property, grammar::TAG_VERILOG);
    lemma_taken_slot(h3, s.spice_property, grammar::TAG_SPICE);
    lemma_taken_slot(h4, s.tedax_property, grammar::TAG_TEDAX);
    assert(h5.vhdl_property == s.vhdl_property);
    assert(h5.symbol_property == s.symbol_property);
    assert(h5.verilog_property == s.verilog_property);
    assert(h5.spice_property == s.spice_property);
    assert(h5.tedax_property == s.tedax_property);
    lemma_taken_kind(h5, a6);
    lemma_taken_kind(h6, a7);
    lemma_taken_kind(h7, a8);
    lemma_taken_kind(h8, a9);
    lemma_taken_kind(h9, a10);
    lemma_taken_kind(h10, a11);
    lemma_taken_kind(h11, a12);
    assert(h12.texts =~= s.texts);
    assert(h12.lines =~= s.lines);
    assert(h12.rectangles =~= s.rectangles);
    assert(h12.polygons =~= s.polygons);
    assert(h12.arcs =~= s.arcs);
    assert(h12.wires =~= s.wires);
    assert(h12.components =~= s.components);
}

/// The text of a parsed schematic parses back to a schematic that says the
/// same, provided that every number in it is written as a number that is
/// read back.
pub proof fn law_rendering_parses_back(source: Seq<u8>)
    requires
        crate::parsed(source) is Ok,
        schematic_faithful(crate::parsed(source)->Ok_0),
    ensures
        crate::parsed(schematic_text(crate::parsed(source)->Ok_0)) matches Ok(again)
            && same_schematic(crate::parsed(source)->Ok_0, again),
{
    reveal(grammar::schematic_full);
    let s = crate::parsed(source)->Ok_0;
    crate::laws::law_parsed_tree_is_sound(source);
    crate::laws::law_parsed_tree_is_shallow(source);
    let text = schematic_text(s);
    let y = SpanView::whole(text);
    assert(y.skip(text.len()).len() == 0);
    lemma_schematic_back(y, s, source, grammar::MAX_DEPTH as nat);
    assert(grammar::gap(y.skip(text.len())) == 0);
}

/// Attributes with the same texts, pair by pair, are equal as attributes,
/// where no key stands twice.
pub proof fn lemma_alike_attributes(
    a: Seq<(SpanView, SpanView)>,
    b: Seq<(SpanView, SpanView)>,
)
    requires
        pairs_alike(a, b),
        distinct_keys(b),
    ensures
        same_attributes(a, b),
{
    assert forall|i: int| 0 <= i < a.len() implies key_index(b, (#[trigger] a[i]).0.text())
        < b.len() && b[key_index(b, a[i].0.text())].1.text() == a[i].1.text() by {
        let key = a[i].0.text();
        lemma_key_index(b, key, 0);
        let at = key_index(b, key);
        assert(b[i].0.text() == key);
        if at < i {
            assert(b[at].0.text() != b[i].0.text());
        }
    }
}

/// Schematics that say the same are equal: what the round trip gives back
/// is `==` to what was written.
#[verifier::rlimit(80)]
pub proof fn law_same_is_equal(a: Schematic, b: Schematic, source: Seq<u8>)
    requires
        same_schematic(a@, b@),
        schematic_sound(b@, source),
    ensures
        schematic_equal(a, b),
    decreases a, 1int, 0int,
{
    let av = a@;
    let bv = b@;
    lemma_alike_attributes(av.version.attrs, bv.version.attrs);
    if av.vhdl_property is Some {
        lemma_alike_attributes(av.vhdl_property->0.attrs, bv.vhdl_property->0.attrs);
    }
    if av.symbol_property is Some {
        lemma_alike_attributes(av.symbol_property->0.attrs, bv.symbol_property->0.attrs);
    }
    if av.verilog_property is Some {
        lemma_alike_attributes(av.verilog_property->0.attrs, bv.verilog_property->0.attrs);
    }
    if av.spice_property is Some {
        lemma_alike_attributes(av.spice_property->0.attrs, bv.spice_property->0.attrs);
    }
    if av.tedax_property is Some {
        lemma_alike_attributes(av.tedax_property->0.attrs, bv.tedax_property->0.attrs);
    }
    assert forall|i: int| 0 <= i < a.texts.0.len() implies PartialEqSpec::eq_spec(
        &#[trigger] a.texts.0[i],
        &b.texts.0[i],
    ) by {
        assert(same_text(av.texts[i], bv.texts[i]));
        assert(crate::laws::text_sound(bv.texts[i], source));
        lemma_alike_attributes(av.texts[i].property.attrs, bv.texts[i].property.attrs);
    }
    assert forall|i: int| 0 <= i < a.lines.0.len() implies PartialEqSpec::eq_spec(
        &#[trigger] a.lines.0[i],
        &b.lines.0[i],
    ) by {
        assert(same_line(av.lines[i], bv.lines[i]));
        assert(line_sound(bv.lines[i], source));
        lemma_alike_attributes(av.lines[i].property.attrs, bv.lines[i].property.attrs);
    }
    assert forall|i: int| 0 <= i < a.rectangles.0.len() implies PartialEqSpec::eq_spec(
        &#[trigger] a.rectangles.0[i],
        &b.rectangles.0[i],
    ) by {
        assert(same_rectangle(av.rectangles[i], bv.rectangles[i]));
        assert(rectangle_sound(bv.rectangles[i], source));
        lemma_alike_attributes(av.rectangles[i].property.attrs, bv.rectangles[i].property.attrs);
    }
    assert forall|i: int| 0 <= i < a.polygons.0.len() implies PartialEqSpec::eq_spec(
        &#[trigger] a.polygons.0[i],
        &b.polygons.0[i],
    ) by {
        assert(same_polygon(av.polygons[i], bv.polygons[i]));
        assert(polygon_sound(bv.polygons[i], source));
        lemma_alike_attributes(av.polygons[i].property.attrs, bv.polygons[i].property.attrs);
        let ap = a.polygons.0[i].points;
        let bp = b.polygons.0[i].points;
        assert(ap@ == bp@);
        assert forall|k: int| 0 <= k < ap.0.len() implies PartialEqSpec::eq_spec(
            &#[trigger] ap.0[k],
            &bp.0[k],
        ) by {
            assert(ap@[k] == bp@[k]);
        }
    }
    assert forall|i: int| 0 <= i < a.arcs.0.len() implies PartialEqSpec::eq_spec(
        &#[trigger] a.arcs.0[i],
        &b.arcs.0[i],
    ) by {
        assert(same_arc(av.arcs[i], bv.arcs[i]));
        assert(arc_sound(bv.arcs[i], source));
        lemma_alike_attributes(av.arcs[i].property.attrs, bv.arcs[i].property.attrs);
    }
    assert forall|i: int| 0 <= i < a.wires.0.len() implies PartialEqSpec::eq_spec(
        &#[trigger] a.wires.0[i],
        &b.wires.0[i],
    ) by {
        assert(same_wire(av.wires[i], bv.wires[i]));
        assert(wire_sound(bv.wires[i], source));
        lemma_alike_attributes(av.wires[i].property.attrs, bv.wires[i].property.attrs);
    }
    let ac = a.components.0@;
    let bc = b.components.0@;
    lemma_components_view(ac, ac.len() as int);
    lemma_components_view(bc, bc.len() as int);
    assert forall|i: int| 0 <= i < ac.len() implies same_component(
        #[trigger] crate::token::component_view(ac[i]),
        crate::token::component_view(bc[i]),
    ) by {
        assert(same_component(av.components[i], bv.components[i]));
    }
    assert forall|i: int| 0 <= i < bc.len() implies component_sound(
        #[trigger] crate::token::component_view(bc[i]),
        source,
    ) by {
        assert(component_sound(bv.components[i], source));
    }
    lemma_components_equal(ac, bc, ac.len() as int, a, source);
}

/// Components that say the same are equal, one by one.
#[verifier::rlimit(80)]
pub proof fn lemma_components_equal(
    ac: Seq<Component>,
    bc: Seq<Component>,
    n: int,
    whole: Schematic,
    source: Seq<u8>,
)
    requires
        ac == whole.components.0@,
        0 <= n <= ac.len(),
        ac.len() == bc.len(),
        forall|i: int|
            0 <= i < ac.len() ==> same_component(
                #[trigger] crate::token::component_view(ac[i]),
                crate::token::component_view(bc[i]),
            ),
        forall|i: int|
            0 <= i < bc.len() ==> component_sound(
                #[trigger] crate::token::component_view(bc[i]),
                source,
            ),
    ensures
        components_equal(ac, bc, n),
    decreases whole, 0int, n,
{
    if n > 0 {
        lemma_components_equal(ac, bc, n - 1, whole, source);
        let x = ac[n - 1];
        let y = bc[n - 1];
        let xv = crate::token::component_view(x);
        let yv = crate::token::component_view(y);
        assert(same_component(xv, yv));
        assert(component_sound(yv, source));
        lemma_alike_attributes(xv.property.attrs, yv.property.attrs);
        assert(PartialEqSpec::eq_spec(&x.reference, &y.reference));
        assert(PartialEqSpec::eq_spec(&x.position, &y.position));
        assert(PartialEqSpec::eq_spec(&x.property, &y.property));
        match x.embedding {
            Some(e) => {
                assert(yv.embedding is Some);
                assert(y.embedding is Some);
                let f = y.embedding->0;
                assert(xv.embedding == Some(e@));
                assert(yv.embedding == Some(f@));
                law_same_is_equal(e.0, f.0, source);
            },
            None => {
                assert(yv.embedding is None);
                assert(y.embedding is None);
            },
        }
        assert(component_equal(x, y));
    }
}

/// A schematic that was parsed, and in which every number is written as a
/// number that is read back, is equal to what its text is parsed to.
pub proof fn law_round_trip_is_equal(a: Schematic, b: Schematic, source: Seq<u8>)
    requires
        crate::parsed(source) == Ok::<SchematicView, crate::error::ErrorView>(a@),
        schematic_faithful(a@),
        crate::parsed(schematic_text(a@)) == Ok::<SchematicView, crate::error::ErrorView>(b@),
    ensures
        schematic_equal(a, b),
{
    law_rendering_parses_back(source);
    crate::laws::law_parsed_tree_is_sound(schematic_text(a@));
    law_same_is_equal(a, b, schematic_text(a@));
}

} // verus!
