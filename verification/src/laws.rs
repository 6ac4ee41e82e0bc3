//! What holds of everything the parsers accept.
use vstd::prelude::*;

use crate::error::{error_text, Error, ErrorView, InputContextView, Primitive};
use crate::grammar;
use crate::grammar::{ByteClass, Parsed, Quoting};
use crate::is_outcome;
use crate::parse::lemma_run;
use crate::span::SpanView;
use crate::token::{
    distinct_keys, is_finite_bits, lemma_insert_keeps_distinct, lemma_key_index, ArcView,
    ComponentView, LineView, ObjectView, PolygonView, PropertyView, RectangleView, Schematic,
    SchematicView, TextView, Vec2View, WireView,
};

verus! {

/// The schematic after the objects `objects` were read, one after the
/// other.
pub open spec fn taken(held: SchematicView, objects: Seq<ObjectView>) -> SchematicView
    decreases objects.len(),
{
    if objects.len() == 0 {
        held
    } else {
        taken(held, objects.drop_last()).add_object(objects.last())
    }
}

/// The objects that stand in `x`, each after whitespace, as far as they go,
/// where symbols may be embedded `levels` deep.
pub open spec fn objects_in(x: SpanView, levels: nat) -> Seq<ObjectView>
    decreases x.len(),
{
    if grammar::gap(x) == 0 {
        Seq::empty()
    } else {
        match grammar::any_object(x.skip(grammar::gap(x)), levels) {
            Parsed::Done { len, value } => if x.skip(grammar::gap(x) + len).len() < x.len() {
                seq![value] + objects_in(x.skip(grammar::gap(x) + len), levels)
            } else {
                Seq::empty()
            },
            _ => Seq::empty(),
        }
    }
}

/// The five tags of the properties of a schematic.
pub open spec fn is_slot_tag(tag: u8) -> bool {
    tag == grammar::TAG_VHDL || tag == grammar::TAG_SYMBOL || tag == grammar::TAG_VERILOG
        || tag == grammar::TAG_SPICE || tag == grammar::TAG_TEDAX
}

/// The property that `object` is, if it is the property of a schematic with
/// the tag `tag`.
pub open spec fn slot_of(object: ObjectView, tag: u8) -> Option<PropertyView> {
    match object {
        ObjectView::VhdlProperty(p) => if tag == grammar::TAG_VHDL {
            Some(p)
        } else {
            None
        },
        ObjectView::SymbolProperty(p) => if tag == grammar::TAG_SYMBOL {
            Some(p)
        } else {
            None
        },
        ObjectView::VerilogProperty(p) => if tag == grammar::TAG_VERILOG {
            Some(p)
        } else {
            None
        },
        ObjectView::SpiceProperty(p) => if tag == grammar::TAG_SPICE {
            Some(p)
        } else {
            None
        },
        ObjectView::TedaXProperty(p) => if tag == grammar::TAG_TEDAX {
            Some(p)
        } else {
            None
        },
        _ => None,
    }
}

/// The slot of the schematic `s` for the property with the tag `tag`.
pub open spec fn slot(s: SchematicView, tag: u8) -> Option<PropertyView> {
    if tag == grammar::TAG_VHDL {
        s.vhdl_property
    } else if tag == grammar::TAG_SYMBOL {
        s.symbol_property
    } else if tag == grammar::TAG_VERILOG {
        s.verilog_property
    } else if tag == grammar::TAG_SPICE {
        s.spice_property
    } else {
        s.tedax_property
    }
}

/// The last property with the tag `tag` among `objects`, if there is one.
pub open spec fn last_slot(objects: Seq<ObjectView>, tag: u8) -> Option<PropertyView>
    decreases objects.len(),
{
    if objects.len() == 0 {
        None
    } else {
        match slot_of(objects.last(), tag) {
            Some(p) => Some(p),
            None => last_slot(objects.drop_last(), tag),
        }
    }
}

/// After objects were read, each slot of a schematic holds the last property
/// with its tag among them, or what it held before where there was none.
pub proof fn law_slots_hold_last(held: SchematicView, objects: Seq<ObjectView>, tag: u8)
    requires
        is_slot_tag(tag),
    ensures
        slot(taken(held, objects), tag) == match last_slot(objects, tag) {
            Some(p) => Some(p),
            None => slot(held, tag),
        },
    decreases objects.len(),
{
    if objects.len() > 0 {
        law_slots_hold_last(held, objects.drop_last(), tag);
    }
}

/// Reading `first` and then `rest` is reading `first` into the schematic and
/// then `rest`.
pub proof fn lemma_taken_first(held: SchematicView, first: ObjectView, rest: Seq<ObjectView>)
    ensures
        taken(held, seq![first] + rest) == taken(held.add_object(first), rest),
    decreases rest.len(),
{
    let all = seq![first] + rest;
    if rest.len() == 0 {
        assert(all.drop_last() =~= Seq::<ObjectView>::empty());
        assert(all.last() == first);
        assert(taken(held, all.drop_last()) == held);
    } else {
        lemma_taken_first(held, first, rest.drop_last());
        assert(all.drop_last() =~= seq![first] + rest.drop_last());
        assert(all.last() == rest.last());
    }
}

/// What the parser of the objects of a schematic returns is the schematic
/// it was given after the objects that stand in the input were read, in the
/// order of the input.
#[verifier::rlimit(80)]
pub proof fn law_objects_in_order(x: SpanView, held: SchematicView, levels: nat)
    requires
        grammar::objects_from(x, held, levels) is Done,
    ensures
        grammar::objects_from(x, held, levels)->value == taken(held, objects_in(x, levels)),
    decreases x.len(),
{
    if grammar::gap(x) > 0 {
        match grammar::any_object(x.skip(grammar::gap(x)), levels) {
            Parsed::Done { len, value } => {
                let next = x.skip(grammar::gap(x) + len);
                if next.len() < x.len() {
                    law_objects_in_order(next, held.add_object(value), levels);
                    lemma_taken_first(held, value, objects_in(next, levels));
                }
            },
            _ => {},
        }
    }
}

/// In a parsed schematic, each slot for a property of the schematic holds
/// the last property with its tag in the input, and is empty where the input
/// has none.
#[verifier::rlimit(80)]
pub proof fn law_slots_reflect_last_occurrence(x: SpanView, tag: u8, levels: nat)
    requires
        is_slot_tag(tag),
        grammar::schematic(x, levels) is Done,
    ensures
        grammar::version_object(x.skip(grammar::gap(x))) is Done,
        slot(grammar::schematic(x, levels)->value, tag) == last_slot(
            objects_in(
                x.skip(grammar::gap(x) + grammar::version_object(x.skip(grammar::gap(x)))->len),
                levels,
            ),
            tag,
        ),
{
    let version = grammar::version_object(x.skip(grammar::gap(x)));
    let start = x.skip(grammar::gap(x) + version->len);
    let held = SchematicView::new(version->value);
    law_objects_in_order(start, held, levels);
    law_slots_hold_last(held, objects_in(start, levels), tag);
}

/// The parser of the objects of a schematic never stops for want of
/// progress: the objects end, or a parser that had committed itself fails.
#[verifier::rlimit(80)]
pub proof fn law_objects_advance(x: SpanView, held: SchematicView, levels: nat)
    ensures
        grammar::objects_from(x, held, levels) !is Error,
    decreases x.len(),
{
    if grammar::gap(x) > 0 {
        let y = x.skip(grammar::gap(x));
        law_any_object_advances(y, levels);
        match grammar::any_object(y, levels) {
            Parsed::Done { len, value } => {
                let next = x.skip(grammar::gap(x) + len);
                assert(next.len() < x.len());
                law_objects_advance(next, held.add_object(value), levels);
            },
            _ => {},
        }
    }
}

/// Every object consumes input, its tag at least.
#[verifier::rlimit(80)]
pub proof fn law_any_object_advances(x: SpanView, levels: nat)
    ensures
        grammar::any_object(x, levels) matches Parsed::Done { len, .. } ==> len >= 1,
{
    reveal(grammar::property_object);
    reveal(grammar::arc_object);
    reveal(grammar::line_object);
    reveal(grammar::polygon_object);
    reveal(grammar::rectangle_object);
    reveal(grammar::text_object);
    reveal(grammar::wire_object);
}

/// A parsed polygon has as many points as its input declares: as the number
/// says that stands after the layer. That number is not 0: a polygon has a
/// point at least.
pub proof fn law_polygon_has_declared_points(x: SpanView)
    requires
        grammar::polygon_object(x) is Done,
    ensures
        ({
            let fields = x.skip(1);
            let layer = grammar::spaced_layer(fields);
            let declared = grammar::count(
                fields.skip(layer->len + grammar::gap(fields.skip(layer->len))),
            );
            &&& layer is Done
            &&& declared is Done
            &&& grammar::polygon_object(x)->value.points.len() == declared->value
            &&& grammar::polygon_object(x)->value.points.len() >= 1
        }),
{
    let at = x.skip(1).skip(
        grammar::spaced_layer(x.skip(1))->len + grammar::gap(
            x.skip(1).skip(grammar::spaced_layer(x.skip(1))->len),
        ),
    );
    lemma_count(at);
    reveal(grammar::polygon_object);
    reveal(grammar::polygon_fields);
    let fields = x.skip(1);
    let layer = grammar::spaced_layer(fields);
    lemma_points_count(fields.skip(layer->len + grammar::gap(fields.skip(layer->len))));
}

/// The number of the points of a polygon is 1 at least.
pub proof fn lemma_count(x: SpanView)
    ensures
        grammar::count(x) matches Parsed::Done { value, .. } ==> value >= 1,
{
    reveal(grammar::count);
    reveal(grammar::unsigned);
}

/// Where points are read, their number is read first, and as many points
/// are read as it says.
pub proof fn lemma_points_count(x: SpanView)
    requires
        grammar::points(x) is Done,
    ensures
        grammar::count(x) is Done,
        grammar::points(x)->value.len() == grammar::count(x)->value,
{
    reveal(grammar::points);
    let declared = grammar::count(x);
    lemma_points_len(x.skip(declared->len), declared->value as nat, Seq::empty());
}

/// Reading `n` points onto `found` gives `n` points more.
pub proof fn lemma_points_len(x: SpanView, n: nat, found: Seq<Vec2View>)
    requires
        grammar::points_from(x, n, found) is Done,
    ensures
        grammar::points_from(x, n, found)->value.len() == found.len() + n,
    decreases n,
{
    if n > 0 {
        match grammar::point(x) {
            Parsed::Done { len, value } => {
                lemma_points_len(x.skip(len), (n - 1) as nat, found.push(value));
            },
            _ => {},
        }
    }
}

/// Parsing is a function of the input: two runs on the same bytes that end
/// in an error end in the same error, and the two diagnostics read the same.
pub proof fn law_failures_are_deterministic<'a, 'b>(
    source: Seq<u8>,
    first: Result<Schematic<'a>, Error<'a>>,
    second: Result<Schematic<'b>, Error<'b>>,
)
    requires
        is_outcome(first, crate::parsed(source)),
        is_outcome(second, crate::parsed(source)),
        first is Err,
    ensures
        second is Err,
        first->Err_0@ == second->Err_0@,
        error_text(first->Err_0@) == error_text(second->Err_0@),
{
}

/// The span `v` is a part of the buffer `source`.
pub open spec fn within(v: SpanView, source: Seq<u8>) -> bool {
    v.source == source && v.wf()
}

/// The span `v` is a part of the span `x`.
pub open spec fn inside(v: SpanView, x: SpanView) -> bool {
    v.source == x.source && x.start <= v.start <= v.end <= x.end
}

/// The pairs of `found` lie in `x`.
pub open spec fn pairs_inside(found: Seq<(SpanView, SpanView)>, x: SpanView) -> bool {
    forall|i: int|
        0 <= i < found.len() ==> inside((#[trigger] found[i]).0, x) && inside(found[i].1, x)
}

/// The property `p` is sound: its text is a part of `source` and can stand
/// between braces; its attributes are those that its text holds and lie in
/// that text; no two of them have the same key.
pub open spec fn property_sound(p: PropertyView, source: Seq<u8>) -> bool {
    &&& within(p.prop, source)
    &&& closed(p.prop.text())
    &&& grammar::attributes(p.prop) == (Parsed::Done { len: p.prop.len(), value: p.attrs })
    &&& distinct_keys(p.attrs)
    &&& pairs_inside(p.attrs, p.prop)
}

/// Both numbers of `v` are finite.
pub open spec fn vec2_sound(v: Vec2View) -> bool {
    is_finite_bits(v.x) && is_finite_bits(v.y)
}

pub open spec fn arc_sound(a: ArcView, source: Seq<u8>) -> bool {
    &&& vec2_sound(a.center)
    &&& is_finite_bits(a.radius)
    &&& is_finite_bits(a.start_angle)
    &&& is_finite_bits(a.sweep_angle)
    &&& property_sound(a.property, source)
}

pub open spec fn line_sound(l: LineView, source: Seq<u8>) -> bool {
    vec2_sound(l.start) && vec2_sound(l.end) && property_sound(l.property, source)
}

pub open spec fn rectangle_sound(r: RectangleView, source: Seq<u8>) -> bool {
    vec2_sound(r.start) && vec2_sound(r.end) && property_sound(r.property, source)
}

/// The polygon `p` has a point at least, and no more than can be counted;
/// its numbers are finite and its property is sound.
pub open spec fn polygon_sound(p: PolygonView, source: Seq<u8>) -> bool {
    &&& 1 <= p.points.len() <= usize::MAX
    &&& forall|i: int| 0 <= i < p.points.len() ==> vec2_sound(#[trigger] p.points[i])
    &&& property_sound(p.property, source)
}

pub open spec fn text_sound(t: TextView, source: Seq<u8>) -> bool {
    &&& within(t.text, source)
    &&& closed(t.text.text())
    &&& vec2_sound(t.position)
    &&& vec2_sound(t.size)
    &&& property_sound(t.property, source)
}

pub open spec fn wire_sound(w: WireView, source: Seq<u8>) -> bool {
    vec2_sound(w.start) && vec2_sound(w.end) && property_sound(w.property, source)
}

/// The slot `slot` is empty or holds a sound property.
pub open spec fn slot_sound(slot: Option<PropertyView>, source: Seq<u8>) -> bool {
    match slot {
        Some(p) => property_sound(p, source),
        None => true,
    }
}

/// The component `c` is sound, and so is what it embeds.
pub open spec fn component_sound(c: ComponentView, source: Seq<u8>) -> bool
    decreases c, 0int,
{
    &&& within(c.reference, source)
    &&& closed(c.reference.text())
    &&& vec2_sound(c.position)
    &&& property_sound(c.property, source)
    &&& match c.embedding {
        Some(s) => schematic_sound(s, source),
        None => true,
    }
}

/// The schematic `s` is sound: every span in it is a part of `source`, every
/// property in it has the attributes that its text holds, each key once, and
/// every number in it is finite.
pub open spec fn schematic_sound(s: SchematicView, source: Seq<u8>) -> bool
    decreases s, 1int,
{
    &&& property_sound(s.version, source)
    &&& slot_sound(s.vhdl_property, source)
    &&& slot_sound(s.symbol_property, source)
    &&& slot_sound(s.verilog_property, source)
    &&& slot_sound(s.spice_property, source)
    &&& slot_sound(s.tedax_property, source)
    &&& forall|i: int| 0 <= i < s.texts.len() ==> text_sound(#[trigger] s.texts[i], source)
    &&& forall|i: int| 0 <= i < s.lines.len() ==> line_sound(#[trigger] s.lines[i], source)
    &&& forall|i: int|
        0 <= i < s.rectangles.len() ==> rectangle_sound(#[trigger] s.rectangles[i], source)
    &&& forall|i: int|
        0 <= i < s.polygons.len() ==> polygon_sound(#[trigger] s.polygons[i], source)
    &&& forall|i: int| 0 <= i < s.arcs.len() ==> arc_sound(#[trigger] s.arcs[i], source)
    &&& forall|i: int| 0 <= i < s.wires.len() ==> wire_sound(#[trigger] s.wires[i], source)
    &&& forall|i: int|
        0 <= i < s.components.len() ==> component_sound(#[trigger] s.components[i], source)
}

/// The object `o` is sound.
pub open spec fn object_sound(o: ObjectView, source: Seq<u8>) -> bool {
    match o {
        ObjectView::SpiceProperty(p) => property_sound(p, source),
        ObjectView::VerilogProperty(p) => property_sound(p, source),
        ObjectView::VhdlProperty(p) => property_sound(p, source),
        ObjectView::TedaXProperty(p) => property_sound(p, source),
        ObjectView::SymbolProperty(p) => property_sound(p, source),
        ObjectView::Arc(o) => arc_sound(o, source),
        ObjectView::Component(o) => component_sound(o, source),
        ObjectView::Line(o) => line_sound(o, source),
        ObjectView::Polygon(o) => polygon_sound(o, source),
        ObjectView::Rectangle(o) => rectangle_sound(o, source),
        ObjectView::Text(o) => text_sound(o, source),
        ObjectView::Wire(o) => wire_sound(o, source),
    }
}

/// The span `x` starts and ends in its buffer.
pub open spec fn anchored(x: SpanView) -> bool {
    0 <= x.start && x.end <= x.source.len()
}

/// Escaped text is a prefix of the input.
pub proof fn lemma_escaped(x: SpanView, q: Quoting, at: nat)
    requires
        x.wf(),
        at <= x.len(),
    ensures
        match grammar::escaped_from(x, q, at) {
            Parsed::Done { len, value } => at <= len <= x.len() && value == x.take(len),
            _ => true,
        },
    decreases x.len() - at,
{
    if at < x.len() {
        if q.is_normal(x.byte(at as int)) {
            lemma_escaped(x, q, at + 1);
        } else if x.byte(at as int) == grammar::BACKSLASH && at + 1 < x.len() && q.escapable(
            x.skip(at + 1),
        ) != 0 {
            lemma_escaped(x, q, at + 1 + q.escapable(x.skip(at + 1)));
        }
    }
}

/// The inputs `y` and `z` have the same first `k` bytes.
pub open spec fn agree(y: SpanView, z: SpanView, k: nat) -> bool {
    k <= y.len() && k <= z.len() && forall|i: int| 0 <= i < k ==> #[trigger] y.byte(i) == z.byte(i)
}

/// Two inputs with the same first `k` bytes hold the same escaped text at
/// their start, if that of one of them ends before the `k`-th byte.
pub proof fn lemma_escaped_agree(y: SpanView, z: SpanView, q: Quoting, at: nat, k: nat)
    requires
        y.wf(),
        z.wf(),
        agree(y, z, k),
        at <= z.len(),
        grammar::escaped_from(z, q, at) is Done,
        grammar::escaped_from(z, q, at)->len < k,
    ensures
        grammar::escaped_from(y, q, at) == (Parsed::Done {
            len: grammar::escaped_from(z, q, at)->len,
            value: y.take(grammar::escaped_from(z, q, at)->len),
        }),
    decreases z.len() - at,
{
    let n = grammar::escaped_from(z, q, at)->len;
    lemma_escaped(z, q, at);
    assert(y.byte(at as int) == z.byte(at as int));
    if q.is_normal(z.byte(at as int)) {
        lemma_escaped_agree(y, z, q, at + 1, k);
    } else if z.byte(at as int) == grammar::BACKSLASH {
        let e = q.escapable(z.skip(at + 1));
        lemma_escaped(z, q, at + 1 + e);
        assert(y.skip(at + 1).byte(0) == y.byte(at as int + 1));
        assert(z.skip(at + 1).byte(0) == z.byte(at as int + 1));
        assert(y.byte(at as int + 1) == z.byte(at as int + 1));
        assert(y.skip(at + 1).byte(1) == y.byte(at as int + 2));
        assert(z.skip(at + 1).byte(1) == z.byte(at as int + 2));
        if at + 2 < k {
            assert(y.byte(at as int + 2) == z.byte(at as int + 2));
        }
        assert(q.escapable(y.skip(at + 1)) == e);
        lemma_escaped_agree(y, z, q, at + 1 + e, k);
    }
}

/// The text `t` can stand between braces: read from its start, the text
/// of a property ends exactly where a closing brace follows `t`.
pub open spec fn closed(t: Seq<u8>) -> bool {
    grammar::escaped_from(SpanView::whole(t.push(grammar::CLOSE_BRACE)), Quoting::Property, 0)
        matches Parsed::Done { len, .. } && len == t.len()
}

/// What stands between braces is a part of the input, and the braces are
/// consumed with it.
pub proof fn lemma_brace_enclosed(x: SpanView, name: Seq<char>)
    requires
        anchored(x),
    ensures
        match grammar::brace_enclosed(x, name) {
            Parsed::Done { len, value } => 2 <= len <= x.len() && value == x.skip(1).take(
                (len - 2) as nat,
            ) && within(value, x.source) && x.wf() && closed(value.text()),
            _ => true,
        },
{
    reveal(grammar::brace_enclosed);
    reveal(grammar::property_string);
    reveal(grammar::escaped0);
    if x.starts_with(grammar::OPEN_BRACE) {
        lemma_escaped(x.skip(1), Quoting::Property, 0);
        match grammar::brace_enclosed(x, name) {
            Parsed::Done { len, value } => {
                let t = value.text();
                let n = t.len();
                let z = x.skip(1);
                let y = SpanView::whole(t.push(grammar::CLOSE_BRACE));
                assert(z.skip(n).byte(0) == z.byte(n as int));
                assert forall|i: int| 0 <= i < n + 1 implies #[trigger] y.byte(i) == z.byte(i) by {
                    if i < n {
                        assert(t[i] == z.byte(i));
                    }
                }
                lemma_escaped_agree(y, z, Quoting::Property, 0, n + 1);
            },
            _ => {},
        }
    }
}

/// The key and the value of an attribute lie in the input.
pub proof fn lemma_key_value(x: SpanView)
    requires
        x.wf(),
    ensures
        match grammar::key_value(x) {
            Parsed::Done { len, value } => 1 <= len <= x.len() && inside(value.0, x) && inside(
                value.1,
                x,
            ),
            Parsed::Error(e) => inside(e.err.input, x) && e.err.input.end == x.end && (x.len() > 0
                && ByteClass::Key.has(x.byte(0)) ==> x.start < e.err.input.start),
            Parsed::Failure(_) => true,
        },
{
    reveal(grammar::key_value);
    reveal(grammar::key);
    reveal(grammar::value);
    reveal(grammar::take_while1);
    reveal(grammar::escaped0);
    lemma_run(x, ByteClass::Key);
    let k = grammar::run(x, ByteClass::Key);
    if k > 0 && x.skip(k).starts_with(grammar::EQUALS) {
        let v = x.skip(k + 1);
        lemma_run(v, ByteClass::Value);
        if v.starts_with(grammar::QUOTE) {
            lemma_escaped(v.skip(1), Quoting::Value, 0);
        }
    }
}

/// The attributes of a span lie in it, each key once, and reading them
/// consumes the span.
pub proof fn lemma_attributes_from(x: SpanView, found: Seq<(SpanView, SpanView)>, outer: SpanView)
    requires
        x.wf(),
        inside(x, outer),
        distinct_keys(found),
        pairs_inside(found, outer),
    ensures
        match grammar::attributes_from(x, found) {
            Parsed::Done { len, value } => len == x.len() && distinct_keys(value) && pairs_inside(
                value,
                outer,
            ),
            _ => true,
        },
    decreases x.len(),
{
    if x.len() > 0 {
        let skipped = grammar::run(x, ByteClass::NotKey);
        lemma_run(x, ByteClass::NotKey);
        let start = x.skip(skipped);
        lemma_key_value(start);
        match grammar::key_value(start) {
            Parsed::Done { len, value } => {
                let more = grammar::insert_pair_of(found, value);
                lemma_insert_keeps_distinct(found, value.0, value.1);
                lemma_key_index(found, value.0.text(), 0);
                assert(inside(value.0, outer) && inside(value.1, outer));
                assert forall|i: int| 0 <= i < more.len() implies inside(
                    (#[trigger] more[i]).0,
                    outer,
                ) && inside(more[i].1, outer) by {
                    if i < found.len() && i != crate::token::key_index(found, value.0.text()) {
                        assert(more[i] == found[i]);
                        assert(inside(found[i].0, outer));
                    }
                }
                lemma_attributes_from(x.skip(skipped + len), more, outer);
            },
            Parsed::Error(e) => {
                lemma_attributes_from(e.err.input, found, outer);
            },
            Parsed::Failure(_) => {},
        }
    }
}

/// A parsed property is sound.
pub proof fn lemma_property(x: SpanView)
    requires
        anchored(x),
    ensures
        match grammar::property(x) {
            Parsed::Done { len, value } => property_sound(value, x.source) && 2 <= len <= x.len(),
            _ => true,
        },
{
    reveal(grammar::property);
    reveal(grammar::attributes);
    lemma_brace_enclosed(x, "property"@);
    match grammar::brace_enclosed(x, "property"@) {
        Parsed::Done { len, value } => {
            lemma_attributes_from(value, Seq::empty(), value);
        },
        _ => {},
    }
}

/// A parsed number is finite.
pub proof fn lemma_finite_double(x: SpanView)
    ensures
        grammar::finite_double(x) matches Parsed::Done { value, .. } ==> is_finite_bits(value),
{
    reveal(grammar::finite_double);
}

/// Both numbers of a parsed pair are finite.
pub proof fn lemma_vec2(x: SpanView)
    ensures
        grammar::vec2(x) matches Parsed::Done { value, .. } ==> vec2_sound(value),
        grammar::coordinate(x) matches Parsed::Done { value, .. } ==> vec2_sound(value),
        grammar::size(x) matches Parsed::Done { value, .. } ==> vec2_sound(value),
{
    reveal(grammar::vec2);
    reveal(grammar::coordinate);
    reveal(grammar::size);
    lemma_finite_double(x);
    let a = grammar::finite_double(x);
    lemma_finite_double(x.skip(a->len + grammar::gap(x.skip(a->len))));
}

/// What the parsers of a field after whitespace return is sound.
pub proof fn lemma_spaced(x: SpanView)
    requires
        anchored(x),
    ensures
        grammar::spaced_coordinate(x) matches Parsed::Done { value, .. } ==> vec2_sound(value),
        grammar::spaced_double(x) matches Parsed::Done { value, .. } ==> is_finite_bits(value),
        grammar::spaced_property(x) matches Parsed::Done { value, .. } ==> property_sound(
            value,
            x.source,
        ),
{
    reveal(grammar::spaced_coordinate);
    reveal(grammar::spaced_double);
    reveal(grammar::spaced_property);
    lemma_vec2(x.skip(grammar::gap(x)));
    lemma_finite_double(x.skip(grammar::gap(x)));
    lemma_property(x.skip(grammar::gap(x)));
}

/// A parsed property of the schematic, and a parsed version, is sound.
pub proof fn lemma_property_object(x: SpanView, tag: u8)
    requires
        anchored(x),
    ensures
        grammar::property_object(x, tag) matches Parsed::Done { value, .. } ==> property_sound(
            value,
            x.source,
        ),
        grammar::version_object(x) matches Parsed::Done { value, .. } ==> property_sound(
            value,
            x.source,
        ),
{
    reveal(grammar::property_object);
    reveal(grammar::version_object);
    lemma_spaced(x.skip(1));
}

/// A parsed arc is sound.
pub proof fn lemma_arc_object(x: SpanView)
    requires
        anchored(x),
    ensures
        grammar::arc_object(x) matches Parsed::Done { value, .. } ==> arc_sound(value, x.source),
{
    reveal(grammar::arc_object);
    reveal(grammar::arc_fields);
    let y = x.skip(1);
    let a = grammar::spaced_layer(y);
    let b = grammar::spaced_coordinate(y.skip(a->len));
    let c = grammar::spaced_double(y.skip(a->len + b->len));
    let d = grammar::spaced_double(y.skip(a->len + b->len + c->len));
    let e = grammar::spaced_double(y.skip(a->len + b->len + c->len + d->len));
    lemma_spaced(y.skip(a->len));
    lemma_spaced(y.skip(a->len + b->len));
    lemma_spaced(y.skip(a->len + b->len + c->len));
    lemma_spaced(y.skip(a->len + b->len + c->len + d->len));
    lemma_spaced(y.skip(a->len + b->len + c->len + d->len + e->len));
}

/// A parsed line and a parsed rectangle are sound.
pub proof fn lemma_box_object(x: SpanView)
    requires
        anchored(x),
    ensures
        grammar::line_object(x) matches Parsed::Done { value, .. } ==> line_sound(value, x.source),
        grammar::rectangle_object(x) matches Parsed::Done { value, .. } ==> rectangle_sound(
            value,
            x.source,
        ),
{
    reveal(grammar::line_object);
    reveal(grammar::rectangle_object);
    reveal(grammar::box_fields);
    let y = x.skip(1);
    let a = grammar::spaced_layer(y);
    let b = grammar::spaced_coordinate(y.skip(a->len));
    let c = grammar::spaced_coordinate(y.skip(a->len + b->len));
    lemma_spaced(y.skip(a->len));
    lemma_spaced(y.skip(a->len + b->len));
    lemma_spaced(y.skip(a->len + b->len + c->len));
}

/// Every one of the parsed points is a pair of finite numbers.
pub proof fn lemma_points_sound(x: SpanView, n: nat, found: Seq<Vec2View>)
    requires
        forall|i: int| 0 <= i < found.len() ==> vec2_sound(#[trigger] found[i]),
    ensures
        grammar::points_from(x, n, found) matches Parsed::Done { value, .. } ==> forall|i: int|
            0 <= i < value.len() ==> vec2_sound(#[trigger] value[i]),
    decreases n,
{
    reveal(grammar::point);
    if n > 0 {
        match grammar::point(x) {
            Parsed::Done { len, value } => {
                lemma_vec2(x.skip(grammar::run(x, ByteClass::Space)));
                lemma_points_sound(x.skip(len), (n - 1) as nat, found.push(value));
            },
            _ => {},
        }
    }
}

/// A parsed polygon is sound.
pub proof fn lemma_polygon_object(x: SpanView)
    requires
        anchored(x),
    ensures
        grammar::polygon_object(x) matches Parsed::Done { value, .. } ==> polygon_sound(
            value,
            x.source,
        ),
{
    reveal(grammar::polygon_object);
    reveal(grammar::polygon_fields);
    reveal(grammar::points);
    let y = x.skip(1);
    let a = grammar::spaced_layer(y);
    let at = y.skip(a->len + grammar::gap(y.skip(a->len)));
    let b = grammar::spaced(y.skip(a->len), grammar::points(at));
    let declared = grammar::count(at);
    lemma_count(at);
    lemma_points_sound(at.skip(declared->len), declared->value as nat, Seq::empty());
    if grammar::points(at) is Done {
        lemma_points_len(at.skip(declared->len), declared->value as nat, Seq::empty());
    }
    lemma_spaced(y.skip(a->len + b->len));
}

/// A parsed text is sound.
pub proof fn lemma_text_object(x: SpanView)
    requires
        anchored(x),
    ensures
        grammar::text_object(x) matches Parsed::Done { value, .. } ==> text_sound(value, x.source),
{
    reveal(grammar::text_object);
    reveal(grammar::text_fields);
    reveal(grammar::text);
    let y = x.skip(1);
    let a = grammar::spaced(y, grammar::text(y.skip(grammar::gap(y))));
    let b = grammar::spaced_coordinate(y.skip(a->len));
    let c = grammar::spaced_rotation(y.skip(a->len + b->len));
    let d = grammar::spaced_flip(y.skip(a->len + b->len + c->len));
    let at = y.skip(a->len + b->len + c->len + d->len);
    let e = grammar::spaced(at, grammar::size(at.skip(grammar::gap(at))));
    lemma_brace_enclosed(y.skip(grammar::gap(y)), "text"@);
    lemma_spaced(y.skip(a->len));
    lemma_vec2(at.skip(grammar::gap(at)));
    lemma_spaced(y.skip(a->len + b->len + c->len + d->len + e->len));
}

/// A parsed wire is sound.
pub proof fn lemma_wire_object(x: SpanView)
    requires
        anchored(x),
    ensures
        grammar::wire_object(x) matches Parsed::Done { value, .. } ==> wire_sound(value, x.source),
{
    reveal(grammar::wire_object);
    reveal(grammar::wire_fields);
    let y = x.skip(1);
    let a = grammar::spaced_coordinate(y);
    let b = grammar::spaced_coordinate(y.skip(a->len));
    lemma_spaced(y);
    lemma_spaced(y.skip(a->len));
    lemma_spaced(y.skip(a->len + b->len));
}

/// A sound schematic into which a sound object is taken is sound.
pub proof fn lemma_add_object_sound(held: SchematicView, object: ObjectView, source: Seq<u8>)
    requires
        schematic_sound(held, source),
        object_sound(object, source),
    ensures
        schematic_sound(held.add_object(object), source),
{
    let after = held.add_object(object);
    assert forall|i: int| 0 <= i < after.texts.len() implies text_sound(
        #[trigger] after.texts[i],
        source,
    ) by {
        if i < held.texts.len() {
            assert(text_sound(held.texts[i], source));
        }
    }
    assert forall|i: int| 0 <= i < after.lines.len() implies line_sound(
        #[trigger] after.lines[i],
        source,
    ) by {
        if i < held.lines.len() {
            assert(line_sound(held.lines[i], source));
        }
    }
    assert forall|i: int| 0 <= i < after.rectangles.len() implies rectangle_sound(
        #[trigger] after.rectangles[i],
        source,
    ) by {
        if i < held.rectangles.len() {
            assert(rectangle_sound(held.rectangles[i], source));
        }
    }
    assert forall|i: int| 0 <= i < after.polygons.len() implies polygon_sound(
        #[trigger] after.polygons[i],
        source,
    ) by {
        if i < held.polygons.len() {
            assert(polygon_sound(held.polygons[i], source));
        }
    }
    assert forall|i: int| 0 <= i < after.arcs.len() implies arc_sound(
        #[trigger] after.arcs[i],
        source,
    ) by {
        if i < held.arcs.len() {
            assert(arc_sound(held.arcs[i], source));
        }
    }
    assert forall|i: int| 0 <= i < after.wires.len() implies wire_sound(
        #[trigger] after.wires[i],
        source,
    ) by {
        if i < held.wires.len() {
            assert(wire_sound(held.wires[i], source));
        }
    }
    assert forall|i: int| 0 <= i < after.components.len() implies component_sound(
        #[trigger] after.components[i],
        source,
    ) by {
        if i < held.components.len() {
            assert(component_sound(held.components[i], source));
        }
    }
}

/// A parsed schematic is sound.
#[verifier::rlimit(80)]
pub proof fn lemma_schematic(x: SpanView, levels: nat)
    requires
        anchored(x),
    ensures
        grammar::schematic(x, levels) matches Parsed::Done { value, .. } ==> schematic_sound(
            value,
            x.source,
        ),
    decreases x.len(), 6int,
{
    let start = x.skip(grammar::gap(x));
    lemma_property_object(start, grammar::TAG_VERSION);
    match grammar::version_object(start) {
        Parsed::Done { len, value } => {
            lemma_objects_from(x.skip(grammar::gap(x) + len), SchematicView::new(value), levels);
        },
        _ => {},
    }
}

/// The objects that are read into a sound schematic leave it sound.
#[verifier::rlimit(80)]
pub proof fn lemma_objects_from(x: SpanView, held: SchematicView, levels: nat)
    requires
        anchored(x),
        schematic_sound(held, x.source),
    ensures
        grammar::objects_from(x, held, levels) matches Parsed::Done { value, .. } ==> schematic_sound(
            value,
            x.source,
        ),
    decreases x.len(), 5int,
{
    if grammar::gap(x) > 0 {
        match grammar::any_object(x.skip(grammar::gap(x)), levels) {
            Parsed::Done { len, value } => {
                let next = x.skip(grammar::gap(x) + len);
                if next.len() < x.len() {
                    lemma_any_object(x.skip(grammar::gap(x)), levels);
                    lemma_add_object_sound(held, value, x.source);
                    lemma_objects_from(next, held.add_object(value), levels);
                }
            },
            _ => {},
        }
    }
}

/// A parsed object is sound.
#[verifier::rlimit(80)]
pub proof fn lemma_any_object(x: SpanView, levels: nat)
    requires
        anchored(x),
    ensures
        grammar::any_object(x, levels) matches Parsed::Done { value, .. } ==> object_sound(
            value,
            x.source,
        ),
    decreases x.len(), 4int,
{
    lemma_property_object(x, grammar::TAG_VHDL);
    lemma_property_object(x, grammar::TAG_SYMBOL);
    lemma_property_object(x, grammar::TAG_VERILOG);
    lemma_property_object(x, grammar::TAG_SPICE);
    lemma_property_object(x, grammar::TAG_TEDAX);
    lemma_arc_object(x);
    lemma_box_object(x);
    lemma_polygon_object(x);
    lemma_text_object(x);
    lemma_wire_object(x);
    lemma_component_instance(x, levels);
}

/// A parsed component is sound.
#[verifier::rlimit(80)]
pub proof fn lemma_component_instance(x: SpanView, levels: nat)
    requires
        anchored(x),
    ensures
        grammar::component_instance(x, levels) matches Parsed::Done { value, .. } ==> component_sound(
            value,
            x.source,
        ),
    decreases x.len(), 3int,
{
    reveal(grammar::reference);
    let y = x.skip(1);
    let a = grammar::spaced(y, grammar::reference(y.skip(grammar::gap(y))));
    let b = grammar::spaced_coordinate(y.skip(a->len));
    let c = grammar::spaced_rotation(y.skip(a->len + b->len));
    let d = grammar::spaced_flip(y.skip(a->len + b->len + c->len));
    let e = grammar::spaced_property(y.skip(a->len + b->len + c->len + d->len));
    lemma_brace_enclosed(y.skip(grammar::gap(y)), "reference"@);
    lemma_spaced(y.skip(a->len));
    lemma_spaced(y.skip(a->len + b->len + c->len + d->len));
    lemma_embedded(y.skip(a->len + b->len + c->len + d->len + e->len), levels);
}

/// What a component embeds is sound.
#[verifier::rlimit(80)]
pub proof fn lemma_embedded(x: SpanView, levels: nat)
    requires
        anchored(x),
    ensures
        grammar::embedded(x, levels) matches Parsed::Done { value: Some(s), .. } ==> schematic_sound(
            s,
            x.source,
        ),
    decreases x.len(), 1int,
{
    lemma_embedding(x.skip(grammar::gap(x)), levels);
}

/// A parsed embedded schematic is sound.
#[verifier::rlimit(80)]
pub proof fn lemma_embedding(x: SpanView, levels: nat)
    requires
        anchored(x),
    ensures
        grammar::embedding(x, levels) matches Parsed::Done { value, .. } ==> schematic_sound(
            value,
            x.source,
        ),
    decreases x.len(), 0int,
{
    if x.starts_with(grammar::OPEN_BRACKET) && grammar::gap(x.skip(1)) > 0 && levels > 0 {
        lemma_schematic(x.skip(1 + grammar::gap(x.skip(1))), (levels - 1) as nat);
    }
}

/// A parsed tree is sound: every span in it is a part of the input; every
/// property in it has exactly the attributes that its text holds, each key
/// once; every number in it is finite.
pub proof fn law_parsed_tree_is_sound(source: Seq<u8>)
    ensures
        crate::parsed(source) matches Ok(s) ==> schematic_sound(s, source),
{
    reveal(grammar::schematic_full);
    lemma_schematic(SpanView::whole(source), grammar::MAX_DEPTH as nat);
}

/// The text of a parsed property is a part of the input, and parsing that
/// text for attributes gives the attributes of the property.
pub proof fn law_property_holds_its_text(x: SpanView)
    requires
        x.wf(),
        grammar::property(x) is Done,
    ensures
        ({
            let p = grammar::property(x)->value;
            &&& inside(p.prop, x)
            &&& p.prop.text() == x.source.subrange(p.prop.start, p.prop.end)
            &&& grammar::attributes(p.prop) matches Parsed::Done { value, .. } && value == p.attrs
        }),
{
    lemma_property(x);
    lemma_brace_enclosed(x, "property"@);
    reveal(grammar::property);
}

/// Symbols are embedded in the component `c` no deeper than `levels`.
pub open spec fn component_nests(c: ComponentView, levels: nat) -> bool
    decreases c, 0int,
{
    match c.embedding {
        Some(s) => levels > 0 && schematic_nests(s, (levels - 1) as nat),
        None => true,
    }
}

/// Symbols are embedded in the schematic `s` no deeper than `levels`.
pub open spec fn schematic_nests(s: SchematicView, levels: nat) -> bool
    decreases s, 1int,
{
    forall|i: int|
        0 <= i < s.components.len() ==> component_nests(#[trigger] s.components[i], levels)
}

/// Symbols are embedded in the object `o` no deeper than `levels`.
pub open spec fn object_nests(o: ObjectView, levels: nat) -> bool {
    match o {
        ObjectView::Component(c) => component_nests(c, levels),
        _ => true,
    }
}

/// Taking an object into a schematic embeds symbols no deeper than they are
/// embedded in the two.
pub proof fn lemma_add_object_nests(held: SchematicView, object: ObjectView, levels: nat)
    requires
        schematic_nests(held, levels),
        object_nests(object, levels),
    ensures
        schematic_nests(held.add_object(object), levels),
{
    let after = held.add_object(object);
    assert forall|i: int| 0 <= i < after.components.len() implies component_nests(
        #[trigger] after.components[i],
        levels,
    ) by {
        if i < held.components.len() {
            assert(component_nests(held.components[i], levels));
        }
    }
}

/// In a parsed schematic symbols are embedded no deeper than the parser
/// takes them.
#[verifier::rlimit(80)]
pub proof fn lemma_schematic_nests(x: SpanView, levels: nat)
    ensures
        grammar::schematic(x, levels) matches Parsed::Done { value, .. } ==> schematic_nests(
            value,
            levels,
        ),
    decreases x.len(), 6int,
{
    match grammar::version_object(x.skip(grammar::gap(x))) {
        Parsed::Done { len, value } => {
            lemma_objects_nest(x.skip(grammar::gap(x) + len), SchematicView::new(value), levels);
        },
        _ => {},
    }
}

/// The objects that are read into a schematic embed symbols no deeper than
/// the parser takes them.
#[verifier::rlimit(80)]
pub proof fn lemma_objects_nest(x: SpanView, held: SchematicView, levels: nat)
    requires
        schematic_nests(held, levels),
    ensures
        grammar::objects_from(x, held, levels) matches Parsed::Done { value, .. }
            ==> schematic_nests(value, levels),
    decreases x.len(), 5int,
{
    if grammar::gap(x) > 0 {
        match grammar::any_object(x.skip(grammar::gap(x)), levels) {
            Parsed::Done { len, value } => {
                let next = x.skip(grammar::gap(x) + len);
                if next.len() < x.len() {
                    lemma_any_object_nests(x.skip(grammar::gap(x)), levels);
                    lemma_add_object_nests(held, value, levels);
                    lemma_objects_nest(next, held.add_object(value), levels);
                }
            },
            _ => {},
        }
    }
}

/// A parsed object embeds symbols no deeper than the parser takes them.
#[verifier::rlimit(80)]
pub proof fn lemma_any_object_nests(x: SpanView, levels: nat)
    ensures
        grammar::any_object(x, levels) matches Parsed::Done { value, .. } ==> object_nests(
            value,
            levels,
        ),
    decreases x.len(), 4int,
{
    if x.starts_with(grammar::TAG_COMPONENT) {
        let y = x.skip(1);
        let a = grammar::spaced(y, grammar::reference(y.skip(grammar::gap(y))));
        let b = grammar::spaced_coordinate(y.skip(a->len));
        let c = grammar::spaced_rotation(y.skip(a->len + b->len));
        let d = grammar::spaced_flip(y.skip(a->len + b->len + c->len));
        let e = grammar::spaced_property(y.skip(a->len + b->len + c->len + d->len));
        lemma_embedding_nests(
            y.skip(a->len + b->len + c->len + d->len + e->len).skip(
                grammar::gap(y.skip(a->len + b->len + c->len + d->len + e->len)),
            ),
            levels,
        );
    }
}

/// A parsed embedded symbol embeds symbols one level less deep than the
/// parser takes them.
#[verifier::rlimit(80)]
pub proof fn lemma_embedding_nests(x: SpanView, levels: nat)
    ensures
        grammar::embedding(x, levels) matches Parsed::Done { value, .. } ==> levels > 0
            && schematic_nests(value, (levels - 1) as nat),
    decreases x.len(), 0int,
{
    if x.starts_with(grammar::OPEN_BRACKET) && grammar::gap(x.skip(1)) > 0 && levels > 0 {
        lemma_schematic_nests(x.skip(1 + grammar::gap(x.skip(1))), (levels - 1) as nat);
    }
}

/// In a parsed tree symbols are embedded no deeper than `MAX_DEPTH`.
pub proof fn law_parsed_tree_is_shallow(source: Seq<u8>)
    ensures
        crate::parsed(source) matches Ok(s) ==> schematic_nests(s, grammar::MAX_DEPTH as nat),
{
    reveal(grammar::schematic_full);
    lemma_schematic_nests(SpanView::whole(source), grammar::MAX_DEPTH as nat);
}

/// After its opening quote the parser of a value is committed: a quoted
/// value ends with its closing quote, and one that is not closed is a
/// failure, never a mismatch, which names the value that began at the quote.
pub proof fn law_unclosed_value_is_a_failure(x: SpanView)
    requires
        x.starts_with(grammar::QUOTE),
    ensures
        match grammar::value(x) {
            Parsed::Done { len, .. } => len >= 2 && x.skip((len - 1) as nat).starts_with(
                grammar::QUOTE,
            ),
            Parsed::Error(_) => false,
            Parsed::Failure(e) => e.context.len() > 0 && e.context.last() == (InputContextView {
                input: x,
                name: "value"@,
            }),
        },
{
    reveal(grammar::value);
}

/// After its schematic a whole file holds whitespace and nothing else: where
/// only whitespace follows, the file is the schematic, and where more
/// follows, the error is the missing end of the input where the whitespace
/// ends.
pub proof fn law_only_whitespace_trails(x: SpanView)
    requires
        x.wf(),
        grammar::schematic(x, grammar::MAX_DEPTH as nat) is Done,
    ensures
        ({
            let s = grammar::schematic(x, grammar::MAX_DEPTH as nat);
            let rest = x.skip(s->len);
            let end = rest.skip(grammar::gap(rest));
            &&& end.len() > 0 ==> !ByteClass::MultiSpace.has(end.byte(0))
            &&& grammar::schematic_full(x) == if end.len() == 0 {
                Ok::<SchematicView, ErrorView>(s->value)
            } else {
                Err::<SchematicView, ErrorView>(grammar::failed(end, Primitive::Eof))
            }
        }),
{
    reveal(grammar::schematic_full);
    let s = grammar::schematic(x, grammar::MAX_DEPTH as nat);
    let rest = x.skip(s->len);
    lemma_run(rest, ByteClass::MultiSpace);
    assert(x.skip(s->len + grammar::gap(rest)) == rest.skip(grammar::gap(rest)));
}

/// The number of the component `c` and the numbers in what it embeds are
/// finite.
pub open spec fn component_finite(c: ComponentView) -> bool
    decreases c, 0int,
{
    &&& vec2_sound(c.position)
    &&& match c.embedding {
        Some(s) => schematic_finite(s),
        None => true,
    }
}

/// Every number in the schematic `s` is finite: the numbers of its texts,
/// lines, rectangles, polygons, arcs, wires and components, and those in the
/// symbols that the components embed.
pub open spec fn schematic_finite(s: SchematicView) -> bool
    decreases s, 1int,
{
    &&& forall|i: int|
        0 <= i < s.texts.len() ==> vec2_sound((#[trigger] s.texts[i]).position) && vec2_sound(
            s.texts[i].size,
        )
    &&& forall|i: int|
        0 <= i < s.lines.len() ==> vec2_sound((#[trigger] s.lines[i]).start) && vec2_sound(
            s.lines[i].end,
        )
    &&& forall|i: int|
        0 <= i < s.rectangles.len() ==> vec2_sound((#[trigger] s.rectangles[i]).start)
            && vec2_sound(s.rectangles[i].end)
    &&& forall|i: int, j: int|
        0 <= i < s.polygons.len() && 0 <= j < s.polygons[i].points.len() ==> vec2_sound(
            #[trigger] s.polygons[i].points[j],
        )
    &&& forall|i: int|
        0 <= i < s.arcs.len() ==> vec2_sound((#[trigger] s.arcs[i]).center) && is_finite_bits(
            s.arcs[i].radius,
        ) && is_finite_bits(s.arcs[i].start_angle) && is_finite_bits(s.arcs[i].sweep_angle)
    &&& forall|i: int|
        0 <= i < s.wires.len() ==> vec2_sound((#[trigger] s.wires[i]).start) && vec2_sound(
            s.wires[i].end,
        )
    &&& forall|i: int| 0 <= i < s.components.len() ==> component_finite(#[trigger] s.components[i])
}

/// Every number in a sound schematic is finite.
pub proof fn lemma_sound_is_finite(s: SchematicView, source: Seq<u8>)
    requires
        schematic_sound(s, source),
    ensures
        schematic_finite(s),
    decreases s, 1int,
{
    assert forall|i: int| 0 <= i < s.texts.len() implies vec2_sound(
        (#[trigger] s.texts[i]).position,
    ) && vec2_sound(s.texts[i].size) by {
        assert(text_sound(s.texts[i], source));
    }
    assert forall|i: int| 0 <= i < s.lines.len() implies vec2_sound((#[trigger] s.lines[i]).start)
        && vec2_sound(s.lines[i].end) by {
        assert(line_sound(s.lines[i], source));
    }
    assert forall|i: int| 0 <= i < s.rectangles.len() implies vec2_sound(
        (#[trigger] s.rectangles[i]).start,
    ) && vec2_sound(s.rectangles[i].end) by {
        assert(rectangle_sound(s.rectangles[i], source));
    }
    assert forall|i: int, j: int|
        0 <= i < s.polygons.len() && 0 <= j < s.polygons[i].points.len() implies vec2_sound(
        #[trigger] s.polygons[i].points[j],
    ) by {
        assert(polygon_sound(s.polygons[i], source));
    }
    assert forall|i: int| 0 <= i < s.arcs.len() implies vec2_sound((#[trigger] s.arcs[i]).center)
        && is_finite_bits(s.arcs[i].radius) && is_finite_bits(s.arcs[i].start_angle)
        && is_finite_bits(s.arcs[i].sweep_angle) by {
        assert(arc_sound(s.arcs[i], source));
    }
    assert forall|i: int| 0 <= i < s.wires.len() implies vec2_sound((#[trigger] s.wires[i]).start)
        && vec2_sound(s.wires[i].end) by {
        assert(wire_sound(s.wires[i], source));
    }
    assert forall|i: int| 0 <= i < s.components.len() implies component_finite(
        #[trigger] s.components[i],
    ) by {
        let c = s.components[i];
        assert(component_sound(c, source));
        match c.embedding {
            Some(e) => {
                lemma_sound_is_finite(e, source);
            },
            None => {},
        }
    }
}

/// Every number in a parsed tree is finite: neither a NaN nor infinite.
pub proof fn law_parsed_numbers_are_finite(source: Seq<u8>)
    ensures
        crate::parsed(source) matches Ok(s) ==> schematic_finite(s),
{
    law_parsed_tree_is_sound(source);
    match crate::parsed(source) {
        Ok(s) => {
            lemma_sound_is_finite(s, source);
        },
        Err(_) => {},
    }
}

} // verus!
