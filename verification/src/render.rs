//! The text of parsed entities, in the form that the parsers read.
use vstd::prelude::*;
use vstd::utf8::{decode_utf8, valid_utf8};

use crate::grammar::{
    CLOSE_BRACE, CLOSE_BRACKET, OPEN_BRACE, OPEN_BRACKET, TAG_ARC, TAG_COMPONENT, TAG_LINE,
    TAG_POLYGON, TAG_RECTANGLE, TAG_SPICE, TAG_SYMBOL, TAG_TEDAX, TAG_TEXT, TAG_VERILOG,
    TAG_VERSION, TAG_VHDL, TAG_WIRE,
};
use crate::number::{double_text, write_double};
use crate::span::NEWLINE;
use crate::token::{
    lemma_components_view, Arc, ArcView, Component, ComponentView, Coordinates, Embedding,
    FiniteDouble, Flip, Line, LineView, Objects, Polygon, PolygonView, Property, PropertyView,
    Rectangle, RectangleView, Rotation, Schematic, SchematicView, SpiceProperty, SymbolProperty,
    TedaXProperty, Text, TextView, Vec2, Vec2View, VerilogProperty, Version, VhdlProperty, Wire,
    WireView,
};

verus! {

/// The space that separates the fields of an object.
pub const SPACE: u8 = 0x20;

/// The decimal digits of `n`.
pub open spec fn unsigned_text(n: nat) -> Seq<u8>
    decreases n,
{
    if n < 10 {
        seq![(0x30 + n) as u8]
    } else {
        unsigned_text(n / 10).push((0x30 + n % 10) as u8)
    }
}

/// The items, with `separator` between each two of them.
pub open spec fn joined(items: Seq<Seq<u8>>, separator: Seq<u8>) -> Seq<u8>
    decreases items.len(),
{
    if items.len() == 0 {
        Seq::empty()
    } else if items.len() == 1 {
        items[0]
    } else {
        joined(items.drop_last(), separator) + separator + items.last()
    }
}

/// The items, each on a line of its own after a line that came before; no
/// text at all where there is no item.
pub open spec fn section(items: Seq<Seq<u8>>) -> Seq<u8> {
    if items.len() == 0 {
        Seq::empty()
    } else {
        seq![NEWLINE] + joined(items, seq![NEWLINE])
    }
}

/// A property: its text in braces.
pub open spec fn property_text(p: PropertyView) -> Seq<u8> {
    seq![OPEN_BRACE] + p.prop.text() + seq![CLOSE_BRACE]
}

/// A property after the tag of its object.
pub open spec fn tagged_text(tag: u8, p: PropertyView) -> Seq<u8> {
    seq![tag, SPACE] + property_text(p)
}

/// A property of the schematic on a line of its own, where there is one.
pub open spec fn slot_text(tag: u8, slot: Option<PropertyView>) -> Seq<u8> {
    match slot {
        Some(p) => seq![NEWLINE] + tagged_text(tag, p),
        None => Seq::empty(),
    }
}

/// A pair of numbers.
pub open spec fn vec2_text(v: Vec2View) -> Seq<u8> {
    double_text(v.x) + seq![SPACE] + double_text(v.y)
}

/// A rotation: its digit.
pub open spec fn rotation_text(r: Rotation) -> Seq<u8> {
    match r {
        Rotation::Zero => seq![0x30u8],
        Rotation::One => seq![0x31u8],
        Rotation::Two => seq![0x32u8],
        Rotation::Three => seq![0x33u8],
    }
}

/// A flip: its digit.
pub open spec fn flip_text(f: Flip) -> Seq<u8> {
    match f {
        Flip::Unflipped => seq![0x30u8],
        Flip::Flipped => seq![0x31u8],
    }
}

/// The points of a polygon, with a space between each two.
pub open spec fn points_text(points: Seq<Vec2View>) -> Seq<u8> {
    joined(Seq::new(points.len(), |i: int| vec2_text(points[i])), seq![SPACE])
}

/// An arc.
pub open spec fn arc_text(a: ArcView) -> Seq<u8> {
    seq![TAG_ARC, SPACE] + unsigned_text(a.layer as nat) + seq![SPACE] + vec2_text(a.center)
        + seq![SPACE] + double_text(a.radius) + seq![SPACE] + double_text(a.start_angle)
        + seq![SPACE] + double_text(a.sweep_angle) + seq![SPACE] + property_text(a.property)
}

/// A line.
pub open spec fn line_text(l: LineView) -> Seq<u8> {
    seq![TAG_LINE, SPACE] + unsigned_text(l.layer as nat) + seq![SPACE] + vec2_text(l.start)
        + seq![SPACE] + vec2_text(l.end) + seq![SPACE] + property_text(l.property)
}

/// A rectangle.
pub open spec fn rectangle_text(r: RectangleView) -> Seq<u8> {
    seq![TAG_RECTANGLE, SPACE] + unsigned_text(r.layer as nat) + seq![SPACE] + vec2_text(r.start)
        + seq![SPACE] + vec2_text(r.end) + seq![SPACE] + property_text(r.property)
}

/// A polygon: its layer, the number of its points, the points and the
/// property.
pub open spec fn polygon_text(p: PolygonView) -> Seq<u8> {
    seq![TAG_POLYGON, SPACE] + unsigned_text(p.layer as nat) + seq![SPACE] + unsigned_text(
        p.points.len(),
    ) + seq![SPACE] + points_text(p.points) + seq![SPACE] + property_text(p.property)
}

/// A text.
pub open spec fn text_text(t: TextView) -> Seq<u8> {
    seq![TAG_TEXT, SPACE, OPEN_BRACE] + t.text.text() + seq![CLOSE_BRACE, SPACE] + vec2_text(
        t.position,
    ) + seq![SPACE] + rotation_text(t.rotation) + seq![SPACE] + flip_text(t.flip) + seq![SPACE]
        + vec2_text(t.size) + seq![SPACE] + property_text(t.property)
}

/// A wire.
pub open spec fn wire_text(w: WireView) -> Seq<u8> {
    seq![TAG_WIRE, SPACE] + vec2_text(w.start) + seq![SPACE] + vec2_text(w.end) + seq![SPACE]
        + property_text(w.property)
}

/// A component without what it embeds.
pub open spec fn instance_text(c: ComponentView) -> Seq<u8> {
    seq![TAG_COMPONENT, SPACE, OPEN_BRACE] + c.reference.text() + seq![CLOSE_BRACE, SPACE] + vec2_text(
        c.position,
    ) + seq![SPACE] + rotation_text(c.rotation) + seq![SPACE] + flip_text(c.flip) + seq![SPACE]
        + property_text(c.property)
}

/// The version and, each on a line of its own, the properties of the
/// schematic that are there, in the order VHDL, symbol, Verilog, Spice,
/// tEDAx.
pub open spec fn properties_text(s: SchematicView) -> Seq<u8> {
    tagged_text(TAG_VERSION, s.version) + slot_text(TAG_VHDL, s.vhdl_property) + slot_text(
        TAG_SYMBOL,
        s.symbol_property,
    ) + slot_text(TAG_VERILOG, s.verilog_property) + slot_text(TAG_SPICE, s.spice_property) + slot_text(
        TAG_TEDAX,
        s.tedax_property,
    )
}

/// The texts, lines, rectangles, polygons, arcs and wires of a schematic, in
/// this order, each on a line of its own.
pub open spec fn primitives_text(s: SchematicView) -> Seq<u8> {
    section(Seq::new(s.texts.len(), |i: int| text_text(s.texts[i]))) + section(
        Seq::new(s.lines.len(), |i: int| line_text(s.lines[i])),
    ) + section(Seq::new(s.rectangles.len(), |i: int| rectangle_text(s.rectangles[i]))) + section(
        Seq::new(s.polygons.len(), |i: int| polygon_text(s.polygons[i])),
    ) + section(Seq::new(s.arcs.len(), |i: int| arc_text(s.arcs[i]))) + section(
        Seq::new(s.wires.len(), |i: int| wire_text(s.wires[i])),
    )
}

/// A schematic: the version and the properties of the schematic; then the
/// texts, lines, rectangles, polygons, arcs and wires; then the components,
/// each on a line of its own. The last line is not ended.
pub open spec fn schematic_text(s: SchematicView) -> Seq<u8>
    decreases s, 0int,
{
    properties_text(s) + primitives_text(s) + section(
        component_texts(s.components, s.components.len() as int),
    )
}

/// The texts of the first `n` of the components `cs`.
pub open spec fn component_texts(cs: Seq<ComponentView>, n: int) -> Seq<Seq<u8>>
    decreases cs, n,
{
    if 0 < n <= cs.len() {
        component_texts(cs, n - 1).push(component_text(cs[n - 1]))
    } else {
        Seq::empty()
    }
}

/// A component, and after it, on lines of their own, what it embeds.
pub open spec fn component_text(c: ComponentView) -> Seq<u8>
    decreases c, 0int,
{
    instance_text(c) + match c.embedding {
        Some(s) => seq![NEWLINE] + embedding_text(s),
        None => Seq::empty(),
    }
}

/// An embedded schematic: `[`, the schematic and `]`, each on lines of
/// their own.
pub open spec fn embedding_text(s: SchematicView) -> Seq<u8>
    decreases s, 1int,
{
    seq![OPEN_BRACKET, NEWLINE] + schematic_text(s) + seq![NEWLINE, CLOSE_BRACKET]
}

/// The string that `String::from_utf8_lossy` from the standard library makes
/// of `bytes`: what they encode, with a replacement character for each part
/// that is not valid UTF-8.
pub uninterp spec fn lossy_text(bytes: Seq<u8>) -> Seq<char>;

/// Trusted: `String::from_utf8_lossy` from the standard library. The
/// contract gives its result the name [`lossy_text`] and states that valid
/// UTF-8 comes back as the string that it encodes.
#[verifier::external_body]
pub(crate) fn lossy(bytes: &[u8]) -> (r: String)
    ensures
        r@ == lossy_text(bytes@),
        valid_utf8(bytes@) ==> r@ == decode_utf8(bytes@),
{
    String::from_utf8_lossy(bytes).into_owned()
}

/// Adds `bytes` to the end of `out`.
pub fn append(out: &mut Vec<u8>, bytes: &[u8])
    ensures
        final(out)@ == old(out)@ + bytes@,
{
    let mut i: usize = 0;
    while i < bytes.len()
        invariant
            i <= bytes.len(),
            out@ == old(out)@ + bytes@.take(i as int),
        decreases bytes.len() - i,
    {
        out.push(bytes[i]);
        assert(bytes@.take(i + 1) =~= bytes@.take(i as int).push(bytes@[i as int]));
        i = i + 1;
    }
    assert(bytes@.take(i as int) =~= bytes@);
}

/// Adds the decimal digits of `n` to the end of `out`.
pub fn append_unsigned(out: &mut Vec<u8>, n: u64)
    ensures
        final(out)@ == old(out)@ + unsigned_text(n as nat),
    decreases n,
{
    if n >= 10 {
        append_unsigned(out, n / 10);
    }
    out.push(0x30 + (n % 10) as u8);
    assert(out@ =~= old(out)@ + unsigned_text(n as nat));
}

/// Something that has a text.
pub trait Render {
    /// The text.
    spec fn rendering(&self) -> Seq<u8>;

    /// Adds the text to the end of `out`.
    fn render(&self, out: &mut Vec<u8>)
        ensures
            final(out)@ == old(out)@ + self.rendering(),
    ;

    /// The text, as bytes.
    fn to_bytes(&self) -> (r: Vec<u8>)
        ensures
            r@ == self.rendering(),
    {
        let mut out: Vec<u8> = Vec::new();
        self.render(&mut out);
        assert(out@ =~= self.rendering());
        out
    }

    /// The text, as a string: where the text is valid UTF-8, the string that
    /// it encodes; a replacement character stands for each part that is not.
    fn to_string(&self) -> (r: String)
        ensures
            r@ == lossy_text(self.rendering()),
            valid_utf8(self.rendering()) ==> r@ == decode_utf8(self.rendering()),
    {
        let bytes = self.to_bytes();
        lossy(bytes.as_slice())
    }
}

/// The texts of the items `items`.
pub open spec fn renderings<T: Render>(items: Seq<T>) -> Seq<Seq<u8>> {
    Seq::new(items.len(), |i: int| items[i].rendering())
}

/// Adds the texts of `items` to the end of `out`, with `separator` between
/// each two of them.
pub fn render_joined<T: Render>(out: &mut Vec<u8>, items: &Vec<T>, separator: u8)
    ensures
        final(out)@ == old(out)@ + joined(renderings(items@), seq![separator]),
{
    let mut i: usize = 0;
    while i < items.len()
        invariant
            i <= items.len(),
            out@ == old(out)@ + joined(renderings(items@).take(i as int), seq![separator]),
        decreases items.len() - i,
    {
        let ghost done = renderings(items@).take(i as int);
        let ghost next = renderings(items@).take(i + 1);
        assert(next.drop_last() =~= done);
        assert(next.last() == items@[i as int].rendering());
        if i > 0 {
            out.push(separator);
        }
        items[i].render(out);
        assert(out@ =~= old(out)@ + joined(next, seq![separator]));
        i = i + 1;
    }
    assert(renderings(items@).take(i as int) =~= renderings(items@));
}

/// Adds the texts of `items` to the end of `out`, each on a line of its own
/// after a line that came before.
pub fn render_section<T: Render>(out: &mut Vec<u8>, items: &Vec<T>)
    ensures
        final(out)@ == old(out)@ + section(renderings(items@)),
{
    if items.len() > 0 {
        out.push(NEWLINE);
        render_joined(out, items, NEWLINE);
        assert(out@ =~= old(out)@ + section(renderings(items@)));
    } else {
        assert(out@ =~= old(out)@ + section(renderings(items@)));
    }
}

impl Render for FiniteDouble {
    open spec fn rendering(&self) -> Seq<u8> {
        double_text(self@)
    }

    fn render(&self, out: &mut Vec<u8>) {
        let text = write_double(self.to_bits());
        append(out, text.as_slice());
    }
}

impl Render for Vec2 {
    open spec fn rendering(&self) -> Seq<u8> {
        vec2_text(self@)
    }

    fn render(&self, out: &mut Vec<u8>) {
        self.x.render(out);
        out.push(SPACE);
        self.y.render(out);
        assert(out@ =~= old(out)@ + vec2_text(self@));
    }
}

impl Render for Rotation {
    open spec fn rendering(&self) -> Seq<u8> {
        rotation_text(*self)
    }

    fn render(&self, out: &mut Vec<u8>) {
        match self {
            Rotation::Zero => out.push(0x30),
            Rotation::One => out.push(0x31),
            Rotation::Two => out.push(0x32),
            Rotation::Three => out.push(0x33),
        }
        assert(out@ =~= old(out)@ + rotation_text(*self));
    }
}

impl Render for Flip {
    open spec fn rendering(&self) -> Seq<u8> {
        flip_text(*self)
    }

    fn render(&self, out: &mut Vec<u8>) {
        match self {
            Flip::Unflipped => out.push(0x30),
            Flip::Flipped => out.push(0x31),
        }
        assert(out@ =~= old(out)@ + flip_text(*self));
    }
}

impl Render for Coordinates {
    open spec fn rendering(&self) -> Seq<u8> {
        points_text(self@)
    }

    fn render(&self, out: &mut Vec<u8>) {
        render_joined(out, &self.0, SPACE);
        assert(renderings(self.0@) =~= Seq::new(self@.len(), |i: int| vec2_text(self@[i])));
    }
}

impl<O: Render> Render for Objects<O> {
    /// The texts of the objects, each on a line of its own.
    open spec fn rendering(&self) -> Seq<u8> {
        joined(renderings(self.0@), seq![NEWLINE])
    }

    fn render(&self, out: &mut Vec<u8>) {
        render_joined(out, &self.0, NEWLINE);
    }
}

impl<'a> Render for Property<'a> {
    open spec fn rendering(&self) -> Seq<u8> {
        property_text(self@)
    }

    fn render(&self, out: &mut Vec<u8>) {
        out.push(OPEN_BRACE);
        append(out, self.prop.fragment());
        out.push(CLOSE_BRACE);
        assert(out@ =~= old(out)@ + property_text(self@));
    }
}

/// Adds a property after the tag of its object to the end of `out`.
fn render_tagged<'a>(out: &mut Vec<u8>, tag: u8, p: &Property<'a>)
    ensures
        final(out)@ == old(out)@ + tagged_text(tag, p@),
{
    out.push(tag);
    out.push(SPACE);
    p.render(out);
    assert(out@ =~= old(out)@ + tagged_text(tag, p@));
}

impl<'a> Render for Version<'a> {
    open spec fn rendering(&self) -> Seq<u8> {
        tagged_text(TAG_VERSION, self@)
    }

    fn render(&self, out: &mut Vec<u8>) {
        render_tagged(out, TAG_VERSION, &self.0);
    }
}

impl<'a> Render for VhdlProperty<'a> {
    open spec fn rendering(&self) -> Seq<u8> {
        tagged_text(TAG_VHDL, self@)
    }

    fn render(&self, out: &mut Vec<u8>) {
        render_tagged(out, TAG_VHDL, &self.0);
    }
}

impl<'a> Render for SymbolProperty<'a> {
    open spec fn rendering(&self) -> Seq<u8> {
        tagged_text(TAG_SYMBOL, self@)
    }

    fn render(&self, out: &mut Vec<u8>) {
        render_tagged(out, TAG_SYMBOL, &self.0);
    }
}

impl<'a> Render for VerilogProperty<'a> {
    open spec fn rendering(&self) -> Seq<u8> {
        tagged_text(TAG_VERILOG, self@)
    }

    fn render(&self, out: &mut Vec<u8>) {
        render_tagged(out, TAG_VERILOG, &self.0);
    }
}

impl<'a> Render for SpiceProperty<'a> {
    open spec fn rendering(&self) -> Seq<u8> {
        tagged_text(TAG_SPICE, self@)
    }

    fn render(&self, out: &mut Vec<u8>) {
        render_tagged(out, TAG_SPICE, &self.0);
    }
}

impl<'a> Render for TedaXProperty<'a> {
    open spec fn rendering(&self) -> Seq<u8> {
        tagged_text(TAG_TEDAX, self@)
    }

    fn render(&self, out: &mut Vec<u8>) {
        render_tagged(out, TAG_TEDAX, &self.0);
    }
}

impl<'a> Render for Arc<'a> {
    open spec fn rendering(&self) -> Seq<u8> {
        arc_text(self@)
    }

    fn render(&self, out: &mut Vec<u8>) {
        out.push(TAG_ARC);
        out.push(SPACE);
        append_unsigned(out, self.layer);
        out.push(SPACE);
        self.center.render(out);
        out.push(SPACE);
        self.radius.render(out);
        out.push(SPACE);
        self.start_angle.render(out);
        out.push(SPACE);
        self.sweep_angle.render(out);
        out.push(SPACE);
        self.property.render(out);
        assert(out@ =~= old(out)@ + arc_text(self@));
    }
}

impl<'a> Render for Line<'a> {
    open spec fn rendering(&self) -> Seq<u8> {
        line_text(self@)
    }

    fn render(&self, out: &mut Vec<u8>) {
        out.push(TAG_LINE);
        out.push(SPACE);
        append_unsigned(out, self.layer);
        out.push(SPACE);
        self.start.render(out);
        out.push(SPACE);
        self.end.render(out);
        out.push(SPACE);
        self.property.render(out);
        assert(out@ =~= old(out)@ + line_text(self@));
    }
}

impl<'a> Render for Rectangle<'a> {
    open spec fn rendering(&self) -> Seq<u8> {
        rectangle_text(self@)
    }

    fn render(&self, out: &mut Vec<u8>) {
        out.push(TAG_RECTANGLE);
        out.push(SPACE);
        append_unsigned(out, self.layer);
        out.push(SPACE);
        self.start.render(out);
        out.push(SPACE);
        self.end.render(out);
        out.push(SPACE);
        self.property.render(out);
        assert(out@ =~= old(out)@ + rectangle_text(self@));
    }
}

impl<'a> Render for Polygon<'a> {
    open spec fn rendering(&self) -> Seq<u8> {
        polygon_text(self@)
    }

    fn render(&self, out: &mut Vec<u8>) {
        out.push(TAG_POLYGON);
        out.push(SPACE);
        append_unsigned(out, self.layer);
        out.push(SPACE);
        append_unsigned(out, self.points.0.len() as u64);
        out.push(SPACE);
        self.points.render(out);
        out.push(SPACE);
        self.property.render(out);
        assert(out@ =~= old(out)@ + polygon_text(self@));
    }
}

impl<'a> Render for Text<'a> {
    open spec fn rendering(&self) -> Seq<u8> {
        text_text(self@)
    }

    fn render(&self, out: &mut Vec<u8>) {
        out.push(TAG_TEXT);
        out.push(SPACE);
        out.push(OPEN_BRACE);
        append(out, self.text.fragment());
        out.push(CLOSE_BRACE);
        out.push(SPACE);
        self.position.render(out);
        out.push(SPACE);
        self.rotation.render(out);
        out.push(SPACE);
        self.flip.render(out);
        out.push(SPACE);
        self.size.render(out);
        out.push(SPACE);
        self.property.render(out);
        assert(out@ =~= old(out)@ + text_text(self@));
    }
}

impl<'a> Render for Wire<'a> {
    open spec fn rendering(&self) -> Seq<u8> {
        wire_text(self@)
    }

    fn render(&self, out: &mut Vec<u8>) {
        out.push(TAG_WIRE);
        out.push(SPACE);
        self.start.render(out);
        out.push(SPACE);
        self.end.render(out);
        out.push(SPACE);
        self.property.render(out);
        assert(out@ =~= old(out)@ + wire_text(self@));
    }
}

/// There are as many texts as components were asked for.
pub proof fn lemma_component_texts_len(cs: Seq<ComponentView>, n: int)
    requires
        0 <= n <= cs.len(),
    ensures
        component_texts(cs, n).len() == n,
    decreases n,
{
    if n > 0 {
        lemma_component_texts_len(cs, n - 1);
    }
}

/// Adds a property of the schematic on a line of its own to the end of
/// `out`, where there is one.
fn render_slot<'a>(out: &mut Vec<u8>, tag: u8, slot: Option<&Property<'a>>)
    ensures
        final(out)@ == old(out)@ + slot_text(
            tag,
            match slot {
                Some(p) => Some(p@),
                None => None,
            },
        ),
{
    match slot {
        Some(p) => {
            out.push(NEWLINE);
            render_tagged(out, tag, p);
            assert(out@ =~= old(out)@ + slot_text(tag, Some(p@)));
        },
        None => {
            assert(out@ =~= old(out)@ + slot_text(tag, None));
        },
    }
}

/// `(a + b) + c` is `a + (b + c)`.
pub proof fn lemma_concat(a: Seq<u8>, b: Seq<u8>, c: Seq<u8>)
    ensures
        (a + b) + c == a + (b + c),
{
    assert((a + b) + c =~= a + (b + c));
}

/// Adds the version and the properties of the schematic `s` to the end of
/// `out`.
fn render_properties<'a>(out: &mut Vec<u8>, s: &Schematic<'a>)
    ensures
        final(out)@ == old(out)@ + properties_text(s@),
{
    let ghost base = old(out)@;
    render_tagged(out, TAG_VERSION, &s.version.0);
    let ghost t0 = tagged_text(TAG_VERSION, s@.version);
    render_slot(
        out,
        TAG_VHDL,
        match &s.vhdl_property {
            Some(p) => Some(&p.0),
            None => None,
        },
    );
    let ghost t1 = t0 + slot_text(TAG_VHDL, s@.vhdl_property);
    proof {
        lemma_concat(base, t0, slot_text(TAG_VHDL, s@.vhdl_property));
    }
    render_slot(
        out,
        TAG_SYMBOL,
        match &s.symbol_property {
            Some(p) => Some(&p.0),
            None => None,
        },
    );
    let ghost t2 = t1 + slot_text(TAG_SYMBOL, s@.symbol_property);
    proof {
        lemma_concat(base, t1, slot_text(TAG_SYMBOL, s@.symbol_property));
    }
    render_slot(
        out,
        TAG_VERILOG,
        match &s.verilog_property {
            Some(p) => Some(&p.0),
            None => None,
        },
    );
    let ghost t3 = t2 + slot_text(TAG_VERILOG, s@.verilog_property);
    proof {
        lemma_concat(base, t2, slot_text(TAG_VERILOG, s@.verilog_property));
    }
    render_slot(
        out,
        TAG_SPICE,
        match &s.spice_property {
            Some(p) => Some(&p.0),
            None => None,
        },
    );
    let ghost t4 = t3 + slot_text(TAG_SPICE, s@.spice_property);
    proof {
        lemma_concat(base, t3, slot_text(TAG_SPICE, s@.spice_property));
    }
    render_slot(
        out,
        TAG_TEDAX,
        match &s.tedax_property {
            Some(p) => Some(&p.0),
            None => None,
        },
    );
    proof {
        lemma_concat(base, t4, slot_text(TAG_TEDAX, s@.tedax_property));
    }
}

/// Adds the texts, lines, rectangles, polygons, arcs and wires of the
/// schematic `s` to the end of `out`.
fn render_primitives<'a>(out: &mut Vec<u8>, s: &Schematic<'a>)
    ensures
        final(out)@ == old(out)@ + primitives_text(s@),
{
    let ghost base = old(out)@;
    let ghost texts = section(Seq::new(s@.texts.len(), |i: int| text_text(s@.texts[i])));
    let ghost lines = section(Seq::new(s@.lines.len(), |i: int| line_text(s@.lines[i])));
    let ghost rectangles = section(
        Seq::new(s@.rectangles.len(), |i: int| rectangle_text(s@.rectangles[i])),
    );
    let ghost polygons = section(
        Seq::new(s@.polygons.len(), |i: int| polygon_text(s@.polygons[i])),
    );
    let ghost arcs = section(Seq::new(s@.arcs.len(), |i: int| arc_text(s@.arcs[i])));
    let ghost wires = section(Seq::new(s@.wires.len(), |i: int| wire_text(s@.wires[i])));
    proof {
        assert(renderings(s.texts.0@) =~= Seq::new(
            s@.texts.len(),
            |i: int| text_text(s@.texts[i]),
        ));
        assert(renderings(s.lines.0@) =~= Seq::new(
            s@.lines.len(),
            |i: int| line_text(s@.lines[i]),
        ));
        assert(renderings(s.rectangles.0@) =~= Seq::new(
            s@.rectangles.len(),
            |i: int| rectangle_text(s@.rectangles[i]),
        ));
        assert(renderings(s.polygons.0@) =~= Seq::new(
            s@.polygons.len(),
            |i: int| polygon_text(s@.polygons[i]),
        ));
        assert(renderings(s.arcs.0@) =~= Seq::new(s@.arcs.len(), |i: int| arc_text(s@.arcs[i])));
        assert(renderings(s.wires.0@) =~= Seq::new(
            s@.wires.len(),
            |i: int| wire_text(s@.wires[i]),
        ));
    }
    render_section(out, &s.texts.0);
    render_section(out, &s.lines.0);
    proof {
        lemma_concat(base, texts, lines);
    }
    render_section(out, &s.rectangles.0);
    proof {
        lemma_concat(base, texts + lines, rectangles);
    }
    render_section(out, &s.polygons.0);
    proof {
        lemma_concat(base, texts + lines + rectangles, polygons);
    }
    render_section(out, &s.arcs.0);
    proof {
        lemma_concat(base, texts + lines + rectangles + polygons, arcs);
    }
    render_section(out, &s.wires.0);
    proof {
        lemma_concat(base, texts + lines + rectangles + polygons + arcs, wires);
    }
}

/// Adds the text of the schematic `s` to the end of `out`.
pub fn render_schematic<'a>(out: &mut Vec<u8>, s: &Schematic<'a>)
    ensures
        final(out)@ == old(out)@ + schematic_text(s@),
    decreases s, 1int,
{
    let ghost base = old(out)@;
    render_properties(out, s);
    render_primitives(out, s);
    proof {
        lemma_concat(base, properties_text(s@), primitives_text(s@));
    }
    let ghost before = out@;
    let ghost cs = s@.components;
    proof {
        lemma_components_view(s.components.0@, s.components.0@.len() as int);
    }
    let n = s.components.0.len();
    let mut i: usize = 0;
    while i < n
        invariant
            i <= n,
            n == s.components.0@.len(),
            cs == s@.components,
            cs.len() == n,
            forall|k: int| 0 <= k < n ==> cs[k] == (#[trigger] s.components.0@[k])@,
            out@ == before + section(component_texts(cs, i as int)),
        decreases n - i,
    {
        proof {
            lemma_component_texts_len(cs, i as int);
            lemma_component_texts_len(cs, i + 1);
            assert(component_texts(cs, i + 1).drop_last() =~= component_texts(cs, i as int));
        }
        let ghost held = out@;
        out.push(NEWLINE);
        render_component(out, &s.components.0[i]);
        proof {
            let item = component_text(cs[i as int]);
            assert(out@ == held.push(NEWLINE) + item);
            assert(component_texts(cs, i + 1).last() == item);
            if i == 0 {
                assert(held =~= before);
                assert(section(component_texts(cs, 1)) =~= seq![NEWLINE] + item);
                assert(held.push(NEWLINE) + item =~= before + (seq![NEWLINE] + item));
            } else {
                let so_far = joined(component_texts(cs, i as int), seq![NEWLINE]);
                assert(held == before + (seq![NEWLINE] + so_far));
                assert(section(component_texts(cs, i + 1)) == seq![NEWLINE] + (so_far
                    + seq![NEWLINE] + item));
                assert(held.push(NEWLINE) + item =~= before + (seq![NEWLINE] + (so_far
                    + seq![NEWLINE] + item)));
            }
        }
        i = i + 1;
    }
    proof {
        lemma_concat(
            base,
            properties_text(s@) + primitives_text(s@),
            section(component_texts(cs, n as int)),
        );
    }
}

/// Adds the text of the component `c`, without what it embeds, to the end
/// of `out`.
fn render_instance<'a>(out: &mut Vec<u8>, c: &Component<'a>)
    ensures
        final(out)@ == old(out)@ + instance_text(c@),
{
    out.push(TAG_COMPONENT);
    out.push(SPACE);
    out.push(OPEN_BRACE);
    append(out, c.reference.fragment());
    out.push(CLOSE_BRACE);
    out.push(SPACE);
    c.position.render(out);
    out.push(SPACE);
    c.rotation.render(out);
    out.push(SPACE);
    c.flip.render(out);
    out.push(SPACE);
    c.property.render(out);
    assert(out@ =~= old(out)@ + instance_text(c@));
}

/// Adds the text of the component `c` to the end of `out`.
pub fn render_component<'a>(out: &mut Vec<u8>, c: &Component<'a>)
    ensures
        final(out)@ == old(out)@ + component_text(c@),
    decreases c, 0int,
{
    let ghost base = old(out)@;
    render_instance(out, c);
    match &c.embedding {
        Some(e) => {
            let ghost held = out@;
            out.push(NEWLINE);
            out.push(OPEN_BRACKET);
            out.push(NEWLINE);
            let ghost opened = out@;
            render_schematic(out, &e.0);
            let ghost filled = out@;
            out.push(NEWLINE);
            out.push(CLOSE_BRACKET);
            proof {
                let inner = schematic_text(e.0@);
                assert(opened =~= held + seq![NEWLINE, OPEN_BRACKET, NEWLINE]);
                assert(out@ =~= filled + seq![NEWLINE, CLOSE_BRACKET]);
                assert(seq![NEWLINE] + embedding_text(e.0@) =~= seq![
                    NEWLINE,
                    OPEN_BRACKET,
                    NEWLINE,
                ] + inner + seq![NEWLINE, CLOSE_BRACKET]);
                lemma_concat(held, seq![NEWLINE, OPEN_BRACKET, NEWLINE], inner);
                lemma_concat(
                    held,
                    seq![NEWLINE, OPEN_BRACKET, NEWLINE] + inner,
                    seq![NEWLINE, CLOSE_BRACKET],
                );
                lemma_concat(base, instance_text(c@), seq![NEWLINE] + embedding_text(e.0@));
            }
        },
        None => {
            assert(out@ =~= old(out)@ + component_text(c@));
        },
    }
}

impl<'a> Render for Component<'a> {
    open spec fn rendering(&self) -> Seq<u8> {
        component_text(self@)
    }

    fn render(&self, out: &mut Vec<u8>) {
        render_component(out, self);
    }
}

impl<'a> Render for Schematic<'a> {
    open spec fn rendering(&self) -> Seq<u8> {
        schematic_text(self@)
    }

    fn render(&self, out: &mut Vec<u8>) {
        render_schematic(out, self);
    }
}

impl<'a> Render for Embedding<'a> {
    open spec fn rendering(&self) -> Seq<u8> {
        embedding_text(self@)
    }

    fn render(&self, out: &mut Vec<u8>) {
        out.push(OPEN_BRACKET);
        out.push(NEWLINE);
        render_schematic(out, &self.0);
        out.push(NEWLINE);
        out.push(CLOSE_BRACKET);
        assert(out@ =~= old(out)@ + embedding_text(self@));
    }
}

} // verus!
