//! Which numbers are written as text that is read back as the same number,
//! and which schematics hold only such numbers.
use vstd::prelude::*;

use crate::grammar;
use crate::grammar::Parsed;
use crate::number::{double_text, double_value, read_double, write_double};
use crate::parse::float_shape;
use crate::render::SPACE;
use crate::span::{Span, SpanView};
use crate::token::{
    component_view, lemma_components_view, schematic_view, Arc, ArcView, Component, ComponentView,
    Coordinates, FiniteDouble, Line, LineView, ObjectView, Polygon, PolygonView, Rectangle,
    RectangleView, Schematic, SchematicView, Text, TextView, Vec2, Vec2View, Wire, WireView,
};

verus! {

/// The number with the bit pattern `bits` is written as a number that is
/// read back: followed by a space, all of its text has the shape of a number,
/// and the value of the text is the number.
pub open spec fn prints_faithfully(bits: u64) -> bool {
    &&& grammar::float_shape(SpanView::whole(double_text(bits) + seq![SPACE])) matches Parsed::Done {
        len,
        ..
    } && len == double_text(bits).len()
    &&& double_value(double_text(bits)) == Some(bits)
}

/// Decides whether the finite number `d` is written as a number that is
/// read back, by writing it and reading it.
pub fn prints_back(d: FiniteDouble) -> (r: bool)
    ensures
        r == prints_faithfully(d@),
{
    let bits = d.to_bits();
    let written = write_double(bits);
    let n = written.len();
    let mut followed = written;
    followed.push(SPACE);
    assert(followed@ =~= double_text(bits) + seq![SPACE]);
    let whole = Span::new(followed.as_slice());
    match float_shape(whole) {
        Ok((rest, _)) => {
            if rest.input_len() != 1 {
                return false;
            }
            let text = vstd::slice::slice_subrange(followed.as_slice(), 0, n);
            assert(text@ =~= double_text(bits));
            match read_double(text) {
                Some(read) => read == bits,
                None => false,
            }
        },
        Err(_) => false,
    }
}

/// Both numbers of `v` are written as numbers that are read back.
pub open spec fn vec2_faithful(v: Vec2View) -> bool {
    prints_faithfully(v.x) && prints_faithfully(v.y)
}

/// Each of the points is written as it is read back.
pub open spec fn points_faithful(points: Seq<Vec2View>) -> bool {
    forall|i: int| 0 <= i < points.len() ==> vec2_faithful(#[trigger] points[i])
}

/// The numbers of the arc `a` are written as they are read back.
pub open spec fn arc_faithful(a: ArcView) -> bool {
    &&& vec2_faithful(a.center)
    &&& prints_faithfully(a.radius)
    &&& prints_faithfully(a.start_angle)
    &&& prints_faithfully(a.sweep_angle)
}

/// The numbers of the line `l` are written as they are read back.
pub open spec fn line_faithful(l: LineView) -> bool {
    vec2_faithful(l.start) && vec2_faithful(l.end)
}

/// The numbers of the rectangle `r` are written as they are read back.
pub open spec fn rectangle_faithful(r: RectangleView) -> bool {
    vec2_faithful(r.start) && vec2_faithful(r.end)
}

/// The points of the polygon `p` are written as they are read back.
pub open spec fn polygon_faithful(p: PolygonView) -> bool {
    points_faithful(p.points)
}

/// The position and the size of the text `t` are written as they are read
/// back.
pub open spec fn text_faithful(t: TextView) -> bool {
    vec2_faithful(t.position) && vec2_faithful(t.size)
}

/// The numbers of the wire `w` are written as they are read back.
pub open spec fn wire_faithful(w: WireView) -> bool {
    vec2_faithful(w.start) && vec2_faithful(w.end)
}

/// The position of the component `c` is written as it is read back, and so
/// is every number in what it embeds.
pub open spec fn component_faithful(c: ComponentView) -> bool
    decreases c, 0int,
{
    &&& vec2_faithful(c.position)
    &&& match c.embedding {
        Some(s) => schematic_faithful(s),
        None => true,
    }
}

/// Every number in the schematic `s` is written as a number that is read
/// back.
pub open spec fn schematic_faithful(s: SchematicView) -> bool
    decreases s, 1int,
{
    &&& forall|i: int| 0 <= i < s.texts.len() ==> text_faithful(#[trigger] s.texts[i])
    &&& forall|i: int| 0 <= i < s.lines.len() ==> line_faithful(#[trigger] s.lines[i])
    &&& forall|i: int| 0 <= i < s.rectangles.len() ==> rectangle_faithful(#[trigger] s.rectangles[i])
    &&& forall|i: int| 0 <= i < s.polygons.len() ==> polygon_faithful(#[trigger] s.polygons[i])
    &&& forall|i: int| 0 <= i < s.arcs.len() ==> arc_faithful(#[trigger] s.arcs[i])
    &&& forall|i: int| 0 <= i < s.wires.len() ==> wire_faithful(#[trigger] s.wires[i])
    &&& forall|i: int| 0 <= i < s.components.len() ==> component_faithful(#[trigger] s.components[i])
}

/// Every number in the object `o` is written as a number that is read back.
pub open spec fn object_faithful(o: ObjectView) -> bool {
    match o {
        ObjectView::SpiceProperty(_) => true,
        ObjectView::VerilogProperty(_) => true,
        ObjectView::VhdlProperty(_) => true,
        ObjectView::TedaXProperty(_) => true,
        ObjectView::SymbolProperty(_) => true,
        ObjectView::Arc(o) => arc_faithful(o),
        ObjectView::Component(o) => component_faithful(o),
        ObjectView::Line(o) => line_faithful(o),
        ObjectView::Polygon(o) => polygon_faithful(o),
        ObjectView::Rectangle(o) => rectangle_faithful(o),
        ObjectView::Text(o) => text_faithful(o),
        ObjectView::Wire(o) => wire_faithful(o),
    }
}

/// A value that holds numbers, of which it can be decided whether each is
/// written as a number that is read back.
pub trait PrintsBack {
    /// Every number in the value is written as a number that is read back.
    spec fn faithful(&self) -> bool;

    /// Decides whether every number in the value is written as a number that
    /// is read back, by writing each and reading it.
    fn prints_back(&self) -> (r: bool)
        ensures
            r == self.faithful(),
    ;
}

impl PrintsBack for Vec2 {
    open spec fn faithful(&self) -> bool {
        vec2_faithful(self@)
    }

    fn prints_back(&self) -> (r: bool) {
        prints_back(self.x) && prints_back(self.y)
    }
}

impl PrintsBack for Coordinates {
    open spec fn faithful(&self) -> bool {
        points_faithful(self@)
    }

    fn prints_back(&self) -> (r: bool) {
        let r = all_print_back(&self.0);
        proof {
            if r {
                assert forall|i: int| 0 <= i < self@.len() implies vec2_faithful(
                    #[trigger] self@[i],
                ) by {
                    assert(self.0@[i].faithful());
                }
            } else {
                let i = choose|i: int| 0 <= i < self.0@.len() && !(#[trigger] self.0@[i]).faithful();
                assert(!vec2_faithful(self@[i]));
            }
        }
        r
    }
}

impl<'a> PrintsBack for Arc<'a> {
    open spec fn faithful(&self) -> bool {
        arc_faithful(self@)
    }

    fn prints_back(&self) -> (r: bool) {
        self.center.prints_back() && prints_back(self.radius) && prints_back(self.start_angle)
            && prints_back(self.sweep_angle)
    }
}

impl<'a> PrintsBack for Line<'a> {
    open spec fn faithful(&self) -> bool {
        line_faithful(self@)
    }

    fn prints_back(&self) -> (r: bool) {
        self.start.prints_back() && self.end.prints_back()
    }
}

impl<'a> PrintsBack for Rectangle<'a> {
    open spec fn faithful(&self) -> bool {
        rectangle_faithful(self@)
    }

    fn prints_back(&self) -> (r: bool) {
        self.start.prints_back() && self.end.prints_back()
    }
}

impl<'a> PrintsBack for Polygon<'a> {
    open spec fn faithful(&self) -> bool {
        polygon_faithful(self@)
    }

    fn prints_back(&self) -> (r: bool) {
        self.points.prints_back()
    }
}

impl<'a> PrintsBack for Text<'a> {
    open spec fn faithful(&self) -> bool {
        text_faithful(self@)
    }

    fn prints_back(&self) -> (r: bool) {
        self.position.prints_back() && self.size.prints_back()
    }
}

impl<'a> PrintsBack for Wire<'a> {
    open spec fn faithful(&self) -> bool {
        wire_faithful(self@)
    }

    fn prints_back(&self) -> (r: bool) {
        self.start.prints_back() && self.end.prints_back()
    }
}

/// Decides whether every one of the items holds only numbers that are
/// written as they are read back.
pub fn all_print_back<O: PrintsBack>(items: &Vec<O>) -> (r: bool)
    ensures
        r == forall|i: int| 0 <= i < items@.len() ==> (#[trigger] items@[i]).faithful(),
{
    let n = items.len();
    let mut i: usize = 0;
    while i < n
        invariant
            i <= n,
            n == items@.len(),
            forall|j: int| 0 <= j < i ==> (#[trigger] items@[j]).faithful(),
        decreases n - i,
    {
        if !items[i].prints_back() {
            return false;
        }
        i = i + 1;
    }
    true
}

/// Decides whether every number in the component `c` and in what it embeds is
/// written as a number that is read back.
pub fn component_prints_back<'a>(c: &Component<'a>) -> (r: bool)
    ensures
        r == component_faithful(c@),
    decreases c, 0int,
{
    if !c.position.prints_back() {
        return false;
    }
    match &c.embedding {
        Some(e) => schematic_prints_back(&e.0),
        None => true,
    }
}

/// Decides whether every number in the schematic `s` is written as a number
/// that is read back.
pub fn schematic_prints_back<'a>(s: &Schematic<'a>) -> (r: bool)
    ensures
        r == schematic_faithful(s@),
    decreases s, 1int,
{
    proof {
        lemma_components_view(s.components.0@, s.components.0@.len() as int);
    }
    if !all_print_back(&s.texts.0) {
        proof {
            let i = choose|i: int| 0 <= i < s.texts.0@.len() && !(#[trigger] s.texts.0@[i]).faithful();
            assert(!text_faithful(s@.texts[i]));
        }
        return false;
    }
    if !all_print_back(&s.lines.0) {
        proof {
            let i = choose|i: int| 0 <= i < s.lines.0@.len() && !(#[trigger] s.lines.0@[i]).faithful();
            assert(!line_faithful(s@.lines[i]));
        }
        return false;
    }
    if !all_print_back(&s.rectangles.0) {
        proof {
            let i = choose|i: int|
                0 <= i < s.rectangles.0@.len() && !(#[trigger] s.rectangles.0@[i]).faithful();
            assert(!rectangle_faithful(s@.rectangles[i]));
        }
        return false;
    }
    if !all_print_back(&s.polygons.0) {
        proof {
            let i = choose|i: int|
                0 <= i < s.polygons.0@.len() && !(#[trigger] s.polygons.0@[i]).faithful();
            assert(!polygon_faithful(s@.polygons[i]));
        }
        return false;
    }
    if !all_print_back(&s.arcs.0) {
        proof {
            let i = choose|i: int| 0 <= i < s.arcs.0@.len() && !(#[trigger] s.arcs.0@[i]).faithful();
            assert(!arc_faithful(s@.arcs[i]));
        }
        return false;
    }
    if !all_print_back(&s.wires.0) {
        proof {
            let i = choose|i: int| 0 <= i < s.wires.0@.len() && !(#[trigger] s.wires.0@[i]).faithful();
            assert(!wire_faithful(s@.wires[i]));
        }
        return false;
    }
    let n = s.components.0.len();
    let mut i: usize = 0;
    while i < n
        invariant
            i <= n,
            n == s.components.0@.len(),
            s@.components.len() == n,
            forall|j: int| 0 <= j < n ==> s@.components[j] == component_view(s.components.0@[j]),
            forall|j: int| 0 <= j < i ==> component_faithful(#[trigger] s@.components[j]),
        decreases n - i,
    {
        if !component_prints_back(&s.components.0[i]) {
            assert(!component_faithful(s@.components[i as int]));
            return false;
        }
        i = i + 1;
    }
    assert forall|i: int| 0 <= i < s@.texts.len() implies text_faithful(#[trigger] s@.texts[i]) by {
        assert(s.texts.0@[i].faithful());
    }
    assert forall|i: int| 0 <= i < s@.lines.len() implies line_faithful(#[trigger] s@.lines[i]) by {
        assert(s.lines.0@[i].faithful());
    }
    assert forall|i: int| 0 <= i < s@.rectangles.len() implies rectangle_faithful(
        #[trigger] s@.rectangles[i],
    ) by {
        assert(s.rectangles.0@[i].faithful());
    }
    assert forall|i: int| 0 <= i < s@.polygons.len() implies polygon_faithful(
        #[trigger] s@.polygons[i],
    ) by {
        assert(s.polygons.0@[i].faithful());
    }
    assert forall|i: int| 0 <= i < s@.arcs.len() implies arc_faithful(#[trigger] s@.arcs[i]) by {
        assert(s.arcs.0@[i].faithful());
    }
    assert forall|i: int| 0 <= i < s@.wires.len() implies wire_faithful(#[trigger] s@.wires[i]) by {
        assert(s.wires.0@[i].faithful());
    }
    true
}

impl<'a> PrintsBack for Component<'a> {
    open spec fn faithful(&self) -> bool {
        component_faithful(self@)
    }

    fn prints_back(&self) -> (r: bool) {
        component_prints_back(self)
    }
}

impl<'a> PrintsBack for Schematic<'a> {
    open spec fn faithful(&self) -> bool {
        schematic_faithful(self@)
    }

    fn prints_back(&self) -> (r: bool) {
        schematic_prints_back(self)
    }
}

} // verus!
