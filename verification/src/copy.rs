//! Copies of schematics and of what they are made of: a copy says what the
//! value says, text for text in the same input.
use vstd::prelude::*;

use crate::token::{
    component_view, lemma_components_view, Arc, Component, Coordinates, Embedding, Line, Object,
    Objects, Polygon, Property, Rectangle, Schematic, SpiceProperty, SymbolProperty,
    TedaXProperty, Text, VerilogProperty, Version, VhdlProperty, Wire,
};

verus! {

impl Clone for Coordinates {
    fn clone(&self) -> (r: Self)
        ensures
            r@ == self@,
    {
        let r = Coordinates(self.0.clone());
        assert(r@ =~= self@);
        r
    }
}

impl<O: Clone> Clone for Objects<O> {
    fn clone(&self) -> (r: Self)
        ensures
            r.0@.len() == self.0@.len(),
            forall|i: int| 0 <= i < self.0@.len() ==> cloned(#[trigger] self.0@[i], r.0@[i]),
    {
        Objects(self.0.clone())
    }
}

impl<'a> Clone for Property<'a> {
    fn clone(&self) -> (r: Self)
        ensures
            r@ == self@,
    {
        Property { prop: self.prop, attrs: self.attrs.clone() }
    }
}

impl<'a> Clone for Version<'a> {
    fn clone(&self) -> (r: Self)
        ensures
            r@ == self@,
    {
        Version(self.0.clone())
    }
}

impl<'a> Clone for VhdlProperty<'a> {
    fn clone(&self) -> (r: Self)
        ensures
            r@ == self@,
    {
        VhdlProperty(self.0.clone())
    }
}

impl<'a> Clone for SymbolProperty<'a> {
    fn clone(&self) -> (r: Self)
        ensures
            r@ == self@,
    {
        SymbolProperty(self.0.clone())
    }
}

impl<'a> Clone for VerilogProperty<'a> {
    fn clone(&self) -> (r: Self)
        ensures
            r@ == self@,
    {
        VerilogProperty(self.0.clone())
    }
}

impl<'a> Clone for SpiceProperty<'a> {
    fn clone(&self) -> (r: Self)
        ensures
            r@ == self@,
    {
        SpiceProperty(self.0.clone())
    }
}

impl<'a> Clone for TedaXProperty<'a> {
    fn clone(&self) -> (r: Self)
        ensures
            r@ == self@,
    {
        TedaXProperty(self.0.clone())
    }
}

impl<'a> Clone for Arc<'a> {
    fn clone(&self) -> (r: Self)
        ensures
            r@ == self@,
    {
        Arc {
            layer: self.layer,
            center: self.center,
            radius: self.radius,
            start_angle: self.start_angle,
            sweep_angle: self.sweep_angle,
            property: self.property.clone(),
        }
    }
}

impl<'a> Clone for Line<'a> {
    fn clone(&self) -> (r: Self)
        ensures
            r@ == self@,
    {
        Line {
            layer: self.layer,
            start: self.start,
            end: self.end,
            property: self.property.clone(),
        }
    }
}

impl<'a> Clone for Rectangle<'a> {
    fn clone(&self) -> (r: Self)
        ensures
            r@ == self@,
    {
        Rectangle {
            layer: self.layer,
            start: self.start,
            end: self.end,
            property: self.property.clone(),
        }
    }
}

impl<'a> Clone for Polygon<'a> {
    fn clone(&self) -> (r: Self)
        ensures
            r@ == self@,
    {
        Polygon {
            layer: self.layer,
            points: self.points.clone(),
            property: self.property.clone(),
        }
    }
}

impl<'a> Clone for Text<'a> {
    fn clone(&self) -> (r: Self)
        ensures
            r@ == self@,
    {
        Text {
            text: self.text,
            position: self.position,
            rotation: self.rotation,
            flip: self.flip,
            size: self.size,
            property: self.property.clone(),
        }
    }
}

impl<'a> Clone for Wire<'a> {
    fn clone(&self) -> (r: Self)
        ensures
            r@ == self@,
    {
        Wire { start: self.start, end: self.end, property: self.property.clone() }
    }
}

/// A copy of the component `c` and of what it embeds.
pub fn component_copy<'a>(c: &Component<'a>) -> (r: Component<'a>)
    ensures
        r@ == c@,
    decreases c, 0int,
{
    Component {
        reference: c.reference,
        position: c.position,
        rotation: c.rotation,
        flip: c.flip,
        property: c.property.clone(),
        embedding: match &c.embedding {
            Some(e) => Some(Embedding(schematic_copy(&e.0))),
            None => None,
        },
    }
}

/// A copy of the schematic `s` and of all its objects.
pub fn schematic_copy<'a>(s: &Schematic<'a>) -> (r: Schematic<'a>)
    ensures
        r@ == s@,
    decreases s, 1int,
{
    let mut components: Vec<Component<'a>> = Vec::new();
    let n = s.components.0.len();
    let mut i: usize = 0;
    while i < n
        invariant
            i <= n,
            n == s.components.0@.len(),
            components@.len() == i,
            forall|j: int|
                0 <= j < i ==> component_view(#[trigger] components@[j]) == component_view(
                    s.components.0@[j],
                ),
        decreases n - i,
    {
        let c = component_copy(&s.components.0[i]);
        components.push(c);
        i = i + 1;
    }
    let r = Schematic {
        version: s.version.clone(),
        vhdl_property: match &s.vhdl_property {
            Some(p) => Some(p.clone()),
            None => None,
        },
        symbol_property: match &s.symbol_property {
            Some(p) => Some(p.clone()),
            None => None,
        },
        verilog_property: match &s.verilog_property {
            Some(p) => Some(p.clone()),
            None => None,
        },
        spice_property: match &s.spice_property {
            Some(p) => Some(p.clone()),
            None => None,
        },
        tedax_property: match &s.tedax_property {
            Some(p) => Some(p.clone()),
            None => None,
        },
        texts: s.texts.clone(),
        lines: s.lines.clone(),
        rectangles: s.rectangles.clone(),
        polygons: s.polygons.clone(),
        arcs: s.arcs.clone(),
        wires: s.wires.clone(),
        components: Objects(components),
    };
    proof {
        lemma_components_view(s.components.0@, n as int);
        lemma_components_view(r.components.0@, n as int);
        assert(r@.components =~= s@.components);
        assert(r@.texts =~= s@.texts);
        assert(r@.lines =~= s@.lines);
        assert(r@.rectangles =~= s@.rectangles);
        assert(r@.polygons =~= s@.polygons);
        assert(r@.arcs =~= s@.arcs);
        assert(r@.wires =~= s@.wires);
    }
    r
}

impl<'a> Clone for Component<'a> {
    fn clone(&self) -> (r: Self)
        ensures
            r@ == self@,
    {
        component_copy(self)
    }
}

impl<'a> Clone for Embedding<'a> {
    fn clone(&self) -> (r: Self)
        ensures
            r@ == self@,
    {
        Embedding(schematic_copy(&self.0))
    }
}

impl<'a> Clone for Schematic<'a> {
    fn clone(&self) -> (r: Self)
        ensures
            r@ == self@,
    {
        schematic_copy(self)
    }
}

impl<'a> Clone for Object<'a> {
    fn clone(&self) -> (r: Self)
        ensures
            r@ == self@,
    {
        match self {
            Object::SpiceProperty(p) => Object::SpiceProperty(p.clone()),
            Object::VerilogProperty(p) => Object::VerilogProperty(p.clone()),
            Object::VhdlProperty(p) => Object::VhdlProperty(p.clone()),
            Object::TedaXProperty(p) => Object::TedaXProperty(p.clone()),
            Object::SymbolProperty(p) => Object::SymbolProperty(p.clone()),
            Object::Arc(o) => Object::Arc(o.clone()),
            Object::Component(o) => Object::Component(o.clone()),
            Object::Line(o) => Object::Line(o.clone()),
            Object::Polygon(o) => Object::Polygon(o.clone()),
            Object::Rectangle(o) => Object::Rectangle(o.clone()),
            Object::Text(o) => Object::Text(o.clone()),
            Object::Wire(o) => Object::Wire(o.clone()),
        }
    }
}

} // verus!
