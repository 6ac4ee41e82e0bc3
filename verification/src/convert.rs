//! Conversions between the types of a schematic and what they hold.
use vstd::prelude::*;
use vstd::std_specs::convert::FromSpecImpl;

use crate::token::{
    Arc, Component, Coordinate, Coordinates, Embedding, FiniteDouble, Line, Object, Objects,
    Polygon, Property, Rectangle, Schematic, SpiceProperty, SymbolProperty, TedaXProperty, Text,
    Vec2, VerilogProperty, VhdlProperty, Wire,
};

verus! {

impl<'a> From<Property<'a>> for VhdlProperty<'a> {
    fn from(value: Property<'a>) -> (r: Self) {
        VhdlProperty(value)
    }
}

impl<'a> FromSpecImpl<Property<'a>> for VhdlProperty<'a> {
    open spec fn obeys_from_spec() -> bool {
        true
    }

    open spec fn from_spec(value: Property<'a>) -> Self {
        VhdlProperty(value)
    }
}

impl<'a> From<Property<'a>> for SymbolProperty<'a> {
    fn from(value: Property<'a>) -> (r: Self) {
        SymbolProperty(value)
    }
}

impl<'a> FromSpecImpl<Property<'a>> for SymbolProperty<'a> {
    open spec fn obeys_from_spec() -> bool {
        true
    }

    open spec fn from_spec(value: Property<'a>) -> Self {
        SymbolProperty(value)
    }
}

impl<'a> From<Property<'a>> for VerilogProperty<'a> {
    fn from(value: Property<'a>) -> (r: Self) {
        VerilogProperty(value)
    }
}

impl<'a> FromSpecImpl<Property<'a>> for VerilogProperty<'a> {
    open spec fn obeys_from_spec() -> bool {
        true
    }

    open spec fn from_spec(value: Property<'a>) -> Self {
        VerilogProperty(value)
    }
}

impl<'a> From<Property<'a>> for SpiceProperty<'a> {
    fn from(value: Property<'a>) -> (r: Self) {
        SpiceProperty(value)
    }
}

impl<'a> FromSpecImpl<Property<'a>> for SpiceProperty<'a> {
    open spec fn obeys_from_spec() -> bool {
        true
    }

    open spec fn from_spec(value: Property<'a>) -> Self {
        SpiceProperty(value)
    }
}

impl<'a> From<Property<'a>> for TedaXProperty<'a> {
    fn from(value: Property<'a>) -> (r: Self) {
        TedaXProperty(value)
    }
}

impl<'a> FromSpecImpl<Property<'a>> for TedaXProperty<'a> {
    open spec fn obeys_from_spec() -> bool {
        true
    }

    open spec fn from_spec(value: Property<'a>) -> Self {
        TedaXProperty(value)
    }
}

impl<'a> From<Schematic<'a>> for Embedding<'a> {
    fn from(value: Schematic<'a>) -> (r: Self) {
        Embedding(value)
    }
}

impl<'a> FromSpecImpl<Schematic<'a>> for Embedding<'a> {
    open spec fn obeys_from_spec() -> bool {
        true
    }

    open spec fn from_spec(value: Schematic<'a>) -> Self {
        Embedding(value)
    }
}

impl<'a> From<Embedding<'a>> for Schematic<'a> {
    fn from(value: Embedding<'a>) -> (r: Self) {
        value.0
    }
}

impl<'a> FromSpecImpl<Embedding<'a>> for Schematic<'a> {
    open spec fn obeys_from_spec() -> bool {
        true
    }

    open spec fn from_spec(value: Embedding<'a>) -> Self {
        value.0
    }
}

impl<O> From<Vec<O>> for Objects<O> {
    fn from(value: Vec<O>) -> (r: Self) {
        Objects(value)
    }
}

impl<O> FromSpecImpl<Vec<O>> for Objects<O> {
    open spec fn obeys_from_spec() -> bool {
        true
    }

    open spec fn from_spec(value: Vec<O>) -> Self {
        Objects(value)
    }
}

impl<O> From<Objects<O>> for Vec<O> {
    fn from(value: Objects<O>) -> (r: Self) {
        value.0
    }
}

impl<O> FromSpecImpl<Objects<O>> for Vec<O> {
    open spec fn obeys_from_spec() -> bool {
        true
    }

    open spec fn from_spec(value: Objects<O>) -> Self {
        value.0
    }
}

impl From<(FiniteDouble, FiniteDouble)> for Vec2 {
    fn from(value: (FiniteDouble, FiniteDouble)) -> (r: Self) {
        Vec2 { x: value.0, y: value.1 }
    }
}

impl FromSpecImpl<(FiniteDouble, FiniteDouble)> for Vec2 {
    open spec fn obeys_from_spec() -> bool {
        true
    }

    open spec fn from_spec(value: (FiniteDouble, FiniteDouble)) -> Self {
        Vec2 { x: value.0, y: value.1 }
    }
}

impl From<Vec2> for (FiniteDouble, FiniteDouble) {
    fn from(value: Vec2) -> (r: Self) {
        (value.x, value.y)
    }
}

impl FromSpecImpl<Vec2> for (FiniteDouble, FiniteDouble) {
    open spec fn obeys_from_spec() -> bool {
        true
    }

    open spec fn from_spec(value: Vec2) -> Self {
        (value.x, value.y)
    }
}

impl From<Vec<Coordinate>> for Coordinates {
    fn from(value: Vec<Coordinate>) -> (r: Self) {
        Coordinates(value)
    }
}

impl FromSpecImpl<Vec<Coordinate>> for Coordinates {
    open spec fn obeys_from_spec() -> bool {
        true
    }

    open spec fn from_spec(value: Vec<Coordinate>) -> Self {
        Coordinates(value)
    }
}

impl From<Coordinates> for Vec<Coordinate> {
    fn from(value: Coordinates) -> (r: Self) {
        value.0
    }
}

impl FromSpecImpl<Coordinates> for Vec<Coordinate> {
    open spec fn obeys_from_spec() -> bool {
        true
    }

    open spec fn from_spec(value: Coordinates) -> Self {
        value.0
    }
}

impl<'a> From<SpiceProperty<'a>> for Object<'a> {
    fn from(value: SpiceProperty<'a>) -> (r: Self) {
        Object::SpiceProperty(value)
    }
}

impl<'a> FromSpecImpl<SpiceProperty<'a>> for Object<'a> {
    open spec fn obeys_from_spec() -> bool {
        true
    }

    open spec fn from_spec(value: SpiceProperty<'a>) -> Self {
        Object::SpiceProperty(value)
    }
}

impl<'a> From<VerilogProperty<'a>> for Object<'a> {
    fn from(value: VerilogProperty<'a>) -> (r: Self) {
        Object::VerilogProperty(value)
    }
}

impl<'a> FromSpecImpl<VerilogProperty<'a>> for Object<'a> {
    open spec fn obeys_from_spec() -> bool {
        true
    }

    open spec fn from_spec(value: VerilogProperty<'a>) -> Self {
        Object::VerilogProperty(value)
    }
}

impl<'a> From<VhdlProperty<'a>> for Object<'a> {
    fn from(value: VhdlProperty<'a>) -> (r: Self) {
        Object::VhdlProperty(value)
    }
}

impl<'a> FromSpecImpl<VhdlProperty<'a>> for Object<'a> {
    open spec fn obeys_from_spec() -> bool {
        true
    }

    open spec fn from_spec(value: VhdlProperty<'a>) -> Self {
        Object::VhdlProperty(value)
    }
}

impl<'a> From<TedaXProperty<'a>> for Object<'a> {
    fn from(value: TedaXProperty<'a>) -> (r: Self) {
        Object::TedaXProperty(value)
    }
}

impl<'a> FromSpecImpl<TedaXProperty<'a>> for Object<'a> {
    open spec fn obeys_from_spec() -> bool {
        true
    }

    open spec fn from_spec(value: TedaXProperty<'a>) -> Self {
        Object::TedaXProperty(value)
    }
}

impl<'a> From<SymbolProperty<'a>> for Object<'a> {
    fn from(value: SymbolProperty<'a>) -> (r: Self) {
        Object::SymbolProperty(value)
    }
}

impl<'a> FromSpecImpl<SymbolProperty<'a>> for Object<'a> {
    open spec fn obeys_from_spec() -> bool {
        true
    }

    open spec fn from_spec(value: SymbolProperty<'a>) -> Self {
        Object::SymbolProperty(value)
    }
}

impl<'a> From<Arc<'a>> for Object<'a> {
    fn from(value: Arc<'a>) -> (r: Self) {
        Object::Arc(value)
    }
}

impl<'a> FromSpecImpl<Arc<'a>> for Object<'a> {
    open spec fn obeys_from_spec() -> bool {
        true
    }

    open spec fn from_spec(value: Arc<'a>) -> Self {
        Object::Arc(value)
    }
}

impl<'a> From<Component<'a>> for Object<'a> {
    fn from(value: Component<'a>) -> (r: Self) {
        Object::Component(value)
    }
}

impl<'a> FromSpecImpl<Component<'a>> for Object<'a> {
    open spec fn obeys_from_spec() -> bool {
        true
    }

    open spec fn from_spec(value: Component<'a>) -> Self {
        Object::Component(value)
    }
}

impl<'a> From<Line<'a>> for Object<'a> {
    fn from(value: Line<'a>) -> (r: Self) {
        Object::Line(value)
    }
}

impl<'a> FromSpecImpl<Line<'a>> for Object<'a> {
    open spec fn obeys_from_spec() -> bool {
        true
    }

    open spec fn from_spec(value: Line<'a>) -> Self {
        Object::Line(value)
    }
}

impl<'a> From<Polygon<'a>> for Object<'a> {
    fn from(value: Polygon<'a>) -> (r: Self) {
        Object::Polygon(value)
    }
}

impl<'a> FromSpecImpl<Polygon<'a>> for Object<'a> {
    open spec fn obeys_from_spec() -> bool {
        true
    }

    open spec fn from_spec(value: Polygon<'a>) -> Self {
        Object::Polygon(value)
    }
}

impl<'a> From<Rectangle<'a>> for Object<'a> {
    fn from(value: Rectangle<'a>) -> (r: Self) {
        Object::Rectangle(value)
    }
}

impl<'a> FromSpecImpl<Rectangle<'a>> for Object<'a> {
    open spec fn obeys_from_spec() -> bool {
        true
    }

    open spec fn from_spec(value: Rectangle<'a>) -> Self {
        Object::Rectangle(value)
    }
}

impl<'a> From<Text<'a>> for Object<'a> {
    fn from(value: Text<'a>) -> (r: Self) {
        Object::Text(value)
    }
}

impl<'a> FromSpecImpl<Text<'a>> for Object<'a> {
    open spec fn obeys_from_spec() -> bool {
        true
    }

    open spec fn from_spec(value: Text<'a>) -> Self {
        Object::Text(value)
    }
}

impl<'a> From<Wire<'a>> for Object<'a> {
    fn from(value: Wire<'a>) -> (r: Self) {
        Object::Wire(value)
    }
}

impl<'a> FromSpecImpl<Wire<'a>> for Object<'a> {
    open spec fn obeys_from_spec() -> bool {
        true
    }

    open spec fn from_spec(value: Wire<'a>) -> Self {
        Object::Wire(value)
    }
}

} // verus!
