use xschem_parser::render::Render;
use xschem_parser::span::Span;
use xschem_parser::token::{
    Arc, Attributes, Component, Coordinates, Embedding, FiniteDouble, Flip, Line, Object, Objects,
    Polygon, Property, Rectangle, Rotation, Schematic, SpiceProperty, SymbolProperty,
    TedaXProperty, Text, Vec2, VerilogProperty, Version, VhdlProperty, Wire,
};

fn whole(text: &str) -> Span<'_> {
    Span::new(text.as_bytes())
}

fn number(value: f64) -> FiniteDouble {
    FiniteDouble::try_from(value.to_bits()).unwrap()
}

fn point(x: f64, y: f64) -> Vec2 {
    Vec2 { x: number(x), y: number(y) }
}

fn with_attrs<'a>(prop: &'a str, attrs: &[(&'a str, &'a str)]) -> Property<'a> {
    let mut all = Attributes::new();
    for (k, v) in attrs {
        all = all.insert(whole(k), whole(v));
    }
    Property { prop: whole(prop), attrs: all }
}

#[test]
fn version_to_string() {
    let version = Version(with_attrs(
        "xschem version=1.2.3 file_version=1.0 key=value",
        &[("version", "1.2.3"), ("file_version", "1.0")],
    ));

    let expected = "v {xschem version=1.2.3 file_version=1.0 key=value}";

    assert_eq!(version.to_string(), expected);
}

#[test]
fn schematic_to_string() {
    let schematic = Schematic {
        version: Version(with_attrs(
            "xschem version=3.4.5 file_version=1.2",
            &[("version", "3.4.5"), ("file_version", "1.2")],
        )),
        spice_property: Some(Property::default().into()),
        verilog_property: None,
        vhdl_property: None,
        tedax_property: None,
        symbol_property: Some(with_attrs("type=regulator", &[("type", "regulator")]).into()),
        texts: vec![Text {
            text: whole("@name"),
            position: point(-17.5, -15.0),
            rotation: Rotation::Zero,
            flip: Flip::Unflipped,
            size: point(0.2, 0.2),
            property: Property::default(),
        }]
        .into(),
        lines: Objects::default(),
        rectangles: Objects::default(),
        polygons: vec![Polygon {
            layer: 3,
            points: vec![point(0.0, 0.0), point(1.0, 1.0), point(0.0, 1.0), point(0.0, 0.0)].into(),
            property: Property::default(),
        }]
        .into(),
        arcs: Objects::default(),
        wires: vec![
            Wire {
                start: point(1.0, 1.0),
                end: point(2.0, 2.0),
                property: with_attrs("lab=o", &[("lab", "o")]),
            },
            Wire {
                start: point(2.0, 2.0),
                end: point(3.0, 3.0),
                property: with_attrs("lab=p", &[("lab", "p")]),
            },
        ]
        .into(),
        components: vec![
            Component {
                reference: whole("pin.sym"),
                position: point(3.0, 3.0),
                rotation: Rotation::Zero,
                flip: Flip::Flipped,
                property: with_attrs("name=pin\n", &[("name", "pin")]),
                embedding: None,
            },
            Component {
                reference: whole("pmos.sym"),
                position: point(1.0, 1.0),
                rotation: Rotation::Two,
                flip: Flip::Unflipped,
                property: with_attrs("name=p", &[("name", "p")]),
                embedding: Some(
                    Schematic::new(Version(with_attrs(
                        "xschem version=3.4.5 file_version=1.2",
                        &[("version", "3.4.5"), ("file_version", "1.2")],
                    )))
                    .into(),
                ),
            },
        ]
        .into(),
    };

    // The properties of the schematic come in the order VHDL, symbol,
    // Verilog, Spice, tEDAx: the symbol property stands before the Spice
    // property.
    let expected = "\
        v {xschem version=3.4.5 file_version=1.2}\n\
        K {type=regulator}\n\
        S {}\n\
        T {@name} -17.5 -15 0 0 0.2 0.2 {}\n\
        P 3 4 0 0 1 1 0 1 0 0 {}\n\
        N 1 1 2 2 {lab=o}\n\
        N 2 2 3 3 {lab=p}\n\
        C {pin.sym} 3 3 0 1 {name=pin\n\
        }\n\
        C {pmos.sym} 1 1 2 0 {name=p}\n\
        [\n\
        v {xschem version=3.4.5 file_version=1.2}\n\
        ]\
    ";

    assert_eq!(schematic.to_string(), expected);
}

#[test]
fn equal_texts_are_equal_wherever_they_lie() {
    let buffer = "abc abc abd";
    let all = whole(buffer);
    assert!(all.take(3) == all.take_from(4).take(3));
    assert!(all.take(3) != all.take_from(8).take(3));
    assert!(all.take(3) != all.take(2));
    assert!(Span::default() == all.take(0));
    assert_eq!(Span::default().input_len(), 0);
}

#[test]
fn attributes_are_equal_whatever_their_order() {
    let a = with_attrs("", &[("k", "v"), ("l", "w")]);
    let b = with_attrs("", &[("l", "w"), ("k", "v")]);
    let c = with_attrs("", &[("l", "w"), ("k", "x")]);
    let d = with_attrs("", &[("l", "w")]);
    let e = with_attrs("", &[("l", "w"), ("m", "v")]);
    assert!(a.attrs == b.attrs);
    assert!(a == b);
    assert!(a.attrs != c.attrs);
    assert!(a.attrs != d.attrs);
    assert!(d.attrs != a.attrs);
    assert!(a.attrs != e.attrs);
    assert!(a != with_attrs("x", &[("k", "v"), ("l", "w")]));
    assert!(Attributes::default() == Attributes::new());
    assert!(a.attrs.clone() == a.attrs);
    assert_eq!(a.attrs.clone().len(), 2);
}

#[test]
fn schematics_are_compared_by_what_they_say() {
    let text = "v {a=1}\nG {g}\nT {t} 1 2 0 1 3 4 {}\nL 1 0 0 1 1 {}\nB 2 0 0 1 1 {}\nP 3 1 5 5 {}\nA 4 0 0 1 2 3 {}\nN 0 -0 1 1 {}\nC {c} 0 0 1 0 {}\n[\nv {}\nN 0 0 1 1 {}\n]";
    let spread = text.replace(' ', "  ").replace('\n', "\n\n");
    let first = xschem_parser::from_str(text).unwrap();
    let second = xschem_parser::from_str(&spread).unwrap();
    assert!(first == second);
    assert!(second == first);
    for (from, to) in [
        ("a=1", "a=2"),
        ("G {g}", "G {h}"),
        ("G {g}\n", ""),
        ("T {t}", "T {u}"),
        ("L 1 0", "L 2 0"),
        ("B 2 0 0 1 1", "B 2 0 0 1 2"),
        ("P 3 1 5 5", "P 3 2 5 5 6 6"),
        ("A 4 0 0 1 2 3", "A 4 0 0 1 2 4"),
        ("N 0 -0 1 1 {}\nC", "N 0 -0 1 1 {x}\nC"),
        ("C {c} 0 0 1 0", "C {c} 0 0 1 1"),
        ("C {c} 0 0 1 0", "C {c} 0 0 2 0"),
        ("[\nv {}\nN 0 0 1 1 {}\n]", "[\nv {}\nN 0 0 1 2 {}\n]"),
        ("\n[\nv {}\nN 0 0 1 1 {}\n]", ""),
        ("\nC {c}", "\nC {c} 0 0 0 0 {}\nC {c}"),
    ] {
        assert!(text.contains(from));
        let changed = text.replacen(from, to, 1);
        let other = xschem_parser::from_str(&changed).unwrap();
        assert!(first != other, "{from:?} -> {to:?}");
        assert!(other != first, "{from:?} -> {to:?}");
    }
    // Zero is zero, whatever its sign.
    let other_zero = text.replace("N 0 -0 1 1", "N -0 0 1 1");
    let signed = xschem_parser::from_str(&other_zero).unwrap();
    assert!(first == signed);
    assert!(first.components.0[0] == second.components.0[0]);
    assert!(first.components.0[0].embedding == second.components.0[0].embedding);
    assert!(first.texts == second.texts);
    assert!(first.polygons.0[0].points == second.polygons.0[0].points);
}

#[test]
fn defaults_are_empty() {
    let s = Schematic::default();
    assert_eq!(s.to_string(), "v {}");
    assert!(s == Schematic::new(Version::default()));
    assert!(s.texts.0.is_empty() && s.components.0.is_empty());
    assert!(s.spice_property.is_none());
    assert_eq!(Property::default().to_string(), "{}");
    assert_eq!(SpiceProperty::default().to_string(), "S {}");
    assert_eq!(SymbolProperty::default().to_string(), "K {}");
    assert_eq!(xschem_parser::token::VhdlProperty::default().to_string(), "G {}");
    assert_eq!(xschem_parser::token::VerilogProperty::default().to_string(), "V {}");
    assert_eq!(xschem_parser::token::TedaXProperty::default().to_string(), "E {}");
    assert_eq!(Text::default().to_string(), "T {} 0 0 0 0 0 0 {}");
    assert_eq!(Wire::default().to_string(), "N 0 0 0 0 {}");
    assert_eq!(Polygon::default().to_string(), "P 0 0  {}");
    assert_eq!(xschem_parser::token::Arc::default().to_string(), "A 0 0 0 0 0 0 {}");
    assert_eq!(xschem_parser::token::Line::default().to_string(), "L 0 0 0 0 0 {}");
    assert_eq!(xschem_parser::token::Rectangle::default().to_string(), "B 0 0 0 0 0 {}");
    assert_eq!(Component::default().to_string(), "C {} 0 0 0 0 {}");
    assert_eq!(Embedding::default().to_string(), "[\nv {}\n]");
    assert_eq!(Coordinates::default().0.len(), 0);
    assert_eq!(Objects::<Wire>::default().0.len(), 0);
    assert_eq!(FiniteDouble::default().to_bits(), 0);
    assert_eq!(Vec2::default().to_string(), "0 0");
    assert_eq!(Rotation::default(), Rotation::Zero);
    assert_eq!(Flip::default(), Flip::Unflipped);
    assert_eq!(Rotation::Three.to_string(), "3");
    assert_eq!(Flip::Flipped.to_string(), "1");
    assert_eq!(Vec2::from((number(1.5), number(-2.0))).to_string(), "1.5 -2");
    // A default polygon has no point, so what it is written as is not
    // read as a polygon.
    let p = Polygon::default().to_string();
    assert!(xschem_parser::parse::polygon_object(whole(&p)).is_err());
}

#[test]
fn numbers_are_ordered_as_numbers() {
    let values = [
        f64::MIN,
        -1e300,
        -2.5,
        -1.0,
        -f64::MIN_POSITIVE,
        -5e-324,
        -0.0,
        0.0,
        5e-324,
        f64::MIN_POSITIVE,
        0.1,
        1.0,
        2.5,
        1e300,
        f64::MAX,
    ];
    for a in values {
        for b in values {
            assert_eq!(number(a).partial_cmp(&number(b)), a.partial_cmp(&b), "{a} {b}");
            assert_eq!(number(a) == number(b), a == b, "{a} {b}");
            assert_eq!(number(a) < number(b), a < b, "{a} {b}");
            for c in [-1.0, 0.0, 3.0] {
                for d in [-0.0, 2.0] {
                    assert_eq!(
                        point(a, c).partial_cmp(&point(b, d)),
                        (a, c).partial_cmp(&(b, d)),
                        "{a} {c} {b} {d}"
                    );
                    assert_eq!(point(a, c) == point(b, d), (a, c) == (b, d));
                }
            }
        }
    }
    assert!(Rotation::Zero < Rotation::One && Rotation::Two < Rotation::Three);
    assert!(Flip::Unflipped < Flip::Flipped);
}

#[test]
fn values_are_made_of_what_they_hold_and_give_it_back() {
    let p = with_attrs("k=v", &[("k", "v")]);
    assert!(VhdlProperty::from(p.clone()).0 == p);
    assert!(SymbolProperty::from(p.clone()).0 == p);
    assert!(VerilogProperty::from(p.clone()).0 == p);
    assert!(SpiceProperty::from(p.clone()).0 == p);
    assert!(TedaXProperty::from(p.clone()).0 == p);

    let s = Schematic::new(Version(p.clone()));
    let e = Embedding::from(Schematic::new(Version(p.clone())));
    assert!(e.0 == s);
    assert!(Schematic::from(e) == s);

    let points = vec![point(1.0, 2.0), point(3.0, 4.0)];
    let c = Coordinates::from(points.clone());
    assert_eq!(c.0, points);
    assert_eq!(Vec::<Vec2>::from(c), points);
    let o: Objects<Vec2> = points.clone().into();
    assert_eq!(o.0, points);
    assert_eq!(Vec::<Vec2>::from(o), points);

    let v = Vec2::from((number(1.0), number(-2.0)));
    assert_eq!(v, point(1.0, -2.0));
    let (x, y): (FiniteDouble, FiniteDouble) = v.into();
    assert_eq!((x, y), (number(1.0), number(-2.0)));
}

#[test]
fn every_kind_of_object_is_an_object() {
    let p = with_attrs("", &[]);
    let line = Line { layer: 1, start: point(0.0, 0.0), end: point(1.0, 1.0), property: p.clone() };
    let rectangle =
        Rectangle { layer: 2, start: point(0.0, 0.0), end: point(1.0, 1.0), property: p.clone() };
    let wire = Wire { start: point(0.0, 0.0), end: point(1.0, 1.0), property: p.clone() };
    let arc = Arc {
        layer: 3,
        center: point(0.0, 0.0),
        radius: number(1.0),
        start_angle: number(0.0),
        sweep_angle: number(90.0),
        property: p.clone(),
    };
    let polygon =
        Polygon { layer: 4, points: vec![point(0.0, 0.0)].into(), property: p.clone() };
    let text = Text {
        text: whole("t"),
        position: point(0.0, 0.0),
        rotation: Rotation::One,
        flip: Flip::Flipped,
        size: point(1.0, 1.0),
        property: p.clone(),
    };
    let component = Component {
        reference: whole("r"),
        position: point(0.0, 0.0),
        rotation: Rotation::Three,
        flip: Flip::Unflipped,
        property: p.clone(),
        embedding: None,
    };
    let s = Schematic::new(Version(p.clone()))
        .add_object(VhdlProperty(p.clone()).into())
        .add_object(SymbolProperty(p.clone()).into())
        .add_object(VerilogProperty(p.clone()).into())
        .add_object(SpiceProperty(p.clone()).into())
        .add_object(TedaXProperty(p.clone()).into())
        .add_object(text.into())
        .add_object(line.into())
        .add_object(rectangle.into())
        .add_object(polygon.into())
        .add_object(arc.into())
        .add_object(wire.into())
        .add_object(component.into());
    assert_eq!(
        s.to_string(),
        "v {}\nG {}\nK {}\nV {}\nS {}\nE {}\nT {t} 0 0 1 1 1 1 {}\nL 1 0 0 1 1 {}\n\
         B 2 0 0 1 1 {}\nP 4 1 0 0 {}\nA 3 0 0 1 0 90 {}\nN 0 0 1 1 {}\nC {r} 0 0 3 0 {}"
    );
    assert!(matches!(Object::from(Wire::default()), Object::Wire(_)));
}

#[test]
fn numbers_that_are_not_finite_are_refused() {
    assert_eq!(FiniteDouble::try_from(f64::NAN.to_bits()), Err("value is not finite"));
    assert_eq!(FiniteDouble::try_from(f64::INFINITY.to_bits()), Err("value is not finite"));
    assert_eq!(FiniteDouble::try_from(f64::NEG_INFINITY.to_bits()), Err("value is not finite"));
    assert_eq!(FiniteDouble::try_from(f64::MAX.to_bits()).unwrap().to_bits(), f64::MAX.to_bits());
    assert_eq!(FiniteDouble::try_from(f64::MIN.to_bits()).unwrap().to_bits(), f64::MIN.to_bits());
    assert!(FiniteDouble::try_from((-0.0f64).to_bits()).unwrap().is_finite());
    assert_eq!(
        Vec2::try_from((1.0f64.to_bits(), f64::NAN.to_bits())),
        Err("value is not finite")
    );
    assert_eq!(
        Vec2::try_from((f64::INFINITY.to_bits(), 1.0f64.to_bits())),
        Err("value is not finite")
    );
    assert_eq!(Vec2::try_from((1.0f64.to_bits(), 2.0f64.to_bits())), Ok(point(1.0, 2.0)));
    let bits = |values: &[(f64, f64)]| -> Vec<(u64, u64)> {
        values.iter().map(|(x, y)| (x.to_bits(), y.to_bits())).collect()
    };
    assert_eq!(
        Coordinates::try_from(&bits(&[(0.0, 1.0), (2.5, -3.0)])).unwrap().0,
        vec![point(0.0, 1.0), point(2.5, -3.0)]
    );
    assert!(Coordinates::try_from(&Vec::new()).unwrap().0.is_empty());
    assert_eq!(
        Coordinates::try_from(&bits(&[(0.0, 1.0), (2.5, f64::NAN)])).unwrap_err(),
        "value is not finite"
    );
}

#[test]
fn objects_are_written_one_on_each_line() {
    let p = with_attrs("", &[]);
    let wires: Objects<Wire> = vec![
        Wire { start: point(0.0, 0.0), end: point(1.0, 1.0), property: p.clone() },
        Wire { start: point(1.0, 1.0), end: point(2.0, 2.5), property: p.clone() },
    ]
    .into();
    assert_eq!(wires.to_string(), "N 0 0 1 1 {}\nN 1 1 2 2.5 {}");
    assert_eq!(Objects::<Wire>::default().to_string(), "");
    let one: Objects<Vec2> = vec![point(1.0, 2.0)].into();
    assert_eq!(one.to_string(), "1 2");
    let points: Coordinates = vec![point(1.0, 2.0), point(-3.5, 4.0)].into();
    assert_eq!(points.to_string(), "1 2 -3.5 4");
    assert_eq!(Coordinates::default().to_string(), "");
}
