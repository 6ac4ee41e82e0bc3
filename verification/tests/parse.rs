use xschem_parser::error::{Error, ErrorKind, Primitive, Rejection};
use xschem_parser::grammar::ByteClass;
use xschem_parser::parse::{
    arc_object, attributes, component_instance, key_value, line_object, polygon_object, property,
    rectangle_object, take_while1, text_object, try_skip, version_object, wire_object, IResult,
};
use xschem_parser::span::Span;
use xschem_parser::token::{Attributes, FiniteDouble, Flip, Property, Rotation, Vec2};

fn span(text: &str) -> Span<'_> {
    Span::new(text.as_bytes())
}

fn double(value: f64) -> FiniteDouble {
    FiniteDouble::try_from(value.to_bits()).unwrap()
}

fn pair(x: f64, y: f64) -> Vec2 {
    Vec2 { x: double(x), y: double(y) }
}

fn text<'a>(s: Span<'a>) -> &'a str {
    std::str::from_utf8(s.fragment()).unwrap()
}

/// The attributes as pairs of key and value, sorted by key.
fn pairs<'a>(attrs: &Attributes<'a>) -> Vec<(&'a str, &'a str)> {
    let mut all = Vec::new();
    for i in 0..attrs.len() {
        let (k, v) = attrs.pair(i);
        all.push((text(k), text(v)));
    }
    all.sort();
    all
}

fn sorted<'a>(mut all: Vec<(&'a str, &'a str)>) -> Vec<(&'a str, &'a str)> {
    all.sort();
    all
}

fn assert_property(p: &Property, prop: &str, attrs: Vec<(&str, &str)>) {
    assert_eq!(text(p.prop), prop);
    assert_eq!(pairs(&p.attrs), sorted(attrs));
}

fn digit1<'a>(input: Span<'a>) -> IResult<'a, Span<'a>> {
    take_while1(input, ByteClass::Digit, Primitive::Digit)
}

fn alpha1<'a>(input: Span<'a>) -> IResult<'a, Span<'a>> {
    let n = input.fragment().iter().take_while(|b| b.is_ascii_alphabetic()).count();
    if n > 0 {
        Ok((input.take_from(n), input.take(n)))
    } else {
        Err(Rejection::Error(Error::from_error_kind(input, Primitive::TakeWhile1)))
    }
}

fn digits_then_letters<'a>(input: Span<'a>) -> IResult<'a, Span<'a>> {
    let (rest, _) = digit1(input)?;
    alpha1(rest)
}

/// What is left and what was found, as text.
fn skipped<'a>(r: IResult<'a, Option<Span<'a>>>) -> (&'a str, Option<&'a str>) {
    let (rest, value) = r.unwrap();
    (text(rest), value.map(text))
}

#[test]
fn parse_try_skip() {
    assert_eq!(skipped(try_skip(digit1(span("abc123")))), ("abc123", None));
    assert_eq!(skipped(try_skip(digit1(span("123abc")))), ("abc", Some("123")));
    assert_eq!(skipped(try_skip(digits_then_letters(span("123abc")))), ("", Some("abc")));
    assert_eq!(skipped(try_skip(digits_then_letters(span("123   ")))), ("   ", None));
    let (rest, value) = try_skip(key_value(span("abc="))).unwrap();
    assert_eq!(text(rest), "");
    assert!(value.is_none());
    let (rest, value) = try_skip(key_value(span("test key=val"))).unwrap();
    assert_eq!(text(rest), " key=val");
    assert!(value.is_none());
}

/// What is left, the key and the value, as text.
fn parsed_pair(input: &str) -> (&str, (&str, &str)) {
    let (rest, (k, v)) = key_value(span(input)).unwrap();
    (text(rest), (text(k), text(v)))
}

#[test]
fn parse_key_value() {
    assert_eq!(parsed_pair("a1A_9Z=!#$zcv_`~^)"), ("", ("a1A_9Z", "!#$zcv_`~^)")));
    assert_eq!(parsed_pair(r#"key="""#), ("", ("key", "")));
    match key_value(span("=val")) {
        Err(Rejection::Error(e)) => {
            assert_eq!(text(e.err.input), "=val");
            assert_eq!(e.err.kind, ErrorKind::Nom(Primitive::TakeWhile1));
        }
        other => panic!("unexpected result: {other:?}"),
    }
    assert_eq!(parsed_pair(r"key=\{val\}"), ("", ("key", r"\{val\}")));
    assert_eq!(parsed_pair(r#"key="\{val\}""#), ("", ("key", r"\{val\}")));
    assert_eq!(parsed_pair(r#"key="\\"val\\"""#), ("", ("key", r#"\\"val\\""#)));
    assert_eq!(parsed_pair(r#"key="\\val""#), ("", ("key", r"\\val")));
}

#[test]
fn parse_attributes() {
    let (rest, attrs) = attributes(span("key=val")).unwrap();
    assert_eq!(text(rest), "");
    assert_eq!(pairs(&attrs), vec![("key", "val")]);

    let (rest, attrs) = attributes(span("key=val k=v")).unwrap();
    assert_eq!(text(rest), "");
    assert_eq!(pairs(&attrs), sorted(vec![("key", "val"), ("k", "v")]));

    let (rest, attrs) = attributes(span("nokey k=v test")).unwrap();
    assert_eq!(text(rest), "");
    assert_eq!(pairs(&attrs), vec![("k", "v")]);
}

#[test]
fn parse_property() {
    let (rest, p) = property(span("{}")).unwrap();
    assert_eq!(text(rest), "");
    assert_property(&p, "", vec![]);

    let (rest, p) = property(span("{a b c}")).unwrap();
    assert_eq!(text(rest), "");
    assert_property(&p, "a b c", vec![]);

    let (rest, p) = property(span(r"{\\\}}")).unwrap();
    assert_eq!(text(rest), "");
    assert_property(&p, r"\\\}", vec![]);

    let (rest, p) = property(span("{\t\n \\{\\}}")).unwrap();
    assert_eq!(text(rest), "");
    assert_property(&p, "\t\n \\{\\}", vec![]);
}

#[test]
fn parse_version_object() {
    let (rest, v) = version_object(span("v {xschem version=3.4.0 file_version=1.0}")).unwrap();
    assert_eq!(text(rest), "");
    assert_property(
        &v.0,
        "xschem version=3.4.0 file_version=1.0",
        vec![("version", "3.4.0"), ("file_version", "1.0")],
    );

    let (rest, v) =
        version_object(span("v {xschem version=3.4.5 file_version=1.2\n* copyright info}"))
            .unwrap();
    assert_eq!(text(rest), "");
    assert_property(
        &v.0,
        "xschem version=3.4.5 file_version=1.2\n* copyright info",
        vec![("version", "3.4.5"), ("file_version", "1.2")],
    );
}

#[test]
fn parse_text_object() {
    let (rest, t) = text_object(span(
        "T {3 of 4 NANDS of a 74ls00} 500 -580 0 0 0.4 0.4 {font=Monospace layer=4}",
    ))
    .unwrap();
    assert_eq!(text(rest), "");
    assert_eq!(text(t.text), "3 of 4 NANDS of a 74ls00");
    assert_eq!(t.position, pair(500.0, -580.0));
    assert_eq!(t.rotation, Rotation::Zero);
    assert_eq!(t.flip, Flip::from(false));
    assert_eq!(t.size, pair(0.4, 0.4));
    assert_property(
        &t.property,
        "font=Monospace layer=4",
        vec![("font", "Monospace"), ("layer", "4")],
    );

    let (rest, t) = text_object(span("T {1\n2\n\n3} 1.1 4.04 3 1 1.0 2.0 {}")).unwrap();
    assert_eq!(text(rest), "");
    assert_eq!(text(t.text), "1\n2\n\n3");
    assert_eq!(t.position, pair(1.1, 4.04));
    assert_eq!(t.rotation, Rotation::Three);
    assert_eq!(t.flip, Flip::from(true));
    assert_eq!(t.size, pair(1.0, 2.0));
    assert_property(&t.property, "", vec![]);
}

#[test]
fn parse_wire_object() {
    let (rest, w) = wire_object(span("N 890 -130 890 -110 {lab=ANALOG_GND}")).unwrap();
    assert_eq!(text(rest), "");
    assert_eq!(w.start, pair(890.0, -130.0));
    assert_eq!(w.end, pair(890.0, -110.0));
    assert_property(&w.property, "lab=ANALOG_GND", vec![("lab", "ANALOG_GND")]);
}

#[test]
fn parse_line_object() {
    let (rest, l) = line_object(span("L 4 10 0 20 0 {}")).unwrap();
    assert_eq!(text(rest), "");
    assert_eq!(l.layer, 4);
    assert_eq!(l.start, pair(10.0, 0.0));
    assert_eq!(l.end, pair(20.0, 0.0));
    assert_property(&l.property, "", vec![]);
}

#[test]
fn parse_rectangle_object() {
    let (rest, r) =
        rectangle_object(span("B 5 -62.5 -2.5 -57.5 2.5 {name=IN dir=in pinnumber=1}")).unwrap();
    assert_eq!(text(rest), "");
    assert_eq!(r.layer, 5);
    assert_eq!(r.start, pair(-62.5, -2.5));
    assert_eq!(r.end, pair(-57.5, 2.5));
    assert_property(
        &r.property,
        "name=IN dir=in pinnumber=1",
        vec![("name", "IN"), ("dir", "in"), ("pinnumber", "1")],
    );
}

#[test]
fn parse_polygon_object() {
    let (rest, p) =
        polygon_object(span("P 3 5 2450 -210 2460 -170 2500 -170 2510 -210 2450 -210 {}"))
            .unwrap();
    assert_eq!(text(rest), "");
    assert_eq!(p.layer, 3);
    assert_eq!(
        p.points.0,
        vec![
            pair(2450.0, -210.0),
            pair(2460.0, -170.0),
            pair(2500.0, -170.0),
            pair(2510.0, -210.0),
            pair(2450.0, -210.0),
        ]
    );
    assert_property(&p.property, "", vec![]);

    match polygon_object(span("P 3 2 0 0 {}")) {
        Err(Rejection::Failure(e)) => {
            assert_eq!(text(e.err.input), "{}");
            assert!(matches!(e.err.kind, ErrorKind::Char(_)));
        }
        other => panic!("unexpected result: {other:?}"),
    }
    match polygon_object(span("P 3 2 0 0 1 {}")) {
        Err(Rejection::Failure(e)) => {
            assert_eq!(text(e.err.input), "{}");
            assert!(matches!(e.err.kind, ErrorKind::Char(_)));
        }
        other => panic!("unexpected result: {other:?}"),
    }
}

#[test]
fn parse_arc_object() {
    let (rest, a) = arc_object(span("A 3 450 -210 120 45 225 {}")).unwrap();
    assert_eq!(text(rest), "");
    assert_eq!(a.layer, 3);
    assert_eq!(a.center, pair(450.0, -210.0));
    assert_eq!(a.radius, double(120.0));
    assert_eq!(a.start_angle, double(45.0));
    assert_eq!(a.sweep_angle, double(225.0));
    assert_property(&a.property, "", vec![]);
}

#[test]
fn parse_component_instance() {
    let (rest, c) = component_instance(span("C {capa.sym} 890 -160 0 0 {name=C4}")).unwrap();
    assert_eq!(text(rest), "");
    assert_eq!(text(c.reference), "capa.sym");
    assert_eq!(c.position, pair(890.0, -160.0));
    assert_eq!(c.rotation, Rotation::Zero);
    assert_eq!(c.flip, Flip::from(false));
    assert_property(&c.property, "name=C4", vec![("name", "C4")]);
    assert!(c.embedding.is_none());
}
