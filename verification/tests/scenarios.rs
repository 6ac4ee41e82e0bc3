use xschem_parser::error::{Error, ErrorKind, Primitive, Rejection};
use xschem_parser::fidelity::PrintsBack;
use xschem_parser::grammar::MAX_DEPTH;
use xschem_parser::parse::{
    any_object, any_object_within, arc_object, attributes, component_within, embedding,
    embedding_within, finite_double, key_value, layer, objects_from, polygon_object, property,
    schematic, schematic_full, schematic_within, text_object, value, version_object,
};
use xschem_parser::render::Render;
use xschem_parser::span::Span;
use xschem_parser::token::{Attributes, FiniteDouble, Flip, Object, Rotation, Schematic, Vec2};
use xschem_parser::{from_slice, from_slice_file, from_str, from_str_file};

fn span(text: &str) -> Span<'_> {
    Span::new(text.as_bytes())
}

fn text<'a>(s: Span<'a>) -> &'a str {
    std::str::from_utf8(s.fragment()).unwrap()
}

fn double(value: f64) -> FiniteDouble {
    FiniteDouble::try_from(value.to_bits()).unwrap()
}

fn pair(x: f64, y: f64) -> Vec2 {
    Vec2 { x: double(x), y: double(y) }
}

fn pairs<'a>(attrs: &Attributes<'a>) -> Vec<(&'a str, &'a str)> {
    let mut all = Vec::new();
    for i in 0..attrs.len() {
        let (k, v) = attrs.pair(i);
        all.push((text(k), text(v)));
    }
    all.sort();
    all
}

const REGULATOR: &str = "\
v {xschem version=3.4.5 file_version=1.2}
K {type=regulator}
T {@name} -17.5 -15 0 0 0.2 0.2 {}
";

#[test]
fn regulator_symbol_is_parsed() {
    let s = from_str(REGULATOR).unwrap();
    assert_eq!(text(s.version.0.prop), "xschem version=3.4.5 file_version=1.2");
    assert_eq!(s.version.0.prop.location_offset(), 3);
    assert_eq!(pairs(&s.version.0.attrs), vec![("file_version", "1.2"), ("version", "3.4.5")]);
    let version = s.version.0.attrs.get(b"version").unwrap();
    assert_eq!((version.location_offset(), version.input_len()), (18, 5));
    let symbol = s.symbol_property.as_ref().unwrap();
    assert_eq!(text(symbol.0.prop), "type=regulator");
    assert_eq!(symbol.0.prop.location_offset(), 45);
    assert_eq!(pairs(&symbol.0.attrs), vec![("type", "regulator")]);
    assert!(s.vhdl_property.is_none());
    assert!(s.verilog_property.is_none());
    assert!(s.spice_property.is_none());
    assert!(s.tedax_property.is_none());
    assert_eq!(s.texts.0.len(), 1);
    let t = &s.texts.0[0];
    assert_eq!(text(t.text), "@name");
    assert_eq!(t.text.location_offset(), 64);
    assert_eq!(t.position, pair(-17.5, -15.0));
    assert_eq!(t.rotation, Rotation::Zero);
    assert_eq!(t.flip, Flip::Unflipped);
    assert_eq!(t.size, pair(0.2, 0.2));
    assert_eq!(text(t.property.prop), "");
    assert_eq!(t.property.prop.location_offset(), 94);
    assert!(t.property.attrs.is_empty());
    assert!(s.lines.0.is_empty());
    assert!(s.rectangles.0.is_empty());
    assert!(s.polygons.0.is_empty());
    assert!(s.arcs.0.is_empty());
    assert!(s.wires.0.is_empty());
    assert!(s.components.0.is_empty());
}

#[test]
fn wrong_bracket_after_version_is_reported() {
    let e = from_str("v []").unwrap_err();
    assert_eq!(e.err.kind, ErrorKind::Char('{'));
    assert_eq!(e.err.input.location_line(), 1);
    assert_eq!(e.err.input.get_utf8_column(), 3);
    assert_eq!(e.context.len(), 1);
    assert_eq!(e.context[0].name, "version");
    assert_eq!(e.context[0].input.location_line(), 1);
    assert_eq!(e.context[0].input.get_utf8_column(), 1);
    let expected = "\
error: expected '{'
  --> 1:3
   |
 1 | v []
   |   ^
   |
in version
  --> 1:1
   |
 1 | v []
   | ^
   |";
    assert_eq!(e.to_string(), expected);
}

#[test]
fn diagnostic_names_the_file() {
    let e = from_str_file("v []", "dir/test.sch").unwrap_err();
    let expected = "\
error: expected '{'
  --> dir/test.sch:1:3
   |
 1 | v []
   |   ^
   |
in version
  --> dir/test.sch:1:1
   |
 1 | v []
   | ^
   |";
    assert_eq!(e.to_string(), expected);
    assert_eq!(e.path, Some("dir/test.sch"));
    let e = from_slice_file(b"v []", "dir/test.sch").unwrap_err();
    assert_eq!(e.to_string(), expected);
}

#[test]
fn diagnostic_counts_lines_and_characters() {
    let mut input = String::from("v {}\n");
    for _ in 0..8 {
        input.push_str("N 0 0 1 1 {}\n");
    }
    input.push_str("T {\u{30e1}\u{30ab}} 1 2 0 x 1 1 {}\nN 0 0 1 1 {}\n");
    let e = from_str(&input).unwrap_err();
    assert_eq!(e.err.kind, ErrorKind::Char('1'));
    assert_eq!(e.err.input.location_line(), 10);
    // Two characters of three bytes each stand before the failure: the
    // column counts them once each, the offset three times.
    assert_eq!(e.err.input.get_utf8_column(), 14);
    assert_eq!(e.err.input.location_offset(), 5 + 8 * 13 + 17);
    let expected = "\
error: expected '1'
   --> 10:14
    |
 10 | T {\u{30e1}\u{30ab}} 1 2 0 x 1 1 {}
    |              ^
    |
in flip
   --> 10:14
    |
 10 | T {\u{30e1}\u{30ab}} 1 2 0 x 1 1 {}
    |              ^
    |
in text
   --> 10:1
    |
 10 | T {\u{30e1}\u{30ab}} 1 2 0 x 1 1 {}
    | ^
    |";
    assert_eq!(e.to_string(), expected);
}

#[test]
fn line_that_is_not_utf8_is_not_shown() {
    let e = from_slice(b"v {}\nN 0 0 1 \xff {}").unwrap_err();
    assert_eq!(e.err.input.location_line(), 2);
    let shown = e.to_string();
    assert!(shown.contains(" 2 | <invalid UTF-8>\n"), "{shown}");
}

#[test]
fn polygon_with_five_points() {
    let (rest, p) =
        polygon_object(span("P 3 5 2450 -210 2460 -170 2500 -170 2510 -210 2450 -210 {}"))
            .unwrap();
    assert_eq!(text(rest), "");
    assert_eq!(p.layer, 3);
    assert_eq!(p.points.0.len(), 5);
    assert_eq!(p.points.0[0], pair(2450.0, -210.0));
    assert_eq!(p.points.0[1], pair(2460.0, -170.0));
    assert_eq!(p.points.0[2], pair(2500.0, -170.0));
    assert_eq!(p.points.0[3], pair(2510.0, -210.0));
    assert_eq!(p.points.0[4], pair(2450.0, -210.0));
    assert_eq!(text(p.property.prop), "");
}

#[test]
fn polygon_has_as_many_points_as_declared() {
    for n in 1..6usize {
        let mut input = format!("P 1 {n}");
        for i in 0..n {
            input.push_str(&format!(" {i} -{i}.5"));
        }
        input.push_str(" {}");
        let (_, p) = polygon_object(span(&input)).unwrap();
        assert_eq!(p.points.0.len(), n);
        for (i, point) in p.points.0.iter().enumerate() {
            assert_eq!(*point, pair(i as f64, -(i as f64) - 0.5));
        }
    }
}

#[test]
fn polygon_without_a_point_is_a_failure_at_its_count() {
    for input in ["P 3 0 {}", "P 3 0  {}", "P 3 00 {}", "P 3 0 1 1 {}"] {
        match polygon_object(span(input)) {
            Err(Rejection::Failure(e)) => {
                assert_eq!(e.err.kind, ErrorKind::Nom(Primitive::Verify), "{input}");
                assert_eq!(e.err.input.location_offset(), 4, "{input}");
                assert_eq!(text(e.err.input), &input[4..]);
                let names: Vec<&str> = e.context.iter().map(|c| c.name).collect();
                assert_eq!(names, vec!["polygon"]);
            }
            other => panic!("unexpected result: {other:?}"),
        }
    }
    let e = from_str("v {}\nP 3 0 {}").unwrap_err();
    assert_eq!(e.err.kind, ErrorKind::Nom(Primitive::Verify));
    assert_eq!(e.err.input.location_line(), 2);
    assert_eq!(e.err.input.get_utf8_column(), 5);
    assert_eq!(e.to_string().lines().next(), Some("error: predicate verification"));
    let (_, p) = polygon_object(span("P 3 1 0 0 {}")).unwrap();
    assert_eq!(p.points.0.len(), 1);
}

#[test]
fn backslash_before_a_quote_is_an_escape_in_a_value() {
    let (rest, (k, v)) = key_value(span(r#"k="a\"b""#)).unwrap();
    assert_eq!(text(rest), "");
    assert_eq!(text(k), "k");
    assert_eq!(text(v), r#"a\"b"#);
    assert_eq!(v.input_len(), 4);
    let (rest, v) = value(span(r#""\"" x"#)).unwrap();
    assert_eq!(text(rest), " x");
    assert_eq!(text(v), r#"\""#);
    let (rest, found) = attributes(span(r#"k="a\"b" l="\\"c\\"" m="\\x""#)).unwrap();
    assert_eq!(text(rest), "");
    assert_eq!(pairs(&found), vec![("k", r#"a\"b"#), ("l", r#"\\"c\\""#), ("m", r#"\\x"#)]);
    // A backslash and a quote after a backslash are taken together, so the
    // quote does not close the value.
    assert!(matches!(value(span(r#""\\""#)), Err(Rejection::Failure(_))));
    // A value that ends in an escaped quote is not closed.
    match key_value(span(r#"k="a\""#)) {
        Err(Rejection::Failure(e)) => {
            assert_eq!(e.err.kind, ErrorKind::Char('"'));
            assert_eq!(text(e.err.input), "");
        }
        other => panic!("unexpected result: {other:?}"),
    }
    // Between braces a quote may not be escaped: the text of a property
    // ends where a backslash stands before one.
    match property(span(r#"{k="a\"b"}"#)) {
        Err(Rejection::Failure(e)) => {
            assert_eq!(e.err.kind, ErrorKind::Nom(Primitive::Escaped));
            assert_eq!(e.err.input.location_offset(), 5);
        }
        other => panic!("unexpected result: {other:?}"),
    }
    let s = from_str(r#"v {k="a\\"b" l="\\ "}"#).unwrap();
    assert_eq!(pairs(&s.version.0.attrs), vec![("k", r#"a\\"b"#), ("l", r#"\\ "#)]);
    assert!(from_str(&s.to_string()).unwrap() == s);
}

#[test]
fn polygon_with_too_few_coordinates_fails_where_a_number_is_missing() {
    // Two points are declared; the second one lacks its second number.
    match polygon_object(span("P 3 2 0 0 1 {}")) {
        Err(Rejection::Failure(e)) => {
            assert_eq!(text(e.err.input), "{}");
            assert_eq!(e.err.kind, ErrorKind::Char('.'));
            let names: Vec<&str> = e.context.iter().map(|c| c.name).collect();
            assert_eq!(names, vec!["coordinate", "polygon"]);
        }
        other => panic!("unexpected result: {other:?}"),
    }
}

#[test]
fn polygon_with_too_many_coordinates_fails_where_the_brace_is_missing() {
    // One point is declared; the property has to begin where a third number
    // stands.
    match polygon_object(span("P 3 1 0 0 1 {}")) {
        Err(Rejection::Failure(e)) => {
            assert_eq!(text(e.err.input), "1 {}");
            assert_eq!(e.err.kind, ErrorKind::Char('{'));
            assert_eq!(e.err.input.location_offset(), 10);
        }
        other => panic!("unexpected result: {other:?}"),
    }
}

#[test]
fn arc_is_parsed() {
    let (rest, a) = arc_object(span("A 3 450 -210 120 45 225 {}")).unwrap();
    assert_eq!(text(rest), "");
    assert_eq!(a.layer, 3);
    assert_eq!(a.center, pair(450.0, -210.0));
    assert_eq!(a.radius, double(120.0));
    assert_eq!(a.start_angle, double(45.0));
    assert_eq!(a.sweep_angle, double(225.0));
}

#[test]
fn component_without_embedding() {
    match any_object(span("C {capa.sym} 890 -160 0 0 {name=C4}")).unwrap() {
        (rest, Object::Component(c)) => {
            assert_eq!(text(rest), "");
            assert_eq!(text(c.reference), "capa.sym");
            assert_eq!(c.position, pair(890.0, -160.0));
            assert_eq!(c.rotation, Rotation::Zero);
            assert_eq!(c.flip, Flip::Unflipped);
            assert_eq!(pairs(&c.property.attrs), vec![("name", "C4")]);
            assert!(c.embedding.is_none());
        }
        other => panic!("unexpected result: {other:?}"),
    }
}

const NESTED: &str = "v {xschem version=3.4.5 file_version=1.2}
G {}
V {a}
G {b=1}
N 1 1 2 2 {lab=o}
C {pin.sym} 3 3 0 1 {name=pin
}
L 4 10 0 20 0 {}
C {pmos.sym} 1 1 2 0 {name=p}
[
v {xschem version=3.4.5 file_version=1.2}
K {type=pmos}
B 5 -62.5 -2.5 -57.5 2.5 {name=IN dir=in pinnumber=1}
C {inner.sym} 0 0 3 0 {}
[
v {}
A 3 450 -210 120 45 225 {}
]
P 3 2 0 0 1e2 -.5 {}
]
N 2 2 3 3 {lab=p}
T {1
2} 1.1 4.04 3 1 1.0 2.0 {}
";

#[test]
fn embedded_symbols_are_parsed() {
    let s = from_str(NESTED).unwrap();
    assert_eq!(s.wires.0.len(), 2);
    assert_eq!(s.lines.0.len(), 1);
    assert_eq!(s.texts.0.len(), 1);
    assert_eq!(s.components.0.len(), 2);
    assert!(s.components.0[0].embedding.is_none());
    let inner = &s.components.0[1].embedding.as_ref().unwrap().0;
    assert_eq!(pairs(&inner.symbol_property.as_ref().unwrap().0.attrs), vec![("type", "pmos")]);
    assert_eq!(inner.rectangles.0.len(), 1);
    assert_eq!(inner.polygons.0.len(), 1);
    assert_eq!(inner.polygons.0[0].points.0, vec![pair(0.0, 0.0), pair(100.0, -0.5)]);
    assert_eq!(inner.components.0.len(), 1);
    let innermost = &inner.components.0[0].embedding.as_ref().unwrap().0;
    assert_eq!(text(innermost.version.0.prop), "");
    assert_eq!(innermost.arcs.0.len(), 1);
    assert!(innermost.components.0.is_empty());
}

#[test]
fn slots_hold_the_last_property_with_their_tag() {
    let s = from_str(NESTED).unwrap();
    assert_eq!(text(s.vhdl_property.as_ref().unwrap().0.prop), "b=1");
    assert_eq!(s.vhdl_property.as_ref().unwrap().0.prop.location_offset(), 56);
    assert_eq!(text(s.verilog_property.as_ref().unwrap().0.prop), "a");
    assert!(s.symbol_property.is_none());
    assert!(s.spice_property.is_none());
    assert!(s.tedax_property.is_none());
    let s = from_str("v {}\nS {1}\nE {2}\nS {3}\nK {4}\nE {5}\nS {6}").unwrap();
    assert_eq!(text(s.spice_property.as_ref().unwrap().0.prop), "6");
    assert_eq!(text(s.tedax_property.as_ref().unwrap().0.prop), "5");
    assert_eq!(text(s.symbol_property.as_ref().unwrap().0.prop), "4");
}

#[test]
fn objects_of_a_kind_keep_the_order_of_the_input() {
    let s = from_str("v {}\nN 1 1 1 1 {a}\nL 1 2 2 2 2 {b}\nN 3 3 3 3 {c}\nL 2 4 4 4 4 {d}").unwrap();
    let wires: Vec<&str> = s.wires.0.iter().map(|w| text(w.property.prop)).collect();
    assert_eq!(wires, vec!["a", "c"]);
    let lines: Vec<&str> = s.lines.0.iter().map(|l| text(l.property.prop)).collect();
    assert_eq!(lines, vec!["b", "d"]);
}

/// Everything a schematic says, with text in place of spans.
fn content(s: &Schematic) -> String {
    let mut all = String::new();
    let property = |p: &xschem_parser::token::Property| format!("{:?}{:?}", text(p.prop), pairs(&p.attrs));
    all.push_str(&property(&s.version.0));
    all.push_str(&format!("{:?}", s.vhdl_property.as_ref().map(|p| property(&p.0))));
    all.push_str(&format!("{:?}", s.symbol_property.as_ref().map(|p| property(&p.0))));
    all.push_str(&format!("{:?}", s.verilog_property.as_ref().map(|p| property(&p.0))));
    all.push_str(&format!("{:?}", s.spice_property.as_ref().map(|p| property(&p.0))));
    all.push_str(&format!("{:?}", s.tedax_property.as_ref().map(|p| property(&p.0))));
    for t in &s.texts.0 {
        all.push_str(&format!(
            "T{:?}{:?}{:?}{:?}{:?}{}",
            text(t.text),
            t.position,
            t.rotation,
            t.flip,
            t.size,
            property(&t.property)
        ));
    }
    for l in &s.lines.0 {
        all.push_str(&format!("L{}{:?}{:?}{}", l.layer, l.start, l.end, property(&l.property)));
    }
    for r in &s.rectangles.0 {
        all.push_str(&format!("B{}{:?}{:?}{}", r.layer, r.start, r.end, property(&r.property)));
    }
    for p in &s.polygons.0 {
        all.push_str(&format!("P{}{:?}{}", p.layer, p.points, property(&p.property)));
    }
    for a in &s.arcs.0 {
        all.push_str(&format!(
            "A{}{:?}{:?}{:?}{:?}{}",
            a.layer,
            a.center,
            a.radius,
            a.start_angle,
            a.sweep_angle,
            property(&a.property)
        ));
    }
    for w in &s.wires.0 {
        all.push_str(&format!("N{:?}{:?}{}", w.start, w.end, property(&w.property)));
    }
    for c in &s.components.0 {
        all.push_str(&format!(
            "C{:?}{:?}{:?}{:?}{}[{:?}]",
            text(c.reference),
            c.position,
            c.rotation,
            c.flip,
            property(&c.property),
            c.embedding.as_ref().map(|e| content(&e.0))
        ));
    }
    all
}

#[test]
fn rendering_parses_back_to_the_same_schematic() {
    for input in [REGULATOR, NESTED, "v {}", " \n v {}\nP 1 1 0 -0.5 {}\n", "v {a=\"\\\\\"q\\\\\"\" \\{\\}}\nN -0 1e-7 123456789012345678901234567890 0.1 {}"] {
        let first = from_str(input).unwrap();
        assert!(first.prints_back(), "{input}");
        let rendered = first.to_string();
        let second = from_str(&rendered).unwrap();
        assert_eq!(content(&first), content(&second), "{rendered}");
        assert!(first == second, "{rendered}");
        assert_eq!(second.to_string(), rendered);
    }
}

#[test]
fn regulator_symbol_is_rendered() {
    let s = from_str(REGULATOR).unwrap();
    assert_eq!(
        s.to_string(),
        "v {xschem version=3.4.5 file_version=1.2}\nK {type=regulator}\nT {@name} -17.5 -15 0 0 0.2 0.2 {}"
    );
    assert_eq!(s.to_bytes(), s.to_string().into_bytes());
}

#[test]
fn property_is_a_part_of_the_input_with_its_attributes() {
    let input = "K {type=regulator format=\"@name @pinlist\" nokey k=v}";
    let (_, object) = any_object(span(input)).unwrap();
    let p = match object {
        Object::SymbolProperty(p) => p.0,
        other => panic!("unexpected object: {other:?}"),
    };
    let start = p.prop.location_offset();
    let end = start + p.prop.input_len();
    assert_eq!((start, end), (3, input.len() - 1));
    assert_eq!(p.prop.fragment(), &input.as_bytes()[start..end]);
    let (rest, again) = attributes(p.prop).unwrap();
    assert_eq!(rest.input_len(), 0);
    assert_eq!(pairs(&again), pairs(&p.attrs));
    assert_eq!(
        pairs(&p.attrs),
        vec![("format", "@name @pinlist"), ("k", "v"), ("type", "regulator")]
    );
    for i in 0..p.attrs.len() {
        let (k, v) = p.attrs.pair(i);
        assert!(start <= k.location_offset() && k.location_offset() + k.input_len() <= end);
        assert!(start <= v.location_offset() && v.location_offset() + v.input_len() <= end);
    }
}

#[test]
fn empty_property() {
    let (rest, p) = property(span("{}")).unwrap();
    assert_eq!(text(rest), "");
    assert_eq!(text(p.prop), "");
    assert_eq!(p.prop.location_offset(), 1);
    assert!(p.attrs.is_empty());
    assert_eq!(p.attrs.len(), 0);
}

#[test]
fn quoted_empty_value() {
    let (rest, (k, v)) = key_value(span("k=\"\"")).unwrap();
    assert_eq!(text(rest), "");
    assert_eq!(text(k), "k");
    assert_eq!(text(v), "");
    assert_eq!(v.location_offset(), 3);
    let (_, attrs) = attributes(span("k=\"\"")).unwrap();
    assert_eq!(pairs(&attrs), vec![("k", "")]);
    assert_eq!(text(attrs.get(b"k").unwrap()), "");
    assert!(attrs.get(b"").is_none());
}

#[test]
fn duplicate_key_keeps_the_last_value() {
    let (_, attrs) = attributes(span("a=1 b=2 a=3 c=4 b=5")).unwrap();
    assert_eq!(attrs.len(), 3);
    assert_eq!(pairs(&attrs), vec![("a", "3"), ("b", "5"), ("c", "4")]);
    assert_eq!(attrs.get(b"a").unwrap().location_offset(), 10);
    assert!(attrs.get(b"d").is_none());
}

#[test]
fn unterminated_quoted_value_is_a_failure_in_value() {
    match value(span("\"abc")) {
        Err(Rejection::Failure(e)) => {
            assert_eq!(e.err.kind, ErrorKind::Char('"'));
            assert_eq!(text(e.err.input), "");
            let names: Vec<&str> = e.context.iter().map(|c| c.name).collect();
            assert_eq!(names, vec!["value"]);
        }
        other => panic!("unexpected result: {other:?}"),
    }
    match attributes(span("a=1 k=\"abc x=2")) {
        Err(Rejection::Failure(e)) => {
            assert_eq!(e.err.kind, ErrorKind::Char('"'));
            let names: Vec<&str> = e.context.iter().map(|c| c.name).collect();
            assert_eq!(names, vec!["value", "key_value"]);
        }
        other => panic!("unexpected result: {other:?}"),
    }
    let e = from_str("v {k=\"abc}").unwrap_err();
    assert_eq!(e.err.kind, ErrorKind::Char('"'));
    assert_eq!(e.err.input.location_offset(), 9);
    let names: Vec<&str> = e.context.iter().map(|c| c.name).collect();
    assert_eq!(names, vec!["value", "key_value", "version"]);
}

#[test]
fn escapes_stay_as_they_are_in_a_value() {
    let (rest, (k, v)) = key_value(span(r#"k="\\"val\\"""#)).unwrap();
    assert_eq!(text(rest), "");
    assert_eq!(text(k), "k");
    assert_eq!(text(v), r#"\\"val\\""#);
}

#[test]
fn trailing_whitespace_is_accepted() {
    assert!(schematic_full(span("v {}\nN 0 0 1 1 {} \t\r\n\n")).is_ok());
    assert!(from_str("  v {}").is_ok());
}

#[test]
fn trailing_text_is_rejected_at_the_end() {
    let e = schematic_full(span("v {}\nN 0 0 1 1 {}\n  x")).unwrap_err();
    assert_eq!(e.err.kind, ErrorKind::Nom(Primitive::Eof));
    assert_eq!(text(e.err.input), "x");
    assert!(e.context.is_empty());
    assert!(e.to_string().starts_with("error: End of file\n"));
    let (rest, _) = schematic(span("v {}\nN 0 0 1 1 {}\n  x")).unwrap();
    assert_eq!(text(rest), "\n  x");
}

#[test]
fn failures_are_the_same_on_the_same_input() {
    for input in ["v []", "v {}\nN 0 0 1", "", "v {}\nC {a} 0 0 0 0 {}\n[\nv {}\n", "v {\\"] {
        let first = from_str(input).unwrap_err();
        let second = from_slice(input.as_bytes()).unwrap_err();
        assert_eq!(first.to_string(), second.to_string());
        assert_eq!(first.to_string(), from_str(input).unwrap_err().to_string());
    }
}

#[test]
fn every_kind_of_failure() {
    let kind = |input: &str| from_str(input).unwrap_err().err.kind;
    assert_eq!(kind("x"), ErrorKind::Char('v'));
    assert_eq!(kind("v{}"), ErrorKind::Nom(Primitive::MultiSpace));
    assert_eq!(kind("v {}\nL x"), ErrorKind::Nom(Primitive::Digit));
    assert_eq!(kind("v {}\nL 18446744073709551616 0 0 0 0 {}"), ErrorKind::Nom(Primitive::Digit));
    assert_eq!(kind("v {}\nP 1 1\n0 0 {}"), ErrorKind::Nom(Primitive::Space));
    assert_eq!(kind("v {}\nN 0 0 1 1 {} x"), ErrorKind::Nom(Primitive::Eof));
    assert_eq!(kind("v {\\x}"), ErrorKind::Nom(Primitive::Escaped));
    assert_eq!(kind("v {a\\"), ErrorKind::Nom(Primitive::Escaped));
    assert_eq!(kind("v {}\nN 0 0 1 1e999 {}"), ErrorKind::Nom(Primitive::Float));
    assert_eq!(kind("v {}\nN 0 0 1 1e {}"), ErrorKind::Nom(Primitive::Digit));
    assert_eq!(kind("v {}\nN 0 0 1 . {}"), ErrorKind::Nom(Primitive::Digit));
    assert_eq!(kind("v {}\nT {} 0 0 4 0 1 1 {}"), ErrorKind::Char('3'));
    match key_value(span("=v")) {
        Err(Rejection::Error(e)) => assert_eq!(e.err.kind, ErrorKind::Nom(Primitive::TakeWhile1)),
        other => panic!("unexpected result: {other:?}"),
    }
    let texts: Vec<String> = [
        Primitive::Digit,
        Primitive::Space,
        Primitive::MultiSpace,
        Primitive::Eof,
        Primitive::TakeWhile1,
        Primitive::Escaped,
        Primitive::Float,
        Primitive::Many0,
        Primitive::TooLarge,
        Primitive::Verify,
    ]
    .iter()
    .map(|p| ErrorKind::Nom(*p).to_string())
    .collect();
    assert_eq!(
        texts,
        vec![
            "Digit",
            "Space",
            "Multiple spaces",
            "End of file",
            "TakeWhile1",
            "Escaped",
            "Float",
            "Many0",
            "Needed data size is too large",
            "predicate verification"
        ]
    );
    assert_eq!(ErrorKind::Char('\u{e9}').to_string(), "expected '\u{e9}'");
}

#[test]
fn number_without_finite_value_is_an_error_after_the_number() {
    match finite_double(span("1e999 x")) {
        Err(Rejection::Error(e)) => {
            assert_eq!(e.err.kind, ErrorKind::Nom(Primitive::Float));
            assert_eq!(text(e.err.input), " x");
        }
        other => panic!("unexpected result: {other:?}"),
    }
    assert!(FiniteDouble::try_from(f64::INFINITY.to_bits()).is_err());
    assert!(FiniteDouble::try_from(f64::NEG_INFINITY.to_bits()).is_err());
    assert!(FiniteDouble::try_from(f64::NAN.to_bits()).is_err());
    assert_eq!(FiniteDouble::try_from(f64::NAN.to_bits()).unwrap_err(), "value is not finite");
    assert!(FiniteDouble::try_from(f64::MAX.to_bits()).is_ok());
    assert!(FiniteDouble::try_from(f64::MIN.to_bits()).unwrap().is_finite());
    assert!(Vec2::try_from((0, f64::INFINITY.to_bits())).is_err());
    assert_eq!(Vec2::try_from((1.5f64.to_bits(), 2f64.to_bits())).unwrap(), pair(1.5, 2.0));
}

#[test]
fn numbers_are_read_and_written() {
    for (input, value, written) in [
        ("-17.5", -17.5, "-17.5"),
        ("-15", -15.0, "-15"),
        ("0.2", 0.2, "0.2"),
        ("1e3", 1000.0, "1000"),
        ("+.5E-1", 0.05, "0.05"),
        ("7.", 7.0, "7"),
        ("-0", -0.0, "-0"),
    ] {
        let (rest, d) = finite_double(span(input)).unwrap();
        assert_eq!(text(rest), "");
        assert_eq!(d.to_bits(), f64::to_bits(value), "{input}");
        assert_eq!(d.to_string(), written);
    }
    assert_eq!(double(0.0), double(-0.0));
    assert!(double(1.0) != double(2.0));
    let (rest, n) = layer(span("0042 ")).unwrap();
    assert_eq!((text(rest), n), (" ", 42));
    assert_eq!(layer(span("18446744073709551615")).unwrap().1, u64::MAX);
}

#[test]
fn deep_embedding() {
    let mut input = String::from("v {}");
    for _ in 0..40 {
        input.push_str("\nC {s} 0 0 0 0 {}\n[\nv {}");
    }
    for _ in 0..40 {
        input.push_str("\n]");
    }
    let s = from_str(&input).unwrap();
    let mut depth = 0;
    let mut at = &s;
    while let Some(c) = at.components.0.first() {
        at = &c.embedding.as_ref().unwrap().0;
        depth += 1;
    }
    assert_eq!(depth, 40);
    assert_eq!(from_str(&s.to_string()).unwrap().to_string(), s.to_string());
    let (_, e) = embedding(span("[\nv {}\n]")).unwrap();
    assert_eq!(e.to_string(), "[\nv {}\n]");
    let (_, v) = version_object(span("v {a}")).unwrap();
    assert_eq!(v.to_string(), "v {a}");
    let (_, t) = text_object(span("T {x}\t1  2\n0 1 3 4 {k=v}")).unwrap();
    assert_eq!(t.to_string(), "T {x} 1 2 0 1 3 4 {k=v}");
}

#[test]
fn numbers_of_every_kind_of_object_are_written_as_they_are_read() {
    let s = from_str(NESTED).unwrap();
    assert!(s.prints_back());
    assert!(s.components.0.iter().all(|c| c.prints_back()));
    assert!(s.wires.0.iter().all(|w| w.prints_back()));
    assert!(s.lines.0.iter().all(|l| l.prints_back()));
    assert!(s.texts.0.iter().all(|t| t.prints_back()));
    let inner = &s.components.0[1].embedding.as_ref().unwrap().0;
    assert!(inner.rectangles.0.iter().all(|r| r.prints_back()));
    assert!(inner.polygons.0.iter().all(|p| p.prints_back() && p.points.prints_back()));
    let innermost = &inner.components.0[0].embedding.as_ref().unwrap().0;
    assert!(innermost.arcs.0.iter().all(|a| a.prints_back()));
    assert!(pair(1e300, -1e-300).prints_back());
    assert!(pair(5e-324, 1.7976931348623157e308).prints_back());
}

fn nested(depth: usize) -> String {
    let mut input = String::from("v {}");
    for _ in 0..depth {
        input.push_str("\nC {s} 0 0 0 0 {}\n[\nv {}");
    }
    for _ in 0..depth {
        input.push_str("\n]");
    }
    input
}

#[test]
fn symbols_are_embedded_as_deep_as_the_limit() {
    assert_eq!(MAX_DEPTH, 64);
    let input = nested(MAX_DEPTH);
    let s = from_str(&input).unwrap();
    let mut depth = 0;
    let mut at = &s;
    while let Some(c) = at.components.0.first() {
        at = &c.embedding.as_ref().unwrap().0;
        depth += 1;
    }
    assert_eq!(depth, MAX_DEPTH);
    assert!(from_str(&s.to_string()).unwrap() == s);
}

#[test]
fn symbol_embedded_deeper_than_the_limit_is_a_failure_at_its_bracket() {
    let input = nested(MAX_DEPTH + 1);
    let e = from_str(&input).unwrap_err();
    assert_eq!(e.err.kind, ErrorKind::Nom(Primitive::TooLarge));
    let level = "\nC {s} 0 0 0 0 {}\n[\nv {}".len();
    assert_eq!(e.err.input.location_offset(), 4 + MAX_DEPTH * level + 18);
    assert_eq!(e.err.input.fragment()[0], b'[');
    assert_eq!(e.err.input.location_line(), 3 * MAX_DEPTH + 3);
    assert_eq!(e.err.input.get_utf8_column(), 1);
    assert_eq!(e.context.len(), 2 * (MAX_DEPTH + 1));
    for (i, frame) in e.context.iter().enumerate() {
        assert_eq!(frame.name, if i % 2 == 0 { "embedded symbol" } else { "component" });
    }
    let shown = e.to_string();
    assert!(shown.starts_with("error: Needed data size is too large\n"), "{shown}");
    assert_eq!(shown.lines().nth(1).unwrap().trim_start(), "--> 195:1");
    assert_eq!(shown.lines().nth(3).unwrap(), " 195 | [");
}

#[test]
fn parsers_take_the_levels_that_are_left() {
    let one = "[\nv {}\nC {s} 0 0 0 0 {}\n[\nv {}\n]\n]";
    assert!(embedding_within(span(one), 2).is_ok());
    match embedding_within(span(one), 1) {
        Err(Rejection::Failure(e)) => {
            assert_eq!(e.err.kind, ErrorKind::Nom(Primitive::TooLarge));
            assert_eq!(e.err.input.location_offset(), 24);
        },
        other => panic!("unexpected result: {other:?}"),
    }
    match embedding_within(span("[\nv {}\n]"), 0) {
        Err(Rejection::Failure(e)) => {
            assert_eq!(e.err.kind, ErrorKind::Nom(Primitive::TooLarge));
            assert_eq!(e.err.input.location_offset(), 0);
            assert_eq!(e.context.len(), 1);
        },
        other => panic!("unexpected result: {other:?}"),
    }
    match embedding_within(span("{"), 0) {
        Err(Rejection::Error(e)) => assert_eq!(e.err.kind, ErrorKind::Char('[')),
        other => panic!("unexpected result: {other:?}"),
    }
    let flat = "v {}\nC {s} 0 0 0 0 {}\nN 0 0 1 1 {}";
    let (rest, s) = schematic_within(span(flat), 0).unwrap();
    assert_eq!(rest.input_len(), 0);
    assert_eq!(s.components.0.len(), 1);
    assert_eq!(s.wires.0.len(), 1);
    let component = "C {s} 0 0 0 0 {}\n[\nv {}\n]";
    assert!(component_within(span(component), 1).is_ok());
    assert!(matches!(component_within(span(component), 0), Err(Rejection::Failure(_))));
    assert!(any_object_within(span(component), 1).is_ok());
    assert!(matches!(any_object_within(span(component), 0), Err(Rejection::Failure(_))));
    let (_, version) = version_object(span("v {}")).unwrap();
    let (rest, s) = objects_from(span("\nN 0 0 1 1 {}\nq"), Schematic::new(version), 0).unwrap();
    assert_eq!(text(rest), "\nq");
    assert_eq!(s.wires.0.len(), 1);
}

#[test]
fn offset_between_two_spans_of_a_buffer() {
    let whole = span("v {}\nN 0 0 1 1 {}");
    let (rest, _) = version_object(whole).unwrap();
    assert_eq!(whole.offset(&rest), 4);
    assert_eq!(rest.offset(&rest), 0);
    assert_eq!(whole.offset(&whole.take_from(7)), 7);
    assert_eq!(whole.take_from(2).offset(&whole.take_from(7)), 5);
}

#[test]
fn errors_are_built_from_their_parts() {
    let whole = span("ab\ncd");
    let at = whole.take_from(4);
    let e = Error::from_external_error(at, Primitive::Float, "value is not finite");
    assert_eq!(e.err.kind, ErrorKind::Nom(Primitive::Float));
    assert_eq!(e.err.input.location_offset(), 4);
    assert!(e.context.is_empty());
    assert!(e.path.is_none());
    let e = Error::append(whole, Primitive::Digit, e);
    assert_eq!(e.err.kind, ErrorKind::Nom(Primitive::Float));
    assert_eq!(e.err.input.location_offset(), 4);
    assert!(e.context.is_empty());
    let e = Error::add_context(whole.take_from(3), "inner", e);
    let e = Error::add_context(whole, "outer", e).with_path("a.sch");
    assert_eq!(e.context.len(), 2);
    assert_eq!(e.context[0].name, "inner");
    assert_eq!(e.context[0].input.location_offset(), 3);
    assert_eq!(e.context[1].name, "outer");
    assert_eq!(e.path, Some("a.sch"));
    let expected = "\
error: Float
  --> a.sch:2:2
   |
 2 | cd
   |  ^
   |
in inner
  --> a.sch:2:1
   |
 2 | cd
   | ^
   |
in outer
  --> a.sch:1:1
   |
 1 | ab
   | ^
   |";
    assert_eq!(e.to_string(), expected);
    let c = Error::from_char(whole, 'x');
    assert_eq!(c.err.kind, ErrorKind::Char('x'));
    assert_eq!(c.to_string().lines().next(), Some("error: expected 'x'"));
}

#[test]
fn text_that_is_not_utf8_is_rendered_with_replacement_characters() {
    let input: &[u8] = b"v {a\xffb}\nK {\xc3\xa9=\xc3}";
    let s = from_slice(input).unwrap();
    assert_eq!(s.to_bytes(), input.to_vec());
    assert_eq!(s.to_string(), "v {a\u{fffd}b}\nK {\u{e9}=\u{fffd}}");
    assert_eq!(s.version.to_string(), "v {a\u{fffd}b}");
    assert_eq!(s.symbol_property.as_ref().unwrap().0.prop.fragment(), b"\xc3\xa9=\xc3");
}

#[test]
fn a_copy_says_what_the_schematic_says() {
    let s = from_str(NESTED).unwrap();
    let copy = s.clone();
    assert!(copy == s);
    assert_eq!(copy.to_string(), s.to_string());
    assert_eq!(content(&copy), content(&s));
    let component = s.components.0[1].clone();
    assert!(component == s.components.0[1]);
    assert!(component.embedding.clone() == s.components.0[1].embedding);
    assert!(s.wires.clone() == s.wires);
    assert!(s.version.clone() == s.version);
    let (_, object) = any_object(span("P 1 2 0 0 1 1 {a=b}")).unwrap();
    match (object.clone(), object) {
        (Object::Polygon(a), Object::Polygon(b)) => {
            assert!(a == b);
            assert!(a.points.clone() == b.points);
            assert_eq!(a.to_string(), "P 1 2 0 0 1 1 {a=b}");
        },
        other => panic!("unexpected objects: {other:?}"),
    }
}
