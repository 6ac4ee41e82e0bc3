//! Parsed data structures and their mathematical models.
use vstd::prelude::*;
use vstd::std_specs::cmp::PartialEqSpec;

use crate::span::{bytes_equal, Span, SpanView};

verus! {

/// Rotation of a text or a component, in quarter turns.
#[derive(Clone, Copy, Debug, PartialEq, Eq, PartialOrd, Ord, Hash, Structural)]
pub enum Rotation {
    Zero,
    One,
    Two,
    Three,
}

/// Whether a text or a component is mirrored.
#[derive(Clone, Copy, Debug, PartialEq, Eq, PartialOrd, Ord, Hash, Structural)]
pub enum Flip {
    Unflipped,
    Flipped,
}

impl View for Rotation {
    type V = Rotation;

    open spec fn view(&self) -> Rotation {
        *self
    }
}

impl View for Flip {
    type V = Flip;

    open spec fn view(&self) -> Flip {
        *self
    }
}

impl From<bool> for Flip {
    fn from(value: bool) -> (r: Flip) {
        if value {
            Flip::Flipped
        } else {
            Flip::Unflipped
        }
    }
}

impl vstd::std_specs::convert::FromSpecImpl<bool> for Flip {
    open spec fn obeys_from_spec() -> bool {
        true
    }

    open spec fn from_spec(value: bool) -> Flip {
        if value {
            Flip::Flipped
        } else {
            Flip::Unflipped
        }
    }
}

impl From<Flip> for bool {
    fn from(value: Flip) -> (r: bool) {
        match value {
            Flip::Unflipped => false,
            Flip::Flipped => true,
        }
    }
}

impl vstd::std_specs::convert::FromSpecImpl<Flip> for bool {
    open spec fn obeys_from_spec() -> bool {
        true
    }

    open spec fn from_spec(value: Flip) -> bool {
        value == Flip::Flipped
    }
}

impl From<Rotation> for u8 {
    fn from(value: Rotation) -> (r: u8) {
        match value {
            Rotation::Zero => 0,
            Rotation::One => 1,
            Rotation::Two => 2,
            Rotation::Three => 3,
        }
    }
}

impl vstd::std_specs::convert::FromSpecImpl<Rotation> for u8 {
    open spec fn obeys_from_spec() -> bool {
        true
    }

    open spec fn from_spec(value: Rotation) -> u8 {
        quarter_turns(value)
    }
}

/// How many quarter turns a rotation is.
pub open spec fn quarter_turns(r: Rotation) -> u8 {
    match r {
        Rotation::Zero => 0,
        Rotation::One => 1,
        Rotation::Two => 2,
        Rotation::Three => 3,
    }
}

impl Rotation {
    /// The rotation by `value` quarter turns, if `value` is at most 3;
    /// otherwise `value` comes back.
    pub fn try_from(value: u8) -> (r: Result<Rotation, u8>)
        ensures
            match r {
                Ok(rotation) => value <= 3 && value == quarter_turns(rotation),
                Err(v) => value > 3 && v == value,
            },
    {
        match value {
            0 => Ok(Rotation::Zero),
            1 => Ok(Rotation::One),
            2 => Ok(Rotation::Two),
            3 => Ok(Rotation::Three),
            _ => Err(value),
        }
    }
}

impl Flip {
    /// `Unflipped` for 0 and `Flipped` for 1; any other `value` comes back.
    pub fn try_from(value: u8) -> (r: Result<Flip, u8>)
        ensures
            match r {
                Ok(flip) => value <= 1 && (flip == Flip::Flipped <==> value == 1),
                Err(v) => value > 1 && v == value,
            },
    {
        match value {
            0 => Ok(Flip::Unflipped),
            1 => Ok(Flip::Flipped),
            _ => Err(value),
        }
    }
}

/// The sign bit of a binary64 bit pattern.
pub const SIGN_BIT: u64 = 0x8000_0000_0000_0000;

/// The smallest magnitude pattern that is not a finite number: positive
/// infinity. Every larger magnitude pattern is a NaN.
pub const INFINITY_BITS: u64 = 0x7ff0_0000_0000_0000;

/// The bit pattern `bits` without its sign.
pub open spec fn magnitude(bits: u64) -> u64 {
    if bits >= SIGN_BIT {
        (bits - SIGN_BIT) as u64
    } else {
        bits
    }
}

/// Whether the binary64 bit pattern `bits` encodes a finite number: its
/// exponent field is not all ones.
pub open spec fn is_finite_bits(bits: u64) -> bool {
    magnitude(bits) < INFINITY_BITS
}

/// Whether two bit patterns of finite numbers encode the same number: the
/// patterns are equal, or both encode a zero.
pub open spec fn same_number(a: u64, b: u64) -> bool {
    a == b || (magnitude(a) == 0 && magnitude(b) == 0)
}

/// A double-precision number that is neither a NaN nor infinite.
///
/// The number is held as its IEEE 754 binary64 bit pattern.
#[derive(Clone, Copy, Debug)]
pub struct FiniteDouble {
    bits: u64,
}

impl View for FiniteDouble {
    type V = u64;

    closed spec fn view(&self) -> u64 {
        self.bits
    }
}

/// What is wrong with a number that is a NaN or infinite.
pub const NOT_FINITE: &'static str = "value is not finite";

impl FiniteDouble {
    #[verifier::type_invariant]
    spec fn finite(self) -> bool {
        is_finite_bits(self.bits)
    }

    /// The number with the bit pattern `bits`, if that is a finite number;
    /// otherwise the error says that the value is not finite.
    pub fn try_from(bits: u64) -> (r: Result<FiniteDouble, &'static str>)
        ensures
            r is Ok <==> is_finite_bits(bits),
            r matches Ok(d) ==> d@ == bits,
            r matches Err(e) ==> e@ == "value is not finite"@,
    {
        let magnitude = if bits >= SIGN_BIT {
            bits - SIGN_BIT
        } else {
            bits
        };
        if magnitude < INFINITY_BITS {
            Ok(FiniteDouble { bits })
        } else {
            Err(NOT_FINITE)
        }
    }

    /// The bit pattern of the number, which is always that of a finite
    /// number.
    pub fn to_bits(&self) -> (r: u64)
        ensures
            r == self@,
            is_finite_bits(r),
    {
        proof {
            use_type_invariant(self);
        }
        self.bits
    }

    /// Whether the number is finite. It always is.
    pub fn is_finite(&self) -> (r: bool)
        ensures
            r,
            is_finite_bits(self@),
    {
        proof {
            use_type_invariant(self);
        }
        true
    }
}

impl PartialEq for FiniteDouble {
    fn eq(&self, other: &Self) -> (r: bool) {
        let a = if self.bits >= SIGN_BIT {
            self.bits - SIGN_BIT
        } else {
            self.bits
        };
        let b = if other.bits >= SIGN_BIT {
            other.bits - SIGN_BIT
        } else {
            other.bits
        };
        self.bits == other.bits || (a == 0 && b == 0)
    }
}

impl vstd::std_specs::cmp::PartialEqSpecImpl for FiniteDouble {
    open spec fn obeys_eq_spec() -> bool {
        true
    }

    open spec fn eq_spec(&self, other: &Self) -> bool {
        same_number(self@, other@)
    }
}

impl Eq for FiniteDouble {

}

/// Equality of finite numbers is an equivalence, which `Eq` promises: a NaN,
/// the one value that is not equal to itself, is no finite number.
pub proof fn law_number_equality_is_an_equivalence(a: u64, b: u64, c: u64)
    ensures
        same_number(a, a),
        same_number(a, b) ==> same_number(b, a),
        same_number(a, b) && same_number(b, c) ==> same_number(a, c),
{
}

/// A pair of finite numbers.
#[derive(Clone, Copy, Debug)]
pub struct Vec2 {
    pub x: FiniteDouble,
    pub y: FiniteDouble,
}

/// A position.
pub type Coordinate = Vec2;

/// An extent.
pub type Size = Vec2;

/// The model of a [`Vec2`]: the bit patterns of its two numbers.
pub ghost struct Vec2View {
    pub x: u64,
    pub y: u64,
}

impl View for Vec2 {
    type V = Vec2View;

    open spec fn view(&self) -> Vec2View {
        Vec2View { x: self.x@, y: self.y@ }
    }
}

impl Vec2 {
    /// The pair of the numbers with these bit patterns, if both are finite;
    /// otherwise the error says that a value is not finite.
    pub fn try_from(value: (u64, u64)) -> (r: Result<Vec2, &'static str>)
        ensures
            r is Ok <==> is_finite_bits(value.0) && is_finite_bits(value.1),
            r matches Ok(v) ==> v@ == (Vec2View { x: value.0, y: value.1 }),
            r matches Err(e) ==> e@ == "value is not finite"@,
    {
        let x = match FiniteDouble::try_from(value.0) {
            Ok(x) => x,
            Err(e) => {
                return Err(e);
            },
        };
        let y = match FiniteDouble::try_from(value.1) {
            Ok(y) => y,
            Err(e) => {
                return Err(e);
            },
        };
        Ok(Vec2 { x, y })
    }
}

/// The points of a polygon, in order.
#[derive(Debug)]
pub struct Coordinates(pub Vec<Coordinate>);

impl View for Coordinates {
    type V = Seq<Vec2View>;

    open spec fn view(&self) -> Seq<Vec2View> {
        Seq::new(self.0@.len(), |i: int| self.0@[i]@)
    }
}

/// The pairs of the numbers with the bit patterns `values`.
pub open spec fn points_of(values: Seq<(u64, u64)>) -> Seq<Vec2View> {
    Seq::new(values.len(), |i: int| Vec2View { x: values[i].0, y: values[i].1 })
}

/// Every one of the bit patterns `values` is that of a finite number.
pub open spec fn all_finite(values: Seq<(u64, u64)>) -> bool {
    forall|i: int|
        0 <= i < values.len() ==> is_finite_bits((#[trigger] values[i]).0) && is_finite_bits(
            values[i].1,
        )
}

impl Coordinates {
    /// The points whose numbers have these bit patterns, if all of them are
    /// finite; otherwise the error says that a value is not finite.
    pub fn try_from(values: &Vec<(u64, u64)>) -> (r: Result<Coordinates, &'static str>)
        ensures
            r is Ok <==> all_finite(values@),
            r matches Ok(c) ==> c@ == points_of(values@),
            r matches Err(e) ==> e@ == "value is not finite"@,
    {
        let mut points: Vec<Coordinate> = Vec::new();
        let mut i: usize = 0;
        while i < values.len()
            invariant
                i <= values.len(),
                points@.len() == i,
                forall|j: int|
                    0 <= j < i ==> is_finite_bits((#[trigger] values@[j]).0) && is_finite_bits(
                        values@[j].1,
                    ),
                forall|j: int|
                    0 <= j < i ==> (#[trigger] points@[j])@ == (Vec2View {
                        x: values@[j].0,
                        y: values@[j].1,
                    }),
            decreases values.len() - i,
        {
            match Vec2::try_from(values[i]) {
                Ok(point) => {
                    points.push(point);
                },
                Err(e) => {
                    return Err(e);
                },
            }
            i = i + 1;
        }
        let r = Coordinates(points);
        assert(r@ =~= points_of(values@));
        Ok(r)
    }
}

/// The attributes of a property: pairs of a key and a value in which no two
/// keys have the same text.
#[derive(Debug)]
pub struct Attributes<'a> {
    pairs: Vec<(Span<'a>, Span<'a>)>,
}

/// Index of the first pair at or after `from` whose key has the text `key`,
/// or the number of pairs when there is none.
pub open spec fn key_index_from(pairs: Seq<(SpanView, SpanView)>, key: Seq<u8>, from: int) -> int
    decreases pairs.len() - from,
{
    if from >= pairs.len() {
        pairs.len() as int
    } else if pairs[from].0.text() == key {
        from
    } else {
        key_index_from(pairs, key, from + 1)
    }
}

/// Index of the first pair whose key has the text `key`, or the number of
/// pairs when there is none.
pub open spec fn key_index(pairs: Seq<(SpanView, SpanView)>, key: Seq<u8>) -> int {
    key_index_from(pairs, key, 0)
}

/// The pairs after `key` has been given the value `value`: a pair whose key
/// has the same text is replaced, otherwise the new pair is added at the end.
pub open spec fn insert_pair(
    pairs: Seq<(SpanView, SpanView)>,
    key: SpanView,
    value: SpanView,
) -> Seq<(SpanView, SpanView)> {
    let i = key_index(pairs, key.text());
    if i < pairs.len() {
        pairs.update(i, (key, value))
    } else {
        pairs.push((key, value))
    }
}

/// No two pairs have keys with the same text.
pub open spec fn distinct_keys(pairs: Seq<(SpanView, SpanView)>) -> bool {
    forall|i: int, j: int|
        0 <= i < j < pairs.len() ==> (#[trigger] pairs[i]).0.text() != (#[trigger] pairs[j]).0.text()
}

/// The pairs as a map from the text of a key to its value.
pub open spec fn pairs_map(pairs: Seq<(SpanView, SpanView)>) -> Map<Seq<u8>, SpanView> {
    Map::new(
        |key: Seq<u8>| key_index(pairs, key) < pairs.len(),
        |key: Seq<u8>| pairs[key_index(pairs, key)].1,
    )
}

/// What `key_index_from` finds: the index lies in `from..=len`; a found pair
/// has the key; no pair before it, from `from` on, has the key.
pub proof fn lemma_key_index(pairs: Seq<(SpanView, SpanView)>, key: Seq<u8>, from: int)
    requires
        0 <= from <= pairs.len(),
    ensures
        from <= key_index_from(pairs, key, from) <= pairs.len(),
        key_index_from(pairs, key, from) < pairs.len() ==> pairs[key_index_from(
            pairs,
            key,
            from,
        )].0.text() == key,
        forall|k: int|
            from <= k < key_index_from(pairs, key, from) ==> (#[trigger] pairs[k]).0.text() != key,
    decreases pairs.len() - from,
{
    if from < pairs.len() && pairs[from].0.text() != key {
        lemma_key_index(pairs, key, from + 1);
    }
}

/// Inserting a pair keeps the keys distinct.
pub proof fn lemma_insert_keeps_distinct(
    pairs: Seq<(SpanView, SpanView)>,
    key: SpanView,
    value: SpanView,
)
    requires
        distinct_keys(pairs),
    ensures
        distinct_keys(insert_pair(pairs, key, value)),
{
    lemma_key_index(pairs, key.text(), 0);
    let i = key_index(pairs, key.text());
    let after = insert_pair(pairs, key, value);
    assert forall|a: int, b: int| 0 <= a < b < after.len() implies (#[trigger] after[a]).0.text()
        != (#[trigger] after[b]).0.text() by {
        if i < pairs.len() {
            if a != i && b != i {
                assert(pairs[a].0.text() != pairs[b].0.text());
            } else if a == i {
                assert(pairs[i].0.text() != pairs[b].0.text());
            } else {
                assert(pairs[a].0.text() != pairs[i].0.text());
            }
        } else {
            if b < pairs.len() {
                assert(pairs[a].0.text() != pairs[b].0.text());
            } else {
                assert(pairs[a].0.text() != key.text());
            }
        }
    }
}

impl<'a> View for Attributes<'a> {
    type V = Seq<(SpanView, SpanView)>;

    closed spec fn view(&self) -> Seq<(SpanView, SpanView)> {
        Seq::new(self.pairs@.len(), |i: int| (self.pairs@[i].0@, self.pairs@[i].1@))
    }
}

impl<'a> Attributes<'a> {
    #[verifier::type_invariant]
    spec fn keys_distinct(self) -> bool {
        distinct_keys(self@)
    }

    /// No attributes.
    pub fn new() -> (r: Self)
        ensures
            r@ == Seq::<(SpanView, SpanView)>::empty(),
    {
        let r = Attributes { pairs: Vec::new() };
        assert(r@ =~= Seq::empty());
        r
    }

    /// Number of attributes.
    pub fn len(&self) -> (r: usize)
        ensures
            r == self@.len(),
            distinct_keys(self@),
    {
        proof {
            use_type_invariant(self);
        }
        self.pairs.len()
    }

    /// Whether there is no attribute.
    pub fn is_empty(&self) -> (r: bool)
        ensures
            r == (self@.len() == 0),
    {
        self.pairs.len() == 0
    }

    /// The `i`-th attribute: its key and its value.
    pub fn pair(&self, i: usize) -> (r: (Span<'a>, Span<'a>))
        requires
            i < self@.len(),
        ensures
            r.0@ == self@[i as int].0,
            r.1@ == self@[i as int].1,
    {
        self.pairs[i]
    }

    /// Index of the attribute whose key has the text `key`, or the number of
    /// attributes when there is none.
    fn position(&self, key: &[u8]) -> (r: usize)
        ensures
            r == key_index(self@, key@),
            r <= self@.len(),
    {
        let mut i: usize = 0;
        while i < self.pairs.len()
            invariant
                i <= self.pairs@.len(),
                self@.len() == self.pairs@.len(),
                key_index(self@, key@) == key_index_from(self@, key@, i as int),
            decreases self.pairs.len() - i,
        {
            let k = self.pairs[i].0;
            if bytes_equal(k.fragment(), key) {
                return i;
            }
            i = i + 1;
        }
        i
    }

    /// The value of the attribute whose key has the text `key`.
    pub fn get(&self, key: &[u8]) -> (r: Option<Span<'a>>)
        ensures
            match r {
                Some(value) => pairs_map(self@).dom().contains(key@) && value@ == pairs_map(
                    self@,
                )[key@],
                None => !pairs_map(self@).dom().contains(key@),
            },
    {
        let i = self.position(key);
        if i < self.pairs.len() {
            Some(self.pairs[i].1)
        } else {
            None
        }
    }

    /// These attributes with `key` given the value `value`. An attribute whose
    /// key has the same text is replaced by this one; otherwise this one is
    /// added.
    #[must_use]
    pub fn insert(self, key: Span<'a>, value: Span<'a>) -> (r: Self)
        ensures
            r@ == insert_pair(self@, key@, value@),
    {
        proof {
            use_type_invariant(&self);
            lemma_insert_keeps_distinct(self@, key@, value@);
        }
        let i = self.position(key.fragment());
        let ghost before = self@;
        let mut pairs = self.pairs;
        if i < pairs.len() {
            pairs[i] = (key, value);
        } else {
            pairs.push((key, value));
        }
        proof {
            assert(Seq::new(pairs@.len(), |i: int| (pairs@[i].0@, pairs@[i].1@)) =~= insert_pair(
                before,
                key@,
                value@,
            ));
        }
        Attributes { pairs }
    }
}

impl<'a> Clone for Attributes<'a> {
    fn clone(&self) -> (r: Self)
        ensures
            r@ == self@,
    {
        proof {
            use_type_invariant(self);
        }
        let mut pairs: Vec<(Span<'a>, Span<'a>)> = Vec::new();
        let mut i: usize = 0;
        while i < self.pairs.len()
            invariant
                i <= self.pairs@.len(),
                pairs@ == self.pairs@.subrange(0, i as int),
            decreases self.pairs.len() - i,
        {
            pairs.push(self.pairs[i]);
            assert(pairs@ =~= self.pairs@.subrange(0, i + 1));
            i = i + 1;
        }
        proof {
            assert(pairs@ =~= self.pairs@);
            assert(Seq::new(pairs@.len(), |i: int| (pairs@[i].0@, pairs@[i].1@)) =~= self@);
        }
        Attributes { pairs }
    }
}

/// A property string with the attributes found in it.
#[derive(Debug)]
pub struct Property<'a> {
    /// The text between the braces, as it stands in the input.
    pub prop: Span<'a>,
    /// The attributes found in `prop`.
    pub attrs: Attributes<'a>,
}

/// The model of a [`Property`].
pub ghost struct PropertyView {
    pub prop: SpanView,
    pub attrs: Seq<(SpanView, SpanView)>,
}

impl<'a> View for Property<'a> {
    type V = PropertyView;

    open spec fn view(&self) -> PropertyView {
        PropertyView { prop: self.prop@, attrs: self.attrs@ }
    }
}

/// The version of the program and of the file format: the `v` object.
#[derive(Debug)]
pub struct Version<'a>(pub Property<'a>);

/// The VHDL property of a schematic: the `G` object.
#[derive(Debug)]
pub struct VhdlProperty<'a>(pub Property<'a>);

/// The symbol property of a schematic: the `K` object.
#[derive(Debug)]
pub struct SymbolProperty<'a>(pub Property<'a>);

/// The Verilog property of a schematic: the `V` object.
#[derive(Debug)]
pub struct VerilogProperty<'a>(pub Property<'a>);

/// The Spice property of a schematic: the `S` object.
#[derive(Debug)]
pub struct SpiceProperty<'a>(pub Property<'a>);

/// The tEDAx property of a schematic: the `E` object.
#[derive(Debug)]
pub struct TedaXProperty<'a>(pub Property<'a>);

impl<'a> View for Version<'a> {
    type V = PropertyView;

    open spec fn view(&self) -> PropertyView {
        self.0@
    }
}

impl<'a> View for VhdlProperty<'a> {
    type V = PropertyView;

    open spec fn view(&self) -> PropertyView {
        self.0@
    }
}

impl<'a> View for SymbolProperty<'a> {
    type V = PropertyView;

    open spec fn view(&self) -> PropertyView {
        self.0@
    }
}

impl<'a> View for VerilogProperty<'a> {
    type V = PropertyView;

    open spec fn view(&self) -> PropertyView {
        self.0@
    }
}

impl<'a> View for SpiceProperty<'a> {
    type V = PropertyView;

    open spec fn view(&self) -> PropertyView {
        self.0@
    }
}

impl<'a> View for TedaXProperty<'a> {
    type V = PropertyView;

    open spec fn view(&self) -> PropertyView {
        self.0@
    }
}

/// An arc: the `A` object.
#[derive(Debug)]
pub struct Arc<'a> {
    pub layer: u64,
    pub center: Coordinate,
    pub radius: FiniteDouble,
    pub start_angle: FiniteDouble,
    pub sweep_angle: FiniteDouble,
    pub property: Property<'a>,
}

/// A line: the `L` object.
#[derive(Debug)]
pub struct Line<'a> {
    pub layer: u64,
    pub start: Coordinate,
    pub end: Coordinate,
    pub property: Property<'a>,
}

/// A rectangle: the `B` object.
#[derive(Debug)]
pub struct Rectangle<'a> {
    pub layer: u64,
    pub start: Coordinate,
    pub end: Coordinate,
    pub property: Property<'a>,
}

/// A polygon: the `P` object. A polygon that was read has a point at least.
#[derive(Debug)]
pub struct Polygon<'a> {
    pub layer: u64,
    pub points: Coordinates,
    pub property: Property<'a>,
}

/// A text: the `T` object.
#[derive(Debug)]
pub struct Text<'a> {
    /// The text between the braces, as it stands in the input.
    pub text: Span<'a>,
    pub position: Coordinate,
    pub rotation: Rotation,
    pub flip: Flip,
    pub size: Size,
    pub property: Property<'a>,
}

/// A wire: the `N` object.
#[derive(Debug)]
pub struct Wire<'a> {
    pub start: Coordinate,
    pub end: Coordinate,
    pub property: Property<'a>,
}

/// An instance of a symbol: the `C` object.
#[derive(Debug)]
pub struct Component<'a> {
    /// The file name of the symbol, as it stands between the braces.
    pub reference: Span<'a>,
    pub position: Coordinate,
    pub rotation: Rotation,
    pub flip: Flip,
    pub property: Property<'a>,
    /// The symbol itself, where the file embeds it after the instance.
    pub embedding: Option<Embedding<'a>>,
}

/// A schematic embedded after the component that instantiates it.
#[derive(Debug)]
pub struct Embedding<'a>(pub Schematic<'a>);

/// Objects of one kind, in the order of the input.
#[derive(Debug, PartialEq)]
pub struct Objects<O>(pub Vec<O>);

/// Any object that may follow the version in a schematic.
#[derive(Debug)]
pub enum Object<'a> {
    SpiceProperty(SpiceProperty<'a>),
    VerilogProperty(VerilogProperty<'a>),
    VhdlProperty(VhdlProperty<'a>),
    TedaXProperty(TedaXProperty<'a>),
    SymbolProperty(SymbolProperty<'a>),
    Arc(Arc<'a>),
    Component(Component<'a>),
    Line(Line<'a>),
    Polygon(Polygon<'a>),
    Rectangle(Rectangle<'a>),
    Text(Text<'a>),
    Wire(Wire<'a>),
}

/// A schematic or a symbol.
#[derive(Debug)]
pub struct Schematic<'a> {
    pub version: Version<'a>,
    pub vhdl_property: Option<VhdlProperty<'a>>,
    pub symbol_property: Option<SymbolProperty<'a>>,
    pub verilog_property: Option<VerilogProperty<'a>>,
    pub spice_property: Option<SpiceProperty<'a>>,
    pub tedax_property: Option<TedaXProperty<'a>>,
    pub texts: Objects<Text<'a>>,
    pub lines: Objects<Line<'a>>,
    pub rectangles: Objects<Rectangle<'a>>,
    pub polygons: Objects<Polygon<'a>>,
    pub arcs: Objects<Arc<'a>>,
    pub wires: Objects<Wire<'a>>,
    pub components: Objects<Component<'a>>,
}

/// The model of an [`Arc`].
pub ghost struct ArcView {
    pub layer: u64,
    pub center: Vec2View,
    pub radius: u64,
    pub start_angle: u64,
    pub sweep_angle: u64,
    pub property: PropertyView,
}

/// The model of a [`Line`].
pub ghost struct LineView {
    pub layer: u64,
    pub start: Vec2View,
    pub end: Vec2View,
    pub property: PropertyView,
}

/// The model of a [`Rectangle`].
pub ghost struct RectangleView {
    pub layer: u64,
    pub start: Vec2View,
    pub end: Vec2View,
    pub property: PropertyView,
}

/// The model of a [`Polygon`].
pub ghost struct PolygonView {
    pub layer: u64,
    pub points: Seq<Vec2View>,
    pub property: PropertyView,
}

/// The model of a [`Text`].
pub ghost struct TextView {
    pub text: SpanView,
    pub position: Vec2View,
    pub rotation: Rotation,
    pub flip: Flip,
    pub size: Vec2View,
    pub property: PropertyView,
}

/// The model of a [`Wire`].
pub ghost struct WireView {
    pub start: Vec2View,
    pub end: Vec2View,
    pub property: PropertyView,
}

/// The model of a [`Component`].
pub ghost struct ComponentView {
    pub reference: SpanView,
    pub position: Vec2View,
    pub rotation: Rotation,
    pub flip: Flip,
    pub property: PropertyView,
    pub embedding: Option<SchematicView>,
}

/// The model of an [`Object`].
pub ghost enum ObjectView {
    SpiceProperty(PropertyView),
    VerilogProperty(PropertyView),
    VhdlProperty(PropertyView),
    TedaXProperty(PropertyView),
    SymbolProperty(PropertyView),
    Arc(ArcView),
    Component(ComponentView),
    Line(LineView),
    Polygon(PolygonView),
    Rectangle(RectangleView),
    Text(TextView),
    Wire(WireView),
}

/// The model of a [`Schematic`].
pub ghost struct SchematicView {
    pub version: PropertyView,
    pub vhdl_property: Option<PropertyView>,
    pub symbol_property: Option<PropertyView>,
    pub verilog_property: Option<PropertyView>,
    pub spice_property: Option<PropertyView>,
    pub tedax_property: Option<PropertyView>,
    pub texts: Seq<TextView>,
    pub lines: Seq<LineView>,
    pub rectangles: Seq<RectangleView>,
    pub polygons: Seq<PolygonView>,
    pub arcs: Seq<ArcView>,
    pub wires: Seq<WireView>,
    pub components: Seq<ComponentView>,
}

impl<'a> View for Arc<'a> {
    type V = ArcView;

    open spec fn view(&self) -> ArcView {
        ArcView {
            layer: self.layer,
            center: self.center@,
            radius: self.radius@,
            start_angle: self.start_angle@,
            sweep_angle: self.sweep_angle@,
            property: self.property@,
        }
    }
}

impl<'a> View for Line<'a> {
    type V = LineView;

    open spec fn view(&self) -> LineView {
        LineView {
            layer: self.layer,
            start: self.start@,
            end: self.end@,
            property: self.property@,
        }
    }
}

impl<'a> View for Rectangle<'a> {
    type V = RectangleView;

    open spec fn view(&self) -> RectangleView {
        RectangleView {
            layer: self.layer,
            start: self.start@,
            end: self.end@,
            property: self.property@,
        }
    }
}

impl<'a> View for Polygon<'a> {
    type V = PolygonView;

    open spec fn view(&self) -> PolygonView {
        PolygonView { layer: self.layer, points: self.points@, property: self.property@ }
    }
}

impl<'a> View for Text<'a> {
    type V = TextView;

    open spec fn view(&self) -> TextView {
        TextView {
            text: self.text@,
            position: self.position@,
            rotation: self.rotation,
            flip: self.flip,
            size: self.size@,
            property: self.property@,
        }
    }
}

impl<'a> View for Wire<'a> {
    type V = WireView;

    open spec fn view(&self) -> WireView {
        WireView { start: self.start@, end: self.end@, property: self.property@ }
    }
}

/// The model of the schematic `s`.
pub open spec fn schematic_view(s: Schematic) -> SchematicView
    decreases s, 0int,
{
    SchematicView {
        version: s.version@,
        vhdl_property: option_view(s.vhdl_property),
        symbol_property: option_view(s.symbol_property),
        verilog_property: option_view(s.verilog_property),
        spice_property: option_view(s.spice_property),
        tedax_property: option_view(s.tedax_property),
        texts: s.texts@,
        lines: s.lines@,
        rectangles: s.rectangles@,
        polygons: s.polygons@,
        arcs: s.arcs@,
        wires: s.wires@,
        components: components_view(s.components.0@, s.components.0@.len() as int),
    }
}

/// The models of the first `n` of the components `cs`.
pub open spec fn components_view(cs: Seq<Component>, n: int) -> Seq<ComponentView>
    decreases cs, n,
{
    if 0 < n <= cs.len() {
        components_view(cs, n - 1).push(component_view(cs[n - 1]))
    } else {
        Seq::empty()
    }
}

/// The model of the component `c`.
pub open spec fn component_view(c: Component) -> ComponentView
    decreases c, 0int,
{
    ComponentView {
        reference: c.reference@,
        position: c.position@,
        rotation: c.rotation,
        flip: c.flip,
        property: c.property@,
        embedding: match c.embedding {
            Some(e) => Some(schematic_view(e.0)),
            None => None,
        },
    }
}

/// The models of the first `n` components are those components' models.
pub proof fn lemma_components_view(cs: Seq<Component>, n: int)
    requires
        0 <= n <= cs.len(),
    ensures
        components_view(cs, n).len() == n,
        forall|i: int| 0 <= i < n ==> (#[trigger] components_view(cs, n)[i]) == component_view(cs[i]),
    decreases n,
{
    if n > 0 {
        lemma_components_view(cs, n - 1);
    }
}

/// The models of components grow with the components.
pub proof fn lemma_components_view_push(cs: Seq<Component>, c: Component)
    ensures
        components_view(cs.push(c), cs.len() as int + 1) == components_view(cs, cs.len() as int).push(
            component_view(c),
        ),
{
    lemma_components_view(cs, cs.len() as int);
    lemma_components_view(cs.push(c), cs.len() as int + 1);
    assert(components_view(cs.push(c), cs.len() as int + 1) =~= components_view(cs, cs.len() as int).push(
        component_view(c),
    ));
}

impl<'a> View for Component<'a> {
    type V = ComponentView;

    open spec fn view(&self) -> ComponentView {
        component_view(*self)
    }
}

impl<'a> View for Embedding<'a> {
    type V = SchematicView;

    open spec fn view(&self) -> SchematicView {
        schematic_view(self.0)
    }
}

impl<O: View> View for Objects<O> {
    type V = Seq<O::V>;

    open spec fn view(&self) -> Seq<O::V> {
        Seq::new(self.0@.len(), |i: int| self.0@[i]@)
    }
}

/// The model of an `Option` of a value with a model.
pub open spec fn option_view<T: View>(o: Option<T>) -> Option<T::V> {
    match o {
        Some(t) => Some(t@),
        None => None,
    }
}

impl<'a> View for Schematic<'a> {
    type V = SchematicView;

    open spec fn view(&self) -> SchematicView {
        schematic_view(*self)
    }
}

impl<'a> View for Object<'a> {
    type V = ObjectView;

    open spec fn view(&self) -> ObjectView {
        match self {
            Object::SpiceProperty(p) => ObjectView::SpiceProperty(p@),
            Object::VerilogProperty(p) => ObjectView::VerilogProperty(p@),
            Object::VhdlProperty(p) => ObjectView::VhdlProperty(p@),
            Object::TedaXProperty(p) => ObjectView::TedaXProperty(p@),
            Object::SymbolProperty(p) => ObjectView::SymbolProperty(p@),
            Object::Arc(o) => ObjectView::Arc(o@),
            Object::Component(o) => ObjectView::Component(o@),
            Object::Line(o) => ObjectView::Line(o@),
            Object::Polygon(o) => ObjectView::Polygon(o@),
            Object::Rectangle(o) => ObjectView::Rectangle(o@),
            Object::Text(o) => ObjectView::Text(o@),
            Object::Wire(o) => ObjectView::Wire(o@),
        }
    }
}

impl Default for Rotation {
    fn default() -> (r: Self)
        ensures
            r == Rotation::Zero,
    {
        Rotation::Zero
    }
}

impl Default for Flip {
    fn default() -> (r: Self)
        ensures
            r == Flip::Unflipped,
    {
        Flip::Unflipped
    }
}

impl Default for FiniteDouble {
    /// Zero.
    fn default() -> (r: Self)
        ensures
            r@ == 0,
    {
        FiniteDouble { bits: 0 }
    }
}

impl Default for Vec2 {
    /// Zero and zero.
    fn default() -> (r: Self)
        ensures
            r@ == (Vec2View { x: 0, y: 0 }),
    {
        Vec2 { x: FiniteDouble::default(), y: FiniteDouble::default() }
    }
}

impl Default for Coordinates {
    /// No points.
    fn default() -> (r: Self)
        ensures
            r@ == Seq::<Vec2View>::empty(),
    {
        let r = Coordinates(Vec::new());
        assert(r@ =~= Seq::empty());
        r
    }
}

impl<O> Default for Objects<O> {
    /// No objects.
    fn default() -> (r: Self)
        ensures
            r.0@ == Seq::<O>::empty(),
    {
        Objects(Vec::new())
    }
}

impl<'a> Default for Attributes<'a> {
    /// No attributes.
    fn default() -> (r: Self)
        ensures
            r@ == Seq::<(SpanView, SpanView)>::empty(),
    {
        Attributes::new()
    }
}

impl PropertyView {
    /// The empty property: no text and no attributes.
    pub open spec fn empty() -> PropertyView {
        PropertyView { prop: SpanView::whole(Seq::empty()), attrs: Seq::empty() }
    }
}

impl<'a> Default for Property<'a> {
    /// The empty property.
    fn default() -> (r: Self)
        ensures
            r@ == PropertyView::empty(),
    {
        Property { prop: Span::default(), attrs: Attributes::new() }
    }
}

impl<'a> Default for Version<'a> {
    /// The empty property.
    fn default() -> (r: Self)
        ensures
            r@ == PropertyView::empty(),
    {
        Version(Property::default())
    }
}

impl<'a> Default for VhdlProperty<'a> {
    /// The empty property.
    fn default() -> (r: Self)
        ensures
            r@ == PropertyView::empty(),
    {
        VhdlProperty(Property::default())
    }
}

impl<'a> Default for SymbolProperty<'a> {
    /// The empty property.
    fn default() -> (r: Self)
        ensures
            r@ == PropertyView::empty(),
    {
        SymbolProperty(Property::default())
    }
}

impl<'a> Default for VerilogProperty<'a> {
    /// The empty property.
    fn default() -> (r: Self)
        ensures
            r@ == PropertyView::empty(),
    {
        VerilogProperty(Property::default())
    }
}

impl<'a> Default for SpiceProperty<'a> {
    /// The empty property.
    fn default() -> (r: Self)
        ensures
            r@ == PropertyView::empty(),
    {
        SpiceProperty(Property::default())
    }
}

impl<'a> Default for TedaXProperty<'a> {
    /// The empty property.
    fn default() -> (r: Self)
        ensures
            r@ == PropertyView::empty(),
    {
        TedaXProperty(Property::default())
    }
}

impl<'a> Default for Arc<'a> {
    /// The arc on layer 0 with every number zero and the empty property.
    fn default() -> (r: Self)
        ensures
            r@ == (ArcView {
                layer: 0,
                center: Vec2View { x: 0, y: 0 },
                radius: 0,
                start_angle: 0,
                sweep_angle: 0,
                property: PropertyView::empty(),
            }),
    {
        Arc {
            layer: 0,
            center: Vec2::default(),
            radius: FiniteDouble::default(),
            start_angle: FiniteDouble::default(),
            sweep_angle: FiniteDouble::default(),
            property: Property::default(),
        }
    }
}

impl<'a> Default for Line<'a> {
    /// The line on layer 0 from zero to zero with the empty property.
    fn default() -> (r: Self)
        ensures
            r@ == (LineView {
                layer: 0,
                start: Vec2View { x: 0, y: 0 },
                end: Vec2View { x: 0, y: 0 },
                property: PropertyView::empty(),
            }),
    {
        Line { layer: 0, start: Vec2::default(), end: Vec2::default(), property: Property::default() }
    }
}

impl<'a> Default for Rectangle<'a> {
    /// The rectangle on layer 0 from zero to zero with the empty property.
    fn default() -> (r: Self)
        ensures
            r@ == (RectangleView {
                layer: 0,
                start: Vec2View { x: 0, y: 0 },
                end: Vec2View { x: 0, y: 0 },
                property: PropertyView::empty(),
            }),
    {
        Rectangle {
            layer: 0,
            start: Vec2::default(),
            end: Vec2::default(),
            property: Property::default(),
        }
    }
}

impl<'a> Default for Polygon<'a> {
    /// The polygon on layer 0 without points, with the empty property.
    fn default() -> (r: Self)
        ensures
            r@ == (PolygonView { layer: 0, points: Seq::empty(), property: PropertyView::empty() }),
    {
        Polygon { layer: 0, points: Coordinates::default(), property: Property::default() }
    }
}

impl<'a> Default for Text<'a> {
    /// The empty text at zero, not rotated, not flipped, of size zero, with
    /// the empty property.
    fn default() -> (r: Self)
        ensures
            r@ == (TextView {
                text: SpanView::whole(Seq::empty()),
                position: Vec2View { x: 0, y: 0 },
                rotation: Rotation::Zero,
                flip: Flip::Unflipped,
                size: Vec2View { x: 0, y: 0 },
                property: PropertyView::empty(),
            }),
    {
        Text {
            text: Span::default(),
            position: Vec2::default(),
            rotation: Rotation::Zero,
            flip: Flip::Unflipped,
            size: Vec2::default(),
            property: Property::default(),
        }
    }
}

impl<'a> Default for Wire<'a> {
    /// The wire from zero to zero with the empty property.
    fn default() -> (r: Self)
        ensures
            r@ == (WireView {
                start: Vec2View { x: 0, y: 0 },
                end: Vec2View { x: 0, y: 0 },
                property: PropertyView::empty(),
            }),
    {
        Wire { start: Vec2::default(), end: Vec2::default(), property: Property::default() }
    }
}

impl<'a> Default for Component<'a> {
    /// The component with an empty reference at zero, not rotated, not
    /// flipped, with the empty property, that embeds nothing.
    fn default() -> (r: Self)
        ensures
            r@ == (ComponentView {
                reference: SpanView::whole(Seq::empty()),
                position: Vec2View { x: 0, y: 0 },
                rotation: Rotation::Zero,
                flip: Flip::Unflipped,
                property: PropertyView::empty(),
                embedding: None,
            }),
    {
        Component {
            reference: Span::default(),
            position: Vec2::default(),
            rotation: Rotation::Zero,
            flip: Flip::Unflipped,
            property: Property::default(),
            embedding: None,
        }
    }
}

impl<'a> Default for Schematic<'a> {
    /// The schematic that holds the empty version and nothing else.
    fn default() -> (r: Self)
        ensures
            r@ == SchematicView::new(PropertyView::empty()),
    {
        Schematic::new(Version::default())
    }
}

impl<'a> Default for Embedding<'a> {
    /// The schematic that holds the empty version and nothing else.
    fn default() -> (r: Self)
        ensures
            r@ == SchematicView::new(PropertyView::empty()),
    {
        Embedding(Schematic::default())
    }
}

/// Whether the attributes `a` are the attributes `b`, whatever their order:
/// there are as many, and every key of `a` has in `b` a value with the same
/// text.
pub open spec fn same_attributes(a: Seq<(SpanView, SpanView)>, b: Seq<(SpanView, SpanView)>) -> bool {
    &&& a.len() == b.len()
    &&& forall|i: int|
        0 <= i < a.len() ==> key_index(b, (#[trigger] a[i]).0.text()) < b.len() && b[key_index(
            b,
            a[i].0.text(),
        )].1.text() == a[i].1.text()
}

impl<'a> PartialEq for Attributes<'a> {
    fn eq(&self, other: &Self) -> (r: bool) {
        if self.pairs.len() != other.pairs.len() {
            return false;
        }
        let mut i: usize = 0;
        while i < self.pairs.len()
            invariant
                i <= self.pairs@.len(),
                self@.len() == self.pairs@.len(),
                other@.len() == other.pairs@.len(),
                self@.len() == other@.len(),
                forall|k: int|
                    0 <= k < i ==> key_index(other@, (#[trigger] self@[k]).0.text()) < other@.len()
                        && other@[key_index(other@, self@[k].0.text())].1.text()
                        == self@[k].1.text(),
            decreases self.pairs.len() - i,
        {
            let (key, value) = self.pairs[i];
            let at = other.position(key.fragment());
            proof {
                assert(self@[i as int] == (key@, value@));
                assert(at == key_index(other@, self@[i as int].0.text()));
            }
            if at >= other.pairs.len() {
                return false;
            }
            proof {
                assert(other@[at as int].1 == other.pairs@[at as int].1@);
            }
            if !bytes_equal(other.pairs[at].1.fragment(), value.fragment()) {
                return false;
            }
            i = i + 1;
        }
        true
    }
}

impl<'a> vstd::std_specs::cmp::PartialEqSpecImpl for Attributes<'a> {
    open spec fn obeys_eq_spec() -> bool {
        true
    }

    open spec fn eq_spec(&self, other: &Self) -> bool {
        same_attributes(self@, other@)
    }
}

impl PartialEq for Vec2 {
    fn eq(&self, other: &Self) -> (r: bool) {
        self.x == other.x && self.y == other.y
    }
}

impl vstd::std_specs::cmp::PartialEqSpecImpl for Vec2 {
    open spec fn obeys_eq_spec() -> bool {
        true
    }

    open spec fn eq_spec(&self, other: &Self) -> bool {
        same_number(self.x@, other.x@) && same_number(self.y@, other.y@)
    }
}

impl PartialEq for Coordinates {
    fn eq(&self, other: &Self) -> (r: bool) {
        self.0 == other.0
    }
}

impl vstd::std_specs::cmp::PartialEqSpecImpl for Coordinates {
    open spec fn obeys_eq_spec() -> bool {
        true
    }

    open spec fn eq_spec(&self, other: &Self) -> bool {
        PartialEqSpec::eq_spec(&self.0, &other.0)
    }
}

impl<'a> PartialEq for Property<'a> {
    fn eq(&self, other: &Self) -> (r: bool) {
        self.prop == other.prop && self.attrs == other.attrs
    }
}

impl<'a> vstd::std_specs::cmp::PartialEqSpecImpl for Property<'a> {
    open spec fn obeys_eq_spec() -> bool {
        true
    }

    open spec fn eq_spec(&self, other: &Self) -> bool {
        self.prop@.text() == other.prop@.text() && same_attributes(self.attrs@, other.attrs@)
    }
}

impl<'a> PartialEq for Version<'a> {
    fn eq(&self, other: &Self) -> (r: bool) {
        self.0 == other.0
    }
}

impl<'a> vstd::std_specs::cmp::PartialEqSpecImpl for Version<'a> {
    open spec fn obeys_eq_spec() -> bool {
        true
    }

    open spec fn eq_spec(&self, other: &Self) -> bool {
        PartialEqSpec::eq_spec(&self.0, &other.0)
    }
}

impl<'a> PartialEq for VhdlProperty<'a> {
    fn eq(&self, other: &Self) -> (r: bool) {
        self.0 == other.0
    }
}

impl<'a> vstd::std_specs::cmp::PartialEqSpecImpl for VhdlProperty<'a> {
    open spec fn obeys_eq_spec() -> bool {
        true
    }

    open spec fn eq_spec(&self, other: &Self) -> bool {
        PartialEqSpec::eq_spec(&self.0, &other.0)
    }
}

impl<'a> PartialEq for SymbolProperty<'a> {
    fn eq(&self, other: &Self) -> (r: bool) {
        self.0 == other.0
    }
}

impl<'a> vstd::std_specs::cmp::PartialEqSpecImpl for SymbolProperty<'a> {
    open spec fn obeys_eq_spec() -> bool {
        true
    }

    open spec fn eq_spec(&self, other: &Self) -> bool {
        PartialEqSpec::eq_spec(&self.0, &other.0)
    }
}

impl<'a> PartialEq for VerilogProperty<'a> {
    fn eq(&self, other: &Self) -> (r: bool) {
        self.0 == other.0
    }
}

impl<'a> vstd::std_specs::cmp::PartialEqSpecImpl for VerilogProperty<'a> {
    open spec fn obeys_eq_spec() -> bool {
        true
    }

    open spec fn eq_spec(&self, other: &Self) -> bool {
        PartialEqSpec::eq_spec(&self.0, &other.0)
    }
}

impl<'a> PartialEq for SpiceProperty<'a> {
    fn eq(&self, other: &Self) -> (r: bool) {
        self.0 == other.0
    }
}

impl<'a> vstd::std_specs::cmp::PartialEqSpecImpl for SpiceProperty<'a> {
    open spec fn obeys_eq_spec() -> bool {
        true
    }

    open spec fn eq_spec(&self, other: &Self) -> bool {
        PartialEqSpec::eq_spec(&self.0, &other.0)
    }
}

impl<'a> PartialEq for TedaXProperty<'a> {
    fn eq(&self, other: &Self) -> (r: bool) {
        self.0 == other.0
    }
}

impl<'a> vstd::std_specs::cmp::PartialEqSpecImpl for TedaXProperty<'a> {
    open spec fn obeys_eq_spec() -> bool {
        true
    }

    open spec fn eq_spec(&self, other: &Self) -> bool {
        PartialEqSpec::eq_spec(&self.0, &other.0)
    }
}

impl<'a> PartialEq for Arc<'a> {
    fn eq(&self, other: &Self) -> (r: bool) {
        self.layer == other.layer
            && self.center == other.center
            && self.radius == other.radius
            && self.start_angle == other.start_angle
            && self.sweep_angle == other.sweep_angle
            && self.property == other.property
    }
}

impl<'a> vstd::std_specs::cmp::PartialEqSpecImpl for Arc<'a> {
    open spec fn obeys_eq_spec() -> bool {
        true
    }

    open spec fn eq_spec(&self, other: &Self) -> bool {
        self.layer == other.layer
            && PartialEqSpec::eq_spec(&self.center, &other.center)
            && PartialEqSpec::eq_spec(&self.radius, &other.radius)
            && PartialEqSpec::eq_spec(&self.start_angle, &other.start_angle)
            && PartialEqSpec::eq_spec(&self.sweep_angle, &other.sweep_angle)
            && PartialEqSpec::eq_spec(&self.property, &other.property)
    }
}

impl<'a> PartialEq for Line<'a> {
    fn eq(&self, other: &Self) -> (r: bool) {
        self.layer == other.layer
            && self.start == other.start
            && self.end == other.end
            && self.property == other.property
    }
}

impl<'a> vstd::std_specs::cmp::PartialEqSpecImpl for Line<'a> {
    open spec fn obeys_eq_spec() -> bool {
        true
    }

    open spec fn eq_spec(&self, other: &Self) -> bool {
        self.layer == other.layer
            && PartialEqSpec::eq_spec(&self.start, &other.start)
            && PartialEqSpec::eq_spec(&self.end, &other.end)
            && PartialEqSpec::eq_spec(&self.property, &other.property)
    }
}

impl<'a> PartialEq for Rectangle<'a> {
    fn eq(&self, other: &Self) -> (r: bool) {
        self.layer == other.layer
            && self.start == other.start
            && self.end == other.end
            && self.property == other.property
    }
}

impl<'a> vstd::std_specs::cmp::PartialEqSpecImpl for Rectangle<'a> {
    open spec fn obeys_eq_spec() -> bool {
        true
    }

    open spec fn eq_spec(&self, other: &Self) -> bool {
        self.layer == other.layer
            && PartialEqSpec::eq_spec(&self.start, &other.start)
            && PartialEqSpec::eq_spec(&self.end, &other.end)
            && PartialEqSpec::eq_spec(&self.property, &other.property)
    }
}

impl<'a> PartialEq for Polygon<'a> {
    fn eq(&self, other: &Self) -> (r: bool) {
        self.layer == other.layer && self.points == other.points && self.property == other.property
    }
}

impl<'a> vstd::std_specs::cmp::PartialEqSpecImpl for Polygon<'a> {
    open spec fn obeys_eq_spec() -> bool {
        true
    }

    open spec fn eq_spec(&self, other: &Self) -> bool {
        self.layer == other.layer
            && PartialEqSpec::eq_spec(&self.points, &other.points)
            && PartialEqSpec::eq_spec(&self.property, &other.property)
    }
}

impl<'a> PartialEq for Text<'a> {
    fn eq(&self, other: &Self) -> (r: bool) {
        self.text == other.text
            && self.position == other.position
            && self.rotation == other.rotation
            && self.flip == other.flip
            && self.size == other.size
            && self.property == other.property
    }
}

impl<'a> vstd::std_specs::cmp::PartialEqSpecImpl for Text<'a> {
    open spec fn obeys_eq_spec() -> bool {
        true
    }

    open spec fn eq_spec(&self, other: &Self) -> bool {
        PartialEqSpec::eq_spec(&self.text, &other.text)
            && PartialEqSpec::eq_spec(&self.position, &other.position)
            && self.rotation == other.rotation
            && self.flip == other.flip
            && PartialEqSpec::eq_spec(&self.size, &other.size)
            && PartialEqSpec::eq_spec(&self.property, &other.property)
    }
}

impl<'a> PartialEq for Wire<'a> {
    fn eq(&self, other: &Self) -> (r: bool) {
        self.start == other.start && self.end == other.end && self.property == other.property
    }
}

impl<'a> vstd::std_specs::cmp::PartialEqSpecImpl for Wire<'a> {
    open spec fn obeys_eq_spec() -> bool {
        true
    }

    open spec fn eq_spec(&self, other: &Self) -> bool {
        PartialEqSpec::eq_spec(&self.start, &other.start)
            && PartialEqSpec::eq_spec(&self.end, &other.end)
            && PartialEqSpec::eq_spec(&self.property, &other.property)
    }
}

/// Whether the components `a` and `b` are equal: their fields are, and so
/// is what they embed.
pub open spec fn component_equal(a: Component, b: Component) -> bool
    decreases a, 0int,
{
    &&& PartialEqSpec::eq_spec(&a.reference, &b.reference)
    &&& PartialEqSpec::eq_spec(&a.position, &b.position)
    &&& a.rotation == b.rotation
    &&& a.flip == b.flip
    &&& PartialEqSpec::eq_spec(&a.property, &b.property)
    &&& match a.embedding {
        Some(e) => match b.embedding {
            Some(f) => schematic_equal(e.0, f.0),
            None => false,
        },
        None => b.embedding is None,
    }
}

/// Whether the first `n` of the components `a` are equal to the first `n`
/// of the components `b`, one by one.
pub open spec fn components_equal(a: Seq<Component>, b: Seq<Component>, n: int) -> bool
    decreases a, n,
{
    if 0 < n <= a.len() {
        components_equal(a, b, n - 1) && component_equal(a[n - 1], b[n - 1])
    } else {
        true
    }
}

/// Whether the schematics `a` and `b` are equal: the versions are, the
/// properties of the schematic are, and the objects of each kind are, one by
/// one. Texts are equal where their bytes are; where they lie does not count.
pub open spec fn schematic_equal(a: Schematic, b: Schematic) -> bool
    decreases a, 1int,
{
    &&& PartialEqSpec::eq_spec(&a.version, &b.version)
    &&& PartialEqSpec::eq_spec(&a.vhdl_property, &b.vhdl_property)
    &&& PartialEqSpec::eq_spec(&a.symbol_property, &b.symbol_property)
    &&& PartialEqSpec::eq_spec(&a.verilog_property, &b.verilog_property)
    &&& PartialEqSpec::eq_spec(&a.spice_property, &b.spice_property)
    &&& PartialEqSpec::eq_spec(&a.tedax_property, &b.tedax_property)
    &&& PartialEqSpec::eq_spec(&a.texts.0, &b.texts.0)
    &&& PartialEqSpec::eq_spec(&a.lines.0, &b.lines.0)
    &&& PartialEqSpec::eq_spec(&a.rectangles.0, &b.rectangles.0)
    &&& PartialEqSpec::eq_spec(&a.polygons.0, &b.polygons.0)
    &&& PartialEqSpec::eq_spec(&a.arcs.0, &b.arcs.0)
    &&& PartialEqSpec::eq_spec(&a.wires.0, &b.wires.0)
    &&& a.components.0@.len() == b.components.0@.len()
    &&& components_equal(a.components.0@, b.components.0@, a.components.0@.len() as int)
}

/// Decides whether two schematics are equal.
pub fn schematic_eq<'a, 'b>(a: &Schematic<'a>, b: &Schematic<'b>) -> (r: bool)
    ensures
        r == schematic_equal(*a, *b),
    decreases a, 1int,
{
    if !(a.version == b.version && a.vhdl_property == b.vhdl_property && a.symbol_property
        == b.symbol_property && a.verilog_property == b.verilog_property && a.spice_property
        == b.spice_property && a.tedax_property == b.tedax_property) {
        return false;
    }
    if !(a.texts.0 == b.texts.0 && a.lines.0 == b.lines.0 && a.rectangles.0 == b.rectangles.0
        && a.polygons.0 == b.polygons.0 && a.arcs.0 == b.arcs.0 && a.wires.0 == b.wires.0) {
        return false;
    }
    let n = a.components.0.len();
    if n != b.components.0.len() {
        return false;
    }
    let mut i: usize = 0;
    while i < n
        invariant
            i <= n,
            n == a.components.0@.len(),
            n == b.components.0@.len(),
            components_equal(a.components.0@, b.components.0@, i as int),
        decreases n - i,
    {
        if !component_eq(&a.components.0[i], &b.components.0[i]) {
            proof {
                lemma_components_unequal(a.components.0@, b.components.0@, i as int, n as int);
            }
            return false;
        }
        i = i + 1;
    }
    true
}

/// Components of which two at the same place are not equal are not equal.
pub proof fn lemma_components_unequal(a: Seq<Component>, b: Seq<Component>, at: int, n: int)
    requires
        0 <= at < n <= a.len(),
        !component_equal(a[at], b[at]),
    ensures
        !components_equal(a, b, n),
    decreases n,
{
    if at < n - 1 {
        lemma_components_unequal(a, b, at, n - 1);
    }
}

/// Decides whether two components are equal.
pub fn component_eq<'a, 'b>(a: &Component<'a>, b: &Component<'b>) -> (r: bool)
    ensures
        r == component_equal(*a, *b),
    decreases a, 0int,
{
    if !(a.reference == b.reference && a.position == b.position && a.rotation == b.rotation
        && a.flip == b.flip && a.property == b.property) {
        return false;
    }
    match (&a.embedding, &b.embedding) {
        (Some(x), Some(y)) => schematic_eq(&x.0, &y.0),
        (None, None) => true,
        _ => false,
    }
}

impl<'a> PartialEq for Component<'a> {
    fn eq(&self, other: &Self) -> (r: bool) {
        component_eq(self, other)
    }
}

impl<'a> vstd::std_specs::cmp::PartialEqSpecImpl for Component<'a> {
    open spec fn obeys_eq_spec() -> bool {
        true
    }

    open spec fn eq_spec(&self, other: &Self) -> bool {
        component_equal(*self, *other)
    }
}

impl<'a> PartialEq for Embedding<'a> {
    fn eq(&self, other: &Self) -> (r: bool) {
        schematic_eq(&self.0, &other.0)
    }
}

impl<'a> vstd::std_specs::cmp::PartialEqSpecImpl for Embedding<'a> {
    open spec fn obeys_eq_spec() -> bool {
        true
    }

    open spec fn eq_spec(&self, other: &Self) -> bool {
        schematic_equal(self.0, other.0)
    }
}

impl<'a> PartialEq for Schematic<'a> {
    fn eq(&self, other: &Self) -> (r: bool) {
        schematic_eq(self, other)
    }
}

impl<'a> vstd::std_specs::cmp::PartialEqSpecImpl for Schematic<'a> {
    open spec fn obeys_eq_spec() -> bool {
        true
    }

    open spec fn eq_spec(&self, other: &Self) -> bool {
        schematic_equal(*self, *other)
    }
}

impl SchematicView {
    /// The schematic that holds the version and nothing else.
    pub open spec fn new(version: PropertyView) -> SchematicView {
        SchematicView {
            version,
            vhdl_property: None,
            symbol_property: None,
            verilog_property: None,
            spice_property: None,
            tedax_property: None,
            texts: Seq::empty(),
            lines: Seq::empty(),
            rectangles: Seq::empty(),
            polygons: Seq::empty(),
            arcs: Seq::empty(),
            wires: Seq::empty(),
            components: Seq::empty(),
        }
    }

    /// The schematic after `object` was read: a property takes its slot,
    /// whatever the slot held; any other object is added after those of its
    /// kind.
    pub open spec fn add_object(self, object: ObjectView) -> SchematicView {
        match object {
            ObjectView::VhdlProperty(p) => SchematicView { vhdl_property: Some(p), ..self },
            ObjectView::SymbolProperty(p) => SchematicView { symbol_property: Some(p), ..self },
            ObjectView::VerilogProperty(p) => SchematicView { verilog_property: Some(p), ..self },
            ObjectView::SpiceProperty(p) => SchematicView { spice_property: Some(p), ..self },
            ObjectView::TedaXProperty(p) => SchematicView { tedax_property: Some(p), ..self },
            ObjectView::Arc(o) => SchematicView { arcs: self.arcs.push(o), ..self },
            ObjectView::Component(o) => SchematicView {
                components: self.components.push(o),
                ..self
            },
            ObjectView::Line(o) => SchematicView { lines: self.lines.push(o), ..self },
            ObjectView::Polygon(o) => SchematicView { polygons: self.polygons.push(o), ..self },
            ObjectView::Rectangle(o) => SchematicView {
                rectangles: self.rectangles.push(o),
                ..self
            },
            ObjectView::Text(o) => SchematicView { texts: self.texts.push(o), ..self },
            ObjectView::Wire(o) => SchematicView { wires: self.wires.push(o), ..self },
        }
    }
}

impl<'a> Schematic<'a> {
    /// The schematic that holds the version and nothing else.
    pub fn new(version: Version<'a>) -> (r: Self)
        ensures
            r@ == SchematicView::new(version@),
    {
        let r = Schematic {
            version,
            vhdl_property: None,
            symbol_property: None,
            verilog_property: None,
            spice_property: None,
            tedax_property: None,
            texts: Objects(Vec::new()),
            lines: Objects(Vec::new()),
            rectangles: Objects(Vec::new()),
            polygons: Objects(Vec::new()),
            arcs: Objects(Vec::new()),
            wires: Objects(Vec::new()),
            components: Objects(Vec::new()),
        };
        assert(r@.texts =~= Seq::empty());
        assert(r@.lines =~= Seq::empty());
        assert(r@.rectangles =~= Seq::empty());
        assert(r@.polygons =~= Seq::empty());
        assert(r@.arcs =~= Seq::empty());
        assert(r@.wires =~= Seq::empty());
        r
    }

    /// Takes `object` into the schematic: a property takes its slot,
    /// whatever the slot held; any other object is added after those of its
    /// kind.
    #[must_use]
    pub fn add_object(self, object: Object<'a>) -> (r: Self)
        ensures
            r@ == self@.add_object(object@),
    {
        let mut s = self;
        let ghost before = s@;
        match object {
            Object::VhdlProperty(p) => {
                s.vhdl_property = Some(p);
            },
            Object::SymbolProperty(p) => {
                s.symbol_property = Some(p);
            },
            Object::VerilogProperty(p) => {
                s.verilog_property = Some(p);
            },
            Object::SpiceProperty(p) => {
                s.spice_property = Some(p);
            },
            Object::TedaXProperty(p) => {
                s.tedax_property = Some(p);
            },
            Object::Arc(o) => {
                s.arcs.0.push(o);
                assert(s@.arcs =~= before.arcs.push(o@));
            },
            Object::Component(o) => {
                proof {
                    lemma_components_view_push(s.components.0@, o);
                }
                s.components.0.push(o);
            },
            Object::Line(o) => {
                s.lines.0.push(o);
                assert(s@.lines =~= before.lines.push(o@));
            },
            Object::Polygon(o) => {
                s.polygons.0.push(o);
                assert(s@.polygons =~= before.polygons.push(o@));
            },
            Object::Rectangle(o) => {
                s.rectangles.0.push(o);
                assert(s@.rectangles =~= before.rectangles.push(o@));
            },
            Object::Text(o) => {
                s.texts.0.push(o);
                assert(s@.texts =~= before.texts.push(o@));
            },
            Object::Wire(o) => {
                s.wires.0.push(o);
                assert(s@.wires =~= before.wires.push(o@));
            },
        }
        s
    }
}

} // verus!
