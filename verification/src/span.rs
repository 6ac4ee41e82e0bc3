//! Located views into an input buffer.
//!
//! A [`Span`] is a window `start..end` into a borrowed byte buffer. Parsers
//! never copy input: everything a parsed entity says about text is a span, and
//! a span can always tell where in the buffer it lies, on which line, and in
//! which column.
use vstd::prelude::*;
use vstd::slice::slice_subrange;

verus! {

/// The byte that ends a line.
pub const NEWLINE: u8 = 0x0a;

/// The mathematical model of a [`Span`]: a buffer and a window into it.
pub ghost struct SpanView {
    /// The whole buffer the span was cut from.
    pub source: Seq<u8>,
    /// Offset of the first byte of the window.
    pub start: int,
    /// Offset just past the last byte of the window.
    pub end: int,
}

/// Number of line feeds among the first `upto` bytes of `s`.
pub open spec fn newlines_before(s: Seq<u8>, upto: int) -> nat
    decreases upto,
{
    if upto <= 0 {
        0
    } else {
        newlines_before(s, upto - 1) + if s[upto - 1] == NEWLINE {
            1nat
        } else {
            0nat
        }
    }
}

/// Offset at which the line holding offset `at` begins: just after the
/// nearest line feed before `at`, or 0 when there is none.
pub open spec fn line_start(s: Seq<u8>, at: int) -> int
    decreases at,
{
    if at <= 0 {
        0
    } else if s[at - 1] == NEWLINE {
        at
    } else {
        line_start(s, at - 1)
    }
}

/// Offset of the first line feed in `at..end`, or `end` when there is none.
pub open spec fn line_end(s: Seq<u8>, at: int, end: int) -> int
    decreases end - at,
{
    if at >= end {
        end
    } else if s[at] == NEWLINE {
        at
    } else {
        line_end(s, at + 1, end)
    }
}

/// Whether `b` continues a multi-byte UTF-8 sequence (its two top bits are `10`).
pub open spec fn is_continuation(b: u8) -> bool {
    0x80 <= b < 0xc0
}

/// Number of bytes in `s[from..to]` that start a character, that is, that
/// are not UTF-8 continuation bytes.
pub open spec fn scalars_between(s: Seq<u8>, from: int, to: int) -> nat
    decreases to - from,
{
    if to <= from {
        0
    } else {
        scalars_between(s, from, to - 1) + if is_continuation(s[to - 1]) {
            0nat
        } else {
            1nat
        }
    }
}

/// `n` as a machine word, or the largest machine word when `n` does not fit.
pub open spec fn clamp_usize(n: int) -> usize {
    if n <= usize::MAX {
        n as usize
    } else {
        usize::MAX
    }
}

impl SpanView {
    /// The window lies inside the buffer.
    pub open spec fn wf(self) -> bool {
        0 <= self.start <= self.end <= self.source.len()
    }

    /// The span that covers all of `source`.
    pub open spec fn whole(source: Seq<u8>) -> SpanView {
        SpanView { source, start: 0, end: source.len() as int }
    }

    /// Number of bytes in the window.
    pub open spec fn len(self) -> nat {
        if self.end >= self.start {
            (self.end - self.start) as nat
        } else {
            0
        }
    }

    /// The bytes of the window.
    pub open spec fn text(self) -> Seq<u8> {
        self.source.subrange(self.start, self.end)
    }

    /// The `k`-th byte of the window.
    pub open spec fn byte(self, k: int) -> u8 {
        self.source[self.start + k]
    }

    /// Whether the window is non-empty and begins with `b`.
    pub open spec fn starts_with(self, b: u8) -> bool {
        self.len() > 0 && self.byte(0) == b
    }

    /// The window without its first `n` bytes.
    pub open spec fn skip(self, n: nat) -> SpanView {
        SpanView { source: self.source, start: self.start + n, end: self.end }
    }

    /// The first `n` bytes of the window.
    pub open spec fn take(self, n: nat) -> SpanView {
        SpanView { source: self.source, start: self.start, end: self.start + n }
    }

    /// The empty window at the end of this one.
    pub open spec fn tail(self) -> SpanView {
        SpanView { source: self.source, start: self.end, end: self.end }
    }

    /// 1-based number of the line on which the window starts.
    pub open spec fn line(self) -> nat {
        newlines_before(self.source, self.start) + 1
    }

    /// 1-based column of the start of the window, counted in characters.
    pub open spec fn column(self) -> nat {
        scalars_between(self.source, line_start(self.source, self.start), self.start) + 1
    }

    /// The line on which the window starts: from the beginning of that line
    /// to its line feed, but never past the end of the window.
    pub open spec fn line_text(self) -> Seq<u8> {
        self.source.subrange(
            line_start(self.source, self.start),
            line_end(self.source, self.start, self.end),
        )
    }
}

/// A window into a borrowed byte buffer.
///
/// The window always lies inside the buffer; the fields are private so that
/// this cannot be broken from outside.
#[derive(Clone, Copy, Debug)]
pub struct Span<'a> {
    source: &'a [u8],
    start: usize,
    end: usize,
}

impl<'a> View for Span<'a> {
    type V = SpanView;

    closed spec fn view(&self) -> SpanView {
        SpanView { source: self.source@, start: self.start as int, end: self.end as int }
    }
}

/// The line start never lies after the offset it was asked for.
pub proof fn lemma_line_start_bounds(s: Seq<u8>, at: int)
    requires
        0 <= at,
    ensures
        0 <= line_start(s, at) <= at,
    decreases at,
{
    if at > 0 && s[at - 1] != NEWLINE {
        lemma_line_start_bounds(s, at - 1);
    }
}

/// The line end lies between the offset and the limit it was asked for.
pub proof fn lemma_line_end_bounds(s: Seq<u8>, at: int, end: int)
    requires
        at <= end,
    ensures
        at <= line_end(s, at, end) <= end,
    decreases end - at,
{
    if at < end && s[at] != NEWLINE {
        lemma_line_end_bounds(s, at + 1, end);
    }
}

/// Whether two byte strings are equal.
pub fn bytes_equal(a: &[u8], b: &[u8]) -> (r: bool)
    ensures
        r == (a@ == b@),
{
    if a.len() != b.len() {
        return false;
    }
    let mut i: usize = 0;
    while i < a.len()
        invariant
            i <= a.len(),
            a.len() == b.len(),
            forall|k: int| 0 <= k < i ==> a@[k] == b@[k],
        decreases a.len() - i,
    {
        if a[i] != b[i] {
            return false;
        }
        i = i + 1;
    }
    assert(a@ =~= b@);
    true
}

impl<'a> Default for Span<'a> {
    /// The empty span over an empty buffer.
    fn default() -> (r: Self)
        ensures
            r@ == SpanView::whole(Seq::empty()),
    {
        let empty: &'static [u8] = &[];
        assert(empty@ =~= Seq::<u8>::empty());
        Span { source: empty, start: 0, end: 0 }
    }
}

impl<'a> PartialEq for Span<'a> {
    fn eq(&self, other: &Self) -> (r: bool) {
        bytes_equal(self.fragment(), other.fragment())
    }
}

impl<'a> vstd::std_specs::cmp::PartialEqSpecImpl for Span<'a> {
    open spec fn obeys_eq_spec() -> bool {
        true
    }

    open spec fn eq_spec(&self, other: &Self) -> bool {
        self@.text() == other@.text()
    }
}

impl<'a> Span<'a> {
    #[verifier::type_invariant]
    spec fn inside(self) -> bool {
        self.start <= self.end <= self.source@.len()
    }

    /// A span over the whole of `input`.
    pub fn new(input: &'a [u8]) -> (r: Self)
        ensures
            r@ == SpanView::whole(input@),
    {
        Span { source: input, start: 0, end: input.len() }
    }

    /// The bytes of the window.
    pub fn fragment(&self) -> (r: &'a [u8])
        ensures
            r@ == self@.text(),
            self@.wf(),
    {
        proof {
            use_type_invariant(self);
        }
        slice_subrange(self.source, self.start, self.end)
    }

    /// Number of bytes in the window.
    pub fn input_len(&self) -> (r: usize)
        ensures
            r == self@.len(),
            self@.wf(),
    {
        proof {
            use_type_invariant(self);
        }
        self.end - self.start
    }

    /// Offset of the window in its buffer.
    pub fn location_offset(&self) -> (r: usize)
        ensures
            r == self@.start,
            self@.wf(),
    {
        proof {
            use_type_invariant(self);
        }
        self.start
    }

    /// The byte at position `k` of the window.
    pub fn byte_at(&self, k: usize) -> (r: u8)
        requires
            k < self@.len(),
        ensures
            r == self@.byte(k as int),
    {
        proof {
            use_type_invariant(self);
        }
        self.source[self.start + k]
    }

    /// The first byte of the window, if it has one.
    pub fn first(&self) -> (r: Option<u8>)
        ensures
            self@.wf(),
            r == if self@.len() > 0 {
                Some(self@.byte(0))
            } else {
                None
            },
    {
        proof {
            use_type_invariant(self);
        }
        if self.start < self.end {
            Some(self.source[self.start])
        } else {
            None
        }
    }

    /// The first `n` bytes of the window.
    pub fn take(&self, n: usize) -> (r: Span<'a>)
        requires
            n <= self@.len(),
        ensures
            r@ == self@.take(n as nat),
            self@.wf(),
    {
        proof {
            use_type_invariant(self);
        }
        Span { source: self.source, start: self.start, end: self.start + n }
    }

    /// The window without its first `n` bytes.
    pub fn take_from(&self, n: usize) -> (r: Span<'a>)
        requires
            n <= self@.len(),
        ensures
            r@ == self@.skip(n as nat),
            self@.wf(),
    {
        proof {
            use_type_invariant(self);
        }
        Span { source: self.source, start: self.start + n, end: self.end }
    }

    /// How many bytes the window `later`, which starts in this window's
    /// buffer at or after this window's start, starts after this one.
    pub fn offset(&self, later: &Span<'a>) -> (r: usize)
        requires
            self@.start <= later@.start,
        ensures
            r == later@.start - self@.start,
    {
        later.start - self.start
    }

    /// 1-based number of the line on which the window starts.
    pub fn location_line(&self) -> (r: usize)
        ensures
            r == clamp_usize(self@.line() as int),
    {
        proof {
            use_type_invariant(self);
        }
        let mut count: usize = 0;
        let mut i: usize = 0;
        while i < self.start
            invariant
                i <= self.start <= self.source@.len(),
                count == newlines_before(self.source@, i as int),
                count <= i,
            decreases self.start - i,
        {
            if self.source[i] == NEWLINE {
                count = count + 1;
            }
            i = i + 1;
        }
        count.saturating_add(1)
    }

    /// Offset at which the line holding the start of the window begins.
    fn line_begin(&self) -> (r: usize)
        ensures
            r == line_start(self@.source, self@.start),
            r <= self@.start,
    {
        proof {
            use_type_invariant(self);
        }
        let mut i: usize = self.start;
        while i > 0 && self.source[i - 1] != NEWLINE
            invariant
                i <= self.start,
                self.start <= self.source@.len(),
                line_start(self.source@, self.start as int) == line_start(
                    self.source@,
                    i as int,
                ),
            decreases i,
        {
            i = i - 1;
        }
        i
    }

    /// 1-based column of the start of the window, counted in characters:
    /// every byte that is not a UTF-8 continuation byte counts as one.
    pub fn get_utf8_column(&self) -> (r: usize)
        ensures
            r == clamp_usize(self@.column() as int),
    {
        proof {
            use_type_invariant(self);
        }
        let begin = self.line_begin();
        let mut count: usize = 0;
        let mut i: usize = begin;
        while i < self.start
            invariant
                begin <= i <= self.start <= self.source@.len(),
                count == scalars_between(self.source@, begin as int, i as int),
                count <= i - begin,
            decreases self.start - i,
        {
            let b = self.source[i];
            if !(0x80 <= b && b < 0xc0) {
                count = count + 1;
            }
            i = i + 1;
        }
        count.saturating_add(1)
    }

    /// The line on which the window starts, without its line feed and never
    /// reaching past the end of the window.
    pub fn get_line_beginning(&self) -> (r: &'a [u8])
        ensures
            r@ == self@.line_text(),
    {
        proof {
            use_type_invariant(self);
        }
        let begin = self.line_begin();
        let mut i: usize = self.start;
        while i < self.end && self.source[i] != NEWLINE
            invariant
                self.start <= i <= self.end <= self.source@.len(),
                line_end(self.source@, self.start as int, self.end as int) == line_end(
                    self.source@,
                    i as int,
                    self.end as int,
                ),
            decreases self.end - i,
        {
            i = i + 1;
        }
        slice_subrange(self.source, begin, i)
    }
}

} // verus!
