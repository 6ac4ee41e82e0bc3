//! Parse errors: what failed, where, and inside which named parts of the
//! grammar.
use vstd::prelude::*;
use vstd::string::StringExecFns;
use vstd::utf8::{decode_utf8, valid_utf8};

use crate::span::{clamp_usize, Span, SpanView};

verus! {

/// The families of lexical primitives that can fail.
#[derive(Clone, Copy, Debug, PartialEq, Eq, Structural)]
pub enum Primitive {
    /// A decimal digit was required, or a number does not fit its type.
    Digit,
    /// A space or a tab was required.
    Space,
    /// Whitespace (space, tab, carriage return or line feed) was required.
    MultiSpace,
    /// The end of the input was required.
    Eof,
    /// At least one character of a class was required.
    TakeWhile1,
    /// A backslash is followed by nothing that may be escaped.
    Escaped,
    /// A number is shaped like a floating-point literal but has no finite
    /// value.
    Float,
    /// A repeated part matched without consuming input.
    Many0,
    /// A value was read that may not stand where it stands.
    Verify,
    /// A symbol is embedded deeper than symbols may be.
    TooLarge,
}

/// What a parser was looking for when it failed.
#[derive(Clone, Copy, Debug, PartialEq, Eq, Structural)]
pub enum ErrorKind {
    /// This character was expected.
    Char(char),
    /// A lexical primitive failed.
    Nom(Primitive),
}

/// The place of a failure and its kind.
#[derive(Clone, Copy, Debug)]
pub struct ErrorInput<'a> {
    /// The input that was left when the failure occurred.
    pub input: Span<'a>,
    /// What was being looked for.
    pub kind: ErrorKind,
}

/// A named part of the grammar that was entered but not completed.
#[derive(Clone, Copy, Debug)]
pub struct InputContext<'a> {
    /// The input at which the part began.
    pub input: Span<'a>,
    /// The name of the part.
    pub name: &'static str,
}

/// A parse error: the innermost failure and the parts of the grammar that
/// were being parsed around it, innermost first.
#[derive(Clone, Debug)]
pub struct Error<'a> {
    /// The innermost failure.
    pub err: ErrorInput<'a>,
    /// The parts of the grammar around the failure, innermost first.
    pub context: Vec<InputContext<'a>>,
    /// The name of the file the input came from, if it is known.
    pub path: Option<&'a str>,
}

/// Why a parser did not produce a value.
#[derive(Clone, Debug)]
pub enum Rejection<'a> {
    /// The parser does not match here; an alternative may still match.
    Error(Error<'a>),
    /// The parser had committed to this input; no alternative is tried.
    Failure(Error<'a>),
}

/// The model of an [`ErrorInput`].
pub ghost struct ErrorInputView {
    pub input: SpanView,
    pub kind: ErrorKind,
}

/// The model of an [`InputContext`].
pub ghost struct InputContextView {
    pub input: SpanView,
    pub name: Seq<char>,
}

/// The model of an [`Error`].
pub ghost struct ErrorView {
    pub err: ErrorInputView,
    pub context: Seq<InputContextView>,
    pub path: Option<Seq<char>>,
}

impl ErrorView {
    /// The error of kind `kind` at `input`, outside any named part.
    pub open spec fn leaf(input: SpanView, kind: ErrorKind) -> ErrorView {
        ErrorView {
            err: ErrorInputView { input, kind },
            context: Seq::empty(),
            path: None,
        }
    }

    /// This error, seen from the part `name` that began at `input`.
    pub open spec fn within(self, input: SpanView, name: Seq<char>) -> ErrorView {
        ErrorView {
            err: self.err,
            context: self.context.push(InputContextView { input, name }),
            path: self.path,
        }
    }

    /// This error, for input that came from the file `path`.
    pub open spec fn in_file(self, path: Seq<char>) -> ErrorView {
        ErrorView { err: self.err, context: self.context, path: Some(path) }
    }
}

impl<'a> View for ErrorInput<'a> {
    type V = ErrorInputView;

    open spec fn view(&self) -> ErrorInputView {
        ErrorInputView { input: self.input@, kind: self.kind }
    }
}

impl<'a> View for InputContext<'a> {
    type V = InputContextView;

    open spec fn view(&self) -> InputContextView {
        InputContextView { input: self.input@, name: self.name@ }
    }
}

impl<'a> View for Error<'a> {
    type V = ErrorView;

    open spec fn view(&self) -> ErrorView {
        ErrorView {
            err: self.err@,
            context: Seq::new(self.context@.len(), |i: int| self.context@[i]@),
            path: match self.path {
                Some(p) => Some(p@),
                None => None,
            },
        }
    }
}

impl<'a> Error<'a> {
    /// The error of a failed lexical primitive at `input`.
    pub fn from_error_kind(input: Span<'a>, kind: Primitive) -> (r: Self)
        ensures
            r@ == ErrorView::leaf(input@, ErrorKind::Nom(kind)),
    {
        let r = Error {
            err: ErrorInput { input, kind: ErrorKind::Nom(kind) },
            context: Vec::new(),
            path: None,
        };
        assert(r@.context =~= Seq::empty());
        r
    }

    /// The error of a missing character `c` at `input`.
    pub fn from_char(input: Span<'a>, c: char) -> (r: Self)
        ensures
            r@ == ErrorView::leaf(input@, ErrorKind::Char(c)),
    {
        let r = Error {
            err: ErrorInput { input, kind: ErrorKind::Char(c) },
            context: Vec::new(),
            path: None,
        };
        assert(r@.context =~= Seq::empty());
        r
    }

    /// Combines an error with the failure of the combinator around it: the
    /// inner error is kept as it is.
    pub fn append(input: Span<'a>, kind: Primitive, other: Self) -> (r: Self)
        ensures
            r == other,
    {
        other
    }

    /// The error of a failed conversion at `input`; the cause is dropped.
    pub fn from_external_error<E>(input: Span<'a>, kind: Primitive, e: E) -> (r: Self)
        ensures
            r@ == ErrorView::leaf(input@, ErrorKind::Nom(kind)),
    {
        Error::from_error_kind(input, kind)
    }

    /// Records that `other` occurred inside the part `name` that began at
    /// `input`.
    pub fn add_context(input: Span<'a>, name: &'static str, other: Self) -> (r: Self)
        ensures
            r@ == other@.within(input@, name@),
    {
        let mut other = other;
        let ghost before = other@;
        other.context.push(InputContext { input, name });
        assert(other@.context =~= before.context.push(InputContextView { input: input@, name: name@ }));
        other
    }

    /// Records the name of the file that the input came from.
    pub fn with_path(self, path: &'a str) -> (r: Self)
        ensures
            r@ == self@.in_file(path@),
    {
        let r = Error { err: self.err, context: self.context, path: Some(path) };
        assert(r@.context =~= self@.context);
        r
    }
}

/// How a failed primitive is described in a diagnostic.
pub open spec fn description(kind: Primitive) -> Seq<char> {
    match kind {
        Primitive::Digit => "Digit"@,
        Primitive::Space => "Space"@,
        Primitive::MultiSpace => "Multiple spaces"@,
        Primitive::Eof => "End of file"@,
        Primitive::TakeWhile1 => "TakeWhile1"@,
        Primitive::Escaped => "Escaped"@,
        Primitive::Float => "Float"@,
        Primitive::Many0 => "Many0"@,
        Primitive::Verify => "predicate verification"@,
        Primitive::TooLarge => "Needed data size is too large"@,
    }
}

/// Trusted: `nom::error::ErrorKind::description` on the error kind of nom
/// that has the name of `kind`. The contract states the ten texts that
/// nom has for these kinds.
#[verifier::external_body]
pub(crate) fn describe(kind: Primitive) -> (r: String)
    ensures
        r@ == description(kind),
{
    let kind = match kind {
        Primitive::Digit => nom::error::ErrorKind::Digit,
        Primitive::Space => nom::error::ErrorKind::Space,
        Primitive::MultiSpace => nom::error::ErrorKind::MultiSpace,
        Primitive::Eof => nom::error::ErrorKind::Eof,
        Primitive::TakeWhile1 => nom::error::ErrorKind::TakeWhile1,
        Primitive::Escaped => nom::error::ErrorKind::Escaped,
        Primitive::Float => nom::error::ErrorKind::Float,
        Primitive::Many0 => nom::error::ErrorKind::Many0,
        Primitive::Verify => nom::error::ErrorKind::Verify,
        Primitive::TooLarge => nom::error::ErrorKind::TooLarge,
    };
    kind.description().to_string()
}

/// Trusted: `std::str::from_utf8`, which returns the string that `bytes`
/// encode exactly when they are valid UTF-8.
#[verifier::external_body]
pub(crate) fn from_utf8<'a>(bytes: &'a [u8]) -> (r: Option<&'a str>)
    ensures
        match r {
            Some(s) => valid_utf8(bytes@) && s@ == decode_utf8(bytes@),
            None => !valid_utf8(bytes@),
        },
{
    std::str::from_utf8(bytes).ok()
}

/// Trusted: `String::push` from the standard library, which adds one
/// character to the end of a string.
#[verifier::external_body]
pub(crate) fn push_char(out: &mut String, c: char)
    ensures
        final(out)@ == old(out)@.push(c),
{
    out.push(c)
}

/// The decimal digit `d`.
pub open spec fn digit_text(d: nat) -> Seq<char> {
    if d == 0 {
        "0"@
    } else if d == 1 {
        "1"@
    } else if d == 2 {
        "2"@
    } else if d == 3 {
        "3"@
    } else if d == 4 {
        "4"@
    } else if d == 5 {
        "5"@
    } else if d == 6 {
        "6"@
    } else if d == 7 {
        "7"@
    } else if d == 8 {
        "8"@
    } else {
        "9"@
    }
}

/// The decimal digits of `n`.
pub open spec fn number_text(n: nat) -> Seq<char>
    decreases n,
{
    if n < 10 {
        digit_text(n)
    } else {
        number_text(n / 10) + digit_text(n % 10)
    }
}

/// How many decimal digits `n` has.
pub open spec fn digit_count(n: nat) -> nat
    decreases n,
{
    if n < 10 {
        1
    } else {
        1 + digit_count(n / 10)
    }
}

/// `n` spaces.
pub open spec fn spaces(n: nat) -> Seq<char>
    decreases n,
{
    if n == 0 {
        Seq::empty()
    } else {
        spaces((n - 1) as nat) + " "@
    }
}

/// The name of the file and a colon, where the file is known.
pub open spec fn path_text(path: Option<Seq<char>>) -> Seq<char> {
    match path {
        Some(p) => p + ":"@,
        None => Seq::empty(),
    }
}

/// The line that `x` starts on, for display: the text if it is valid UTF-8.
pub open spec fn source_line(x: SpanView) -> Seq<char> {
    if valid_utf8(x.line_text()) {
        decode_utf8(x.line_text())
    } else {
        "<invalid UTF-8>"@
    }
}

/// The five lines that show where `x` starts: an arrow with the file, the
/// line and the column; the line itself between two empty lines, with its
/// number in front; and a caret under the column. The gutter is one wider
/// than the line number.
pub open spec fn location_text(x: SpanView, path: Option<Seq<char>>) -> Seq<char> {
    let line = clamp_usize(x.line() as int) as nat;
    let column = clamp_usize(x.column() as int) as nat;
    let margin = spaces(digit_count(line) + 1) + " |"@;
    spaces(digit_count(line) + 1) + "--> "@ + path_text(path) + number_text(line) + ":"@
        + number_text(column) + "\n"@ + margin + "\n"@ + " "@ + number_text(line) + " | "@
        + source_line(x) + "\n"@ + margin + spaces(column) + "^"@ + "\n"@ + margin
}

/// What was being looked for.
pub open spec fn kind_text(kind: ErrorKind) -> Seq<char> {
    match kind {
        ErrorKind::Char(c) => "expected '"@.push(c) + "'"@,
        ErrorKind::Nom(p) => description(p),
    }
}

/// A failure: its kind and where it occurred.
pub open spec fn failure_text(e: ErrorInputView, path: Option<Seq<char>>) -> Seq<char> {
    "error: "@ + kind_text(e.kind) + "\n"@ + location_text(e.input, path)
}

/// A part of the grammar around a failure: its name and where it began.
pub open spec fn frame_text(c: InputContextView, path: Option<Seq<char>>) -> Seq<char> {
    "in "@ + c.name + "\n"@ + location_text(c.input, path)
}

/// The first `n` frames, each after a line feed.
pub open spec fn frames_text(
    frames: Seq<InputContextView>,
    path: Option<Seq<char>>,
    n: nat,
) -> Seq<char>
    decreases n,
{
    if n == 0 {
        Seq::empty()
    } else {
        frames_text(frames, path, (n - 1) as nat) + "\n"@ + frame_text(frames[n - 1], path)
    }
}

/// A diagnostic: the failure, and then the parts of the grammar around it,
/// innermost first. The last line is not ended.
pub open spec fn error_text(e: ErrorView) -> Seq<char> {
    failure_text(e.err, e.path) + frames_text(e.context, e.path, e.context.len())
}

/// `(a + b) + c` is `a + (b + c)`.
pub proof fn lemma_concat_chars(a: Seq<char>, b: Seq<char>, c: Seq<char>)
    ensures
        (a + b) + c == a + (b + c),
{
    assert((a + b) + c =~= a + (b + c));
}

/// The view of an optional path.
pub open spec fn path_view(path: Option<&str>) -> Option<Seq<char>> {
    match path {
        Some(p) => Some(p@),
        None => None,
    }
}

/// Adds `n` spaces to the end of `out`.
fn append_spaces(out: &mut String, n: usize)
    ensures
        final(out)@ == old(out)@ + spaces(n as nat),
{
    let mut i: usize = 0;
    assert(out@ =~= old(out)@ + spaces(0));
    while i < n
        invariant
            i <= n,
            out@ == old(out)@ + spaces(i as nat),
        decreases n - i,
    {
        out.append(" ");
        proof {
            lemma_concat_chars(old(out)@, spaces(i as nat), " "@);
        }
        i = i + 1;
    }
}

/// The text of the decimal digit `d`.
fn digit(d: usize) -> (r: &'static str)
    requires
        d < 10,
    ensures
        r@ == digit_text(d as nat),
{
    if d == 0 {
        "0"
    } else if d == 1 {
        "1"
    } else if d == 2 {
        "2"
    } else if d == 3 {
        "3"
    } else if d == 4 {
        "4"
    } else if d == 5 {
        "5"
    } else if d == 6 {
        "6"
    } else if d == 7 {
        "7"
    } else if d == 8 {
        "8"
    } else {
        "9"
    }
}

/// Adds the decimal digits of `n` to the end of `out`.
fn append_number(out: &mut String, n: usize)
    ensures
        final(out)@ == old(out)@ + number_text(n as nat),
    decreases n,
{
    if n >= 10 {
        append_number(out, n / 10);
        out.append(digit(n % 10));
        proof {
            lemma_concat_chars(
                old(out)@,
                number_text((n / 10) as nat),
                digit_text((n % 10) as nat),
            );
        }
    } else {
        out.append(digit(n));
    }
}

/// How many decimal digits `n` has.
fn count_digits(n: usize) -> (r: usize)
    ensures
        r == digit_count(n as nat),
        1 <= r <= usize::MAX / 9 + 1,
{
    let mut count: usize = 1;
    let mut rest: usize = n;
    while rest >= 10
        invariant
            1 <= count,
            digit_count(n as nat) == count - 1 + digit_count(rest as nat),
            (count - 1) * 9 + rest <= n,
        decreases rest,
    {
        rest = rest / 10;
        count = count + 1;
    }
    count
}

/// Adds the five lines that show where `input` starts to the end of `out`.
fn append_location<'a>(out: &mut String, input: Span<'a>, path: Option<&str>)
    ensures
        final(out)@ == old(out)@ + location_text(input@, path_view(path)),
{
    let line = input.location_line();
    let column = input.get_utf8_column();
    let width = count_digits(line) + 1;
    let ghost base = old(out)@;
    let ghost margin = spaces(width as nat) + " |"@;
    let ghost x = input@;
    let ghost p = path_view(path);

    append_spaces(out, width);
    let ghost t0 = spaces(width as nat);
    out.append("--> ");
    let ghost t1 = t0 + "--> "@;
    proof {
        lemma_concat_chars(base, t0, "--> "@);
    }
    match path {
        Some(name) => {
            let ghost held = out@;
            out.append(name);
            out.append(":");
            proof {
                lemma_concat_chars(held, name@, ":"@);
            }
        },
        None => {
            assert(out@ =~= out@ + Seq::<char>::empty());
        },
    }
    let ghost t2 = t1 + path_text(p);
    proof {
        lemma_concat_chars(base, t1, path_text(p));
    }
    append_number(out, line);
    let ghost t3 = t2 + number_text(line as nat);
    proof {
        lemma_concat_chars(base, t2, number_text(line as nat));
    }
    out.append(":");
    let ghost t4 = t3 + ":"@;
    proof {
        lemma_concat_chars(base, t3, ":"@);
    }
    append_number(out, column);
    let ghost t5 = t4 + number_text(column as nat);
    proof {
        lemma_concat_chars(base, t4, number_text(column as nat));
    }
    out.append("\n");
    let ghost t6 = t5 + "\n"@;
    proof {
        lemma_concat_chars(base, t5, "\n"@);
    }
    append_margin(out, width);
    let ghost t7 = t6 + margin;
    proof {
        lemma_concat_chars(base, t6, margin);
    }
    out.append("\n");
    let ghost t8 = t7 + "\n"@;
    proof {
        lemma_concat_chars(base, t7, "\n"@);
    }
    out.append(" ");
    let ghost t9 = t8 + " "@;
    proof {
        lemma_concat_chars(base, t8, " "@);
    }
    append_number(out, line);
    let ghost t10 = t9 + number_text(line as nat);
    proof {
        lemma_concat_chars(base, t9, number_text(line as nat));
    }
    out.append(" | ");
    let ghost t11 = t10 + " | "@;
    proof {
        lemma_concat_chars(base, t10, " | "@);
    }
    match from_utf8(input.get_line_beginning()) {
        Some(text) => out.append(text),
        None => out.append("<invalid UTF-8>"),
    }
    let ghost t12 = t11 + source_line(x);
    proof {
        lemma_concat_chars(base, t11, source_line(x));
    }
    out.append("\n");
    let ghost t13 = t12 + "\n"@;
    proof {
        lemma_concat_chars(base, t12, "\n"@);
    }
    append_margin(out, width);
    let ghost t14 = t13 + margin;
    proof {
        lemma_concat_chars(base, t13, margin);
    }
    append_spaces(out, column);
    let ghost t15 = t14 + spaces(column as nat);
    proof {
        lemma_concat_chars(base, t14, spaces(column as nat));
    }
    out.append("^");
    let ghost t16 = t15 + "^"@;
    proof {
        lemma_concat_chars(base, t15, "^"@);
    }
    out.append("\n");
    let ghost t17 = t16 + "\n"@;
    proof {
        lemma_concat_chars(base, t16, "\n"@);
    }
    append_margin(out, width);
    proof {
        lemma_concat_chars(base, t17, margin);
    }
}

/// Adds the gutter of an empty line, `width` spaces and a bar, to the end
/// of `out`.
fn append_margin(out: &mut String, width: usize)
    ensures
        final(out)@ == old(out)@ + (spaces(width as nat) + " |"@),
{
    append_spaces(out, width);
    out.append(" |");
    proof {
        lemma_concat_chars(old(out)@, spaces(width as nat), " |"@);
    }
}

/// Adds a line feed and a part of the grammar around a failure to the end
/// of `out`.
fn append_frame<'a>(out: &mut String, frame: &InputContext<'a>, path: Option<&str>)
    ensures
        final(out)@ == old(out)@ + ("\n"@ + frame_text(frame@, path_view(path))),
{
    let ghost base = old(out)@;
    let ghost place = location_text(frame.input@, path_view(path));
    out.append("\n");
    out.append("in ");
    proof {
        lemma_concat_chars(base, "\n"@, "in "@);
    }
    out.append(frame.name);
    proof {
        lemma_concat_chars(base, "\n"@ + "in "@, frame.name@);
    }
    out.append("\n");
    proof {
        lemma_concat_chars(base, "\n"@ + "in "@ + frame.name@, "\n"@);
    }
    append_location(out, frame.input, path);
    proof {
        lemma_concat_chars(base, "\n"@ + "in "@ + frame.name@ + "\n"@, place);
        assert("\n"@ + "in "@ + frame.name@ + "\n"@ + place =~= "\n"@ + ("in "@ + frame.name@
            + "\n"@ + place));
    }
}

impl ErrorKind {
    /// What was being looked for, in words.
    pub fn to_string(&self) -> (r: String)
        ensures
            r@ == kind_text(*self),
    {
        match self {
            ErrorKind::Char(c) => {
                let mut out = String::from_str("expected '");
                push_char(&mut out, *c);
                out.append("'");
                out
            },
            ErrorKind::Nom(p) => describe(*p),
        }
    }
}

impl<'a> Error<'a> {
    /// The diagnostic for this error: the failure, and the parts of the
    /// grammar around it, each with the line that it points into.
    pub fn to_string(&self) -> (r: String)
        ensures
            r@ == error_text(self@),
    {
        let mut out = String::from_str("error: ");
        let kind = self.err.kind.to_string();
        out.append(kind.as_str());
        out.append("\n");
        append_location(&mut out, self.err.input, self.path);
        proof {
            let p = path_view(self.path);
            lemma_concat_chars("error: "@ + kind@, "\n"@, location_text(self.err.input@, p));
            assert(out@ == failure_text(self@.err, self@.path));
            assert(out@ =~= failure_text(self@.err, self@.path) + frames_text(
                self@.context,
                self@.path,
                0,
            ));
        }
        let n = self.context.len();
        let mut i: usize = 0;
        while i < n
            invariant
                i <= n,
                n == self.context@.len(),
                out@ == failure_text(self@.err, self@.path) + frames_text(
                    self@.context,
                    self@.path,
                    i as nat,
                ),
            decreases n - i,
        {
            let ghost p = path_view(self.path);
            let ghost head = failure_text(self@.err, self@.path);
            let ghost done = frames_text(self@.context, self@.path, i as nat);
            let ghost frame = frame_text(self@.context[i as int], p);
            append_frame(&mut out, &self.context[i], self.path);
            proof {
                lemma_concat_chars(head, done, "\n"@ + frame);
                lemma_concat_chars(done, "\n"@, frame);
            }
            i = i + 1;
        }
        out
    }
}

} // verus!
