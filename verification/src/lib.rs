//! Parser for Xschem schematic and symbol files, up to file version 1.2.
//!
//! [`from_str`] and [`from_slice`] parse a [`token::Schematic`] from a string
//! or from bytes. Nothing is copied: what the schematic says about text are
//! [`Span`]s that borrow the input. [`from_str_file`] and [`from_slice_file`]
//! take the name of the file as well, which an error then shows.
//!
//! What the parsers accept is laid down in [`grammar`]; the parsers of
//! [`parse`] are proved to compute it. Symbols may be embedded in one another
//! as deep as [`grammar::MAX_DEPTH`]; a symbol that is embedded deeper is an
//! error, which bounds how deep the parser calls itself.
//!
//! [`render`] writes a schematic out again. What holds of every parsed
//! schematic is proved in [`laws`], and that its text parses back to it in
//! [`roundtrip`], for a schematic whose numbers are written as they are read,
//! which [`fidelity`] decides.
use vstd::prelude::*;
use vstd::string::StringSliceAdditionalSpecFns;

pub mod convert;
pub mod copy;
pub mod error;
pub mod fidelity;
pub mod grammar;
pub mod laws;
pub mod number;
pub mod order;
pub mod parse;
pub mod render;
pub mod roundtrip;
pub mod span;
pub mod token;

pub use crate::span::Span;

use crate::error::{Error, ErrorView};
use crate::span::SpanView;
use crate::token::{Schematic, SchematicView};

verus! {

/// The schematic that the bytes `source` hold as a whole, or why they hold
/// none. Symbols are embedded in it no deeper than `grammar::MAX_DEPTH`.
pub open spec fn parsed(source: Seq<u8>) -> Result<SchematicView, ErrorView> {
    grammar::schematic_full(SpanView::whole(source))
}

/// The schematic that the bytes `source` of the file `path` hold as a whole,
/// or why they hold none.
pub open spec fn parsed_file(source: Seq<u8>, path: Seq<char>) -> Result<SchematicView, ErrorView> {
    match parsed(source) {
        Ok(s) => Ok(s),
        Err(e) => Err(e.in_file(path)),
    }
}

/// Whether `r` is the outcome `p`: the schematic with that model, or the
/// error with that model.
pub open spec fn is_outcome<'a>(
    r: Result<Schematic<'a>, Error<'a>>,
    p: Result<SchematicView, ErrorView>,
) -> bool {
    match r {
        Ok(s) => p == Ok::<SchematicView, ErrorView>(s@),
        Err(e) => p == Err::<SchematicView, ErrorView>(e@),
    }
}

/// Parses a schematic from a string.
pub fn from_str<'a>(s: &'a str) -> (r: Result<Schematic<'a>, Error<'a>>)
    ensures
        is_outcome(r, parsed(s.spec_bytes())),
{
    Schematic::parse_str(s)
}

/// Parses a schematic from bytes.
pub fn from_slice<'a>(s: &'a [u8]) -> (r: Result<Schematic<'a>, Error<'a>>)
    ensures
        is_outcome(r, parsed(s@)),
{
    Schematic::parse_slice(s)
}

/// Parses a schematic from a string that was read from the file `path`.
pub fn from_str_file<'a>(s: &'a str, path: &'a str) -> (r: Result<Schematic<'a>, Error<'a>>)
    ensures
        is_outcome(r, parsed_file(s.spec_bytes(), path@)),
{
    Schematic::parse_str_with_extra(s, path)
}

/// Parses a schematic from bytes that were read from the file `path`.
pub fn from_slice_file<'a>(s: &'a [u8], path: &'a str) -> (r: Result<Schematic<'a>, Error<'a>>)
    ensures
        is_outcome(r, parsed_file(s@, path@)),
{
    Schematic::parse_slice_with_extra(s, path)
}

impl<'a> Schematic<'a> {
    /// Parses a string as a schematic.
    pub fn parse_str(input: &'a str) -> (r: Result<Self, Error<'a>>)
        ensures
            is_outcome(r, parsed(input.spec_bytes())),
    {
        Self::parse_span(Span::new(input.as_bytes()))
    }

    /// Parses a string as a schematic; `extra` is the name of the file that
    /// the string was read from.
    pub fn parse_str_with_extra(input: &'a str, extra: &'a str) -> (r: Result<Self, Error<'a>>)
        ensures
            is_outcome(r, parsed_file(input.spec_bytes(), extra@)),
    {
        match Self::parse_span(Span::new(input.as_bytes())) {
            Ok(s) => Ok(s),
            Err(e) => Err(e.with_path(extra)),
        }
    }

    /// Parses bytes as a schematic.
    pub fn parse_slice(input: &'a [u8]) -> (r: Result<Self, Error<'a>>)
        ensures
            is_outcome(r, parsed(input@)),
    {
        Self::parse_span(Span::new(input))
    }

    /// Parses bytes as a schematic; `extra` is the name of the file that the
    /// bytes were read from.
    pub fn parse_slice_with_extra(input: &'a [u8], extra: &'a str) -> (r: Result<Self, Error<'a>>)
        ensures
            is_outcome(r, parsed_file(input@, extra@)),
    {
        match Self::parse_span(Span::new(input)) {
            Ok(s) => Ok(s),
            Err(e) => Err(e.with_path(extra)),
        }
    }

    /// Parses the whole of a span as a schematic.
    pub fn parse_span(input: Span<'a>) -> (r: Result<Self, Error<'a>>)
        ensures
            is_outcome(r, grammar::schematic_full(input@)),
    {
        parse::schematic_full(input)
    }
}

} // verus!
