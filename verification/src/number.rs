//! Conversion between the text of a number and its binary64 bit pattern.
//!
//! The library never computes with floating-point values. It holds a number as
//! the 64 bits of its IEEE 754 encoding and leaves the two conversions, text
//! to bits and bits to text, to code outside its proofs.
use vstd::prelude::*;

verus! {

/// The bit pattern of the binary64 value that `nom::number::complete::double`
/// reads at the beginning of `text`, or `None` where it reads none.
pub uninterp spec fn double_value(text: Seq<u8>) -> Option<u64>;

/// The text that the standard library's `Display` writes for the binary64
/// value with the bit pattern `bits`.
pub uninterp spec fn double_text(bits: u64) -> Seq<u8>;

/// Trusted: calls `nom::number::complete::double` on `text` and returns the
/// bit pattern of the value it read, or `None` if it read none. The contract
/// only gives that result its name, [`double_value`]; nothing is claimed of
/// which value comes out.
#[verifier::external_body]
pub(crate) fn read_double(text: &[u8]) -> (r: Option<u64>)
    ensures
        r == double_value(text@),
{
    match nom::number::complete::double::<&[u8], ()>(text) {
        Ok((_, value)) => Some(value.to_bits()),
        Err(_) => None,
    }
}

/// Trusted: formats the binary64 value with the bit pattern `bits` with the
/// standard library's `Display`, after `nom::number::complete::be_f64` has
/// turned the eight bytes of the pattern into the value. The contract only
/// gives the text its name, [`double_text`].
#[verifier::external_body]
pub(crate) fn write_double(bits: u64) -> (r: Vec<u8>)
    ensures
        r@ == double_text(bits),
{
    match nom::number::complete::be_f64::<&[u8], ()>(&bits.to_be_bytes()) {
        Ok((_, value)) => format!("{}", value).into_bytes(),
        Err(_) => Vec::new(),
    }
}

} // verus!
