//! The markers that a preview puts around each replaced span.

use vstd::prelude::*;

verus! {

/// The bytes that switch a terminal to blue: `ESC [ 3 4 m`.
pub open spec fn start_marker() -> Seq<u8> {
    seq![0x1bu8, 0x5bu8, 0x33u8, 0x34u8, 0x6du8]
}

/// The bytes that switch a terminal back to its normal style: `ESC [ 0 m`.
pub open spec fn end_marker() -> Seq<u8> {
    seq![0x1bu8, 0x5bu8, 0x30u8, 0x6du8]
}

/// Formats `ansi_term::Color::Blue.prefix()`, which writes the escape
/// sequence for a blue foreground.
#[verifier::external_body]
pub(crate) fn highlight_start() -> (r: Vec<u8>)
    ensures
        r@ == start_marker(),
{
    ansi_term::Color::Blue.prefix().to_string().into_bytes()
}

/// Formats `ansi_term::Color::Blue.suffix()`, which writes the reset
/// sequence.
#[verifier::external_body]
pub(crate) fn highlight_end() -> (r: Vec<u8>)
    ensures
        r@ == end_marker(),
{
    ansi_term::Color::Blue.suffix().to_string().into_bytes()
}

} // verus!
