//! What can go wrong while a replacer is built.

use crate::template::InvalidReplaceCapture;
use vstd::prelude::*;

verus! {

/// Why no replacer could be built.
#[derive(Debug)]
pub enum PatternError {
    /// The engine does not accept the pattern under the options asked for.
    Compile(regex::Error),
    /// The replacement names a capture group that the pattern does not have.
    InvalidReplaceCapture(InvalidReplaceCapture),
}

} // verus!
