//! How much a decoder may do on behalf of bytes that nobody has checked.

use vstd::prelude::*;

verus! {

/// Levels of nesting that the standard limits allow below a top-level term.
pub const MAX_DEPTH: usize = 256;

/// Most bytes that a compressed envelope may inflate to under the standard
/// limits.
pub const MAX_INFLATED_LEN: usize = 0x400_0000;

/// What a decoder may still do below the term that it is decoding.
#[derive(Clone, Copy, Debug)]
pub struct Limits {
    /// Levels of nesting that may still be entered. Every container with at
    /// least one child, and every compressed envelope, enters one.
    pub depth: usize,
    /// Most bytes that a compressed envelope may inflate to, whatever size it
    /// announces; `None` where compressed envelopes are not accepted, and
    /// their tag is a tag like any other that has no decoder.
    pub inflate: Option<usize>,
}

/// The limits that `from_bytes` and `parser` decode with.
pub open spec fn standard_limits() -> Limits {
    Limits { depth: MAX_DEPTH, inflate: Some(MAX_INFLATED_LEN) }
}

/// The limits one level further down.
pub open spec fn deeper(limits: Limits) -> Limits
    recommends
        limits.depth > 0,
{
    Limits { depth: (limits.depth - 1) as usize, inflate: limits.inflate }
}

impl Limits {
    /// The limits for the children of a term that was decoded with `self`.
    pub fn below(self) -> (r: Limits)
        requires
            self.depth > 0,
        ensures
            r == deeper(self),
    {
        Limits { depth: self.depth - 1, inflate: self.inflate }
    }
}

impl Default for Limits {
    fn default() -> (r: Limits)
        ensures
            r == standard_limits(),
    {
        Limits { depth: MAX_DEPTH, inflate: Some(MAX_INFLATED_LEN) }
    }
}

} // verus!
