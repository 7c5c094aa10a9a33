//! The key to a picture's colours: a swatch and what wearing it means.

use vstd::prelude::*;

use crate::atoms::stage::{painted, spec_painted, Paint};

verus! {

/// One entry: a colour, and what a thing wearing it is.
#[derive(Clone, Copy, PartialEq, Eq, Debug)]
pub struct Key {
    pub ink: Paint,
    pub means: &'static str,
}

/// An entry's swatch.
pub fn swatch(key: &Key) -> (s: String)
    ensures
        s@ == spec_painted("background"@, key.ink),
{
    painted("background", key.ink)
}

} // verus!
