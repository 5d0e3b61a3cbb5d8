//! The Python package generator.

use vstd::prelude::*;
use crate::text::natural_key;

pub mod syntax;
pub mod wrapper;

verus! {

/// The natural ordering key of a name (digit runs padded to twenty digits).
pub fn natural_sort_key(value: &str) -> (r: String)
    ensures
        r@ == natural_key(value@),
{
    crate::text::natural_sort_key(value)
}

} // verus!
