//! The Python extension generator built on the C sources.

use vstd::prelude::*;
use crate::model::Output;

pub mod wrapper;

verus! {

/// The number of values a core function returns.
pub fn output_count(output: &Output) -> (r: usize)
    ensures
        r == match output {
            Output::Scalar => 1,
            Output::Struct(fields) => fields.len(),
        },
{
    match output {
        Output::Scalar => 1,
        Output::Struct(fields) => fields.len(),
    }
}

} // verus!
