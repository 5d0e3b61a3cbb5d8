//! Generated files.

use vstd::prelude::*;

verus! {

/// A file produced by a generator, relative to its output directory.
pub struct GeneratedFile {
    pub path: String,
    pub contents: String,
}

impl GeneratedFile {
    pub fn new(path: String, contents: String) -> (f: GeneratedFile)
        ensures
            f.path@ == path@,
            f.contents@ == contents@,
    {
        GeneratedFile { path, contents }
    }
}

} // verus!
