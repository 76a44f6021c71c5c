use vstd::prelude::*;

verus! {

/// Settings for reporting an archive's metadata: the archive to read.
pub struct Options {
    pub input_file: String,
}

} // verus!
