//! Options the program around the library collects from its command line.

use vstd::prelude::*;

verus! {

/// The program's options: the one required input file path.
pub struct ArgOptions {
    pub filename: String,
}

impl Default for ArgOptions {
    /// Options with an empty file path.
    fn default() -> (r: ArgOptions)
        ensures
            r.filename@ == Seq::<char>::empty(),
    {
        ArgOptions { filename: String::new() }
    }
}

} // verus!
