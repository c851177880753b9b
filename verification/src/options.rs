//! Where the engine keeps its state and where outputs go.

use vstd::prelude::*;
use vstd::string::*;

verus! {

/// The directories that a run works with.
pub struct Options {
    /// Where queued writes are materialised.
    pub output_dir: String,
    /// Where cache, graph and objects are kept between runs.
    pub cache_dir: String,
}

impl Options {
    /// The directories used where none are given: `./dist` for outputs and
    /// `./.driver_cache` for the state.
    pub fn new() -> (options: Self)
        ensures
            options.output_dir@ == "./dist"@,
            options.cache_dir@ == "./.driver_cache"@,
    {
        Options { output_dir: "./dist".to_owned(), cache_dir: "./.driver_cache".to_owned() }
    }
}

} // verus!
