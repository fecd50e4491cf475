//! Resolved command-line configuration for one run.

use vstd::prelude::*;
use vstd::string::StringExecFns;

verus! {

/// The configuration of one run, resolved once at startup and never
/// mutated afterwards: the two report destinations and the two
/// colon-separated search-path lists.
pub struct BingraphArgs {
    /// Output location for the constructed graph JSON.
    pub output: String,
    /// Output location for the constructed GraphViz rendering; an empty
    /// string disables that output.
    pub output_graphviz: String,
    /// Path string searched through for acquiring binaries.
    pub bin_path: String,
    /// Path string searched through for acquiring shared libraries.
    pub lib_path: String,
}

impl BingraphArgs {
    /// The single search-path string handed to the directory scanner:
    /// `bin_path`, then `lib_path`, joined by a colon.
    pub fn search_path(&self) -> (r: String)
        ensures
            r@ == self.bin_path@ + ":"@ + self.lib_path@,
    {
        let mut total = self.bin_path.clone();
        total.append(":");
        total.append(self.lib_path.as_str());
        total
    }
}

} // verus!
