//! The tool's own configuration: the values a configuration document can
//! set.  Loading and deserializing the document is the caller's business;
//! the typed value lives here.
use vstd::prelude::*;

verus! {

/// The configuration values the tool reads.
#[derive(Clone, Copy, Debug, PartialEq, Eq, Structural)]
pub struct Config {
    /// After how many offences an address is blocked.
    pub block_after_times: i32,
}

impl Config {
    /// A configuration holding the given values.
    pub fn new(block_after_times: i32) -> (r: Config)
        ensures
            r.block_after_times == block_after_times,
    {
        Config { block_after_times }
    }
}

} // verus!
