//! The options of an invocation.

use vstd::prelude::*;

verus! {

/// What the command line sets for every workflow.
#[derive(Debug, Clone, Copy)]
pub struct CliOptions {
    /// Whether to print more, and plainly.
    pub is_debug: bool,
    /// The time in seconds after which a connection is given up.
    pub timeout: u64,
}

impl Default for CliOptions {
    /// No debugging, and thirty seconds to connect.
    fn default() -> (r: CliOptions)
        ensures
            r == (CliOptions { is_debug: false, timeout: 30 }),
    {
        CliOptions { is_debug: false, timeout: 30 }
    }
}

} // verus!
