//! Output settings of the command line over the service API.

use vstd::prelude::*;

verus! {

/// Output format mode.
#[derive(Debug, Clone, Copy, PartialEq, Eq, Structural)]
pub enum OutputFormat {
    Plain,
    Json,
}

} // verus!
