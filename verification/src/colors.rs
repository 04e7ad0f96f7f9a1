//! The escape sequences that colour text on a terminal.

use vstd::prelude::*;

verus! {

/// The colours of a report, as ANSI escape sequences.
pub struct BColors;

impl BColors {
    pub const OKCYAN: &'static str = "\x1b[96m";

    pub const OKGREEN: &'static str = "\x1b[92m";

    pub const WARNING: &'static str = "\x1b[93m";

    pub const ENDC: &'static str = "\x1b[0m";
}

} // verus!
