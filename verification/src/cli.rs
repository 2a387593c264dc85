//! Command-line options of the viewer.

use vstd::prelude::*;

verus! {

/// Options given on the command line.
#[derive(Debug, Clone)]
pub struct Cli {
    /// Run without UI elements and console output.
    pub no_ui: bool,
}

impl Cli {
    /// The options when none is given: the UI is shown.
    pub fn defaults() -> (c: Self)
        ensures
            !c.no_ui,
    {
        Cli { no_ui: false }
    }

    /// Whether the UI and console output are shown.
    pub fn shows_ui(&self) -> (b: bool)
        ensures
            b == !self.no_ui,
    {
        !self.no_ui
    }
}

} // verus!
