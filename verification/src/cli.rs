//! What the user asks of a run.

use vstd::prelude::*;

verus! {

/// What a run looks for, besides the files that nothing refers to.
#[derive(Debug)]
pub struct Options {
    /// The directory of the project.
    pub path: String,
    /// Whether what is found unused is to be deleted.
    pub remove: bool,
    /// Whether unused assets are looked for.
    pub assets: bool,
    /// Whether unused dependencies are looked for.
    pub deps: bool,
    /// Whether unused labels are looked for.
    pub labels: bool,
    /// Whether unused registrations with the locator are looked for.
    pub loc: bool,
}

} // verus!
