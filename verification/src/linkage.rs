use vstd::prelude::*;

verus! {

/// How a symbol is visible outside the module.
#[derive(Debug, Clone, Copy, PartialEq, Eq, Structural)]
pub enum Linkage {
    /// Defined here and visible to other modules.
    Public,
    /// Defined here and visible only inside the module.
    Private,
    /// Declared here, defined elsewhere.
    External,
}

} // verus!
