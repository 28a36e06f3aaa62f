//! What both sides of the module agree on.

use vstd::prelude::*;

verus! {

/// The name of the module's kind.
pub const KIND: &'static str = "amm";

/// A version of the consensus rules.
#[derive(Debug, Clone, Copy, PartialEq, Eq, Structural)]
pub struct ModuleConsensusVersion {
    pub major: u32,
    pub minor: u32,
}

/// The version of the consensus rules that this module runs.
pub fn module_consensus_version() -> (r: ModuleConsensusVersion)
    ensures
        r == (ModuleConsensusVersion { major: 0, minor: 0 }),
{
    ModuleConsensusVersion { major: 0, minor: 0 }
}

/// The module's types, as one thing to name.
#[derive(Debug, Clone, Copy, PartialEq, Eq, Structural)]
pub struct AmmModuleTypes;

/// What client and server share of the module's setup.
#[derive(Debug, Clone, Copy, PartialEq, Eq, Structural)]
pub struct AmmCommonInit;

impl AmmCommonInit {
    /// The name of the module's kind.
    pub fn kind() -> (r: &'static str)
        ensures
            r@ == "amm"@,
    {
        "amm"
    }
}

} // verus!
