//! Contract kinds, enforcement modes, and mode resolution.

use vstd::prelude::*;
use crate::text::str_eq;

verus! {

/// Checking-mode of a contract.
#[derive(Clone, Copy, PartialEq, Eq, Structural, Debug)]
pub enum ContractMode {
    /// Always check the contract.
    Always,
    /// Never check the contract.
    Disabled,
    /// Check the contract only in debug builds.
    Debug,
    /// Check the contract only in test-harness builds.
    Test,
    /// Check the contract and record a diagnostic upon violation, but do not
    /// abort the program.
    LogOnly,
}

/// The global build-time override flags, fixed for a whole compilation.
#[derive(Clone, Copy, PartialEq, Eq, Structural, Debug)]
pub struct BuildFlags {
    /// Disable every contract.
    pub disable_contracts: bool,
    /// Force contracts into debug-build-only checks.
    pub override_debug: bool,
    /// Force contracts into log-only checks.
    pub override_log: bool,
}

impl BuildFlags {
    /// The configuration with no override in force.
    pub fn none() -> (r: BuildFlags)
        ensures
            r == (BuildFlags { disable_contracts: false, override_debug: false, override_log: false }),
    {
        BuildFlags { disable_contracts: false, override_debug: false, override_log: false }
    }
}

/// The enforcement mode that a declared mode resolves to under the given
/// build flags.
///
/// `Disabled` and `Test` are immune to every override.  Otherwise the
/// overrides apply in a fixed precedence order: disabling all contracts
/// first, then forcing debug (which leaves the weaker `LogOnly` in place),
/// then forcing log-only.
pub open spec fn resolved_mode(mode: ContractMode, flags: BuildFlags) -> ContractMode {
    if mode == ContractMode::Disabled || mode == ContractMode::Test {
        mode
    } else if flags.disable_contracts {
        ContractMode::Disabled
    } else if flags.override_debug {
        if mode == ContractMode::LogOnly {
            ContractMode::LogOnly
        } else {
            ContractMode::Debug
        }
    } else if flags.override_log {
        ContractMode::LogOnly
    } else {
        mode
    }
}

/// Computes the final enforcement mode of a contract from its declared mode
/// and the global build flags.
pub fn final_mode(mode: ContractMode, flags: BuildFlags) -> (r: ContractMode)
    ensures
        r == resolved_mode(mode, flags),
{
    if mode == ContractMode::Disabled || mode == ContractMode::Test {
        return mode;
    }
    if flags.disable_contracts {
        ContractMode::Disabled
    } else if flags.override_debug {
        if mode == ContractMode::LogOnly {
            mode
        } else {
            ContractMode::Debug
        }
    } else if flags.override_log {
        ContractMode::LogOnly
    } else {
        mode
    }
}

/// Mode resolution is a pure function of the declared mode and the flags;
/// the same pair always resolves to the same mode.
pub proof fn lemma_mode_resolution_deterministic(
    m1: ContractMode,
    f1: BuildFlags,
    m2: ContractMode,
    f2: BuildFlags,
)
    requires
        m1 == m2,
        f1 == f2,
    ensures
        resolved_mode(m1, f1) == resolved_mode(m2, f2),
{
}

/// The fixed points and override outcomes of mode resolution: `Test` and
/// `Disabled` survive any flags; disabling all contracts turns `Always`
/// into `Disabled`; forcing debug turns `Always` into `Debug` but leaves
/// the weaker `LogOnly` unchanged.
pub proof fn lemma_mode_resolution_cases(flags: BuildFlags)
    ensures
        resolved_mode(ContractMode::Test, flags) == ContractMode::Test,
        resolved_mode(ContractMode::Disabled, flags) == ContractMode::Disabled,
        flags.disable_contracts ==> resolved_mode(ContractMode::Always, flags)
            == ContractMode::Disabled,
        !flags.disable_contracts && flags.override_debug ==> resolved_mode(
            ContractMode::LogOnly,
            flags,
        ) == ContractMode::LogOnly,
        !flags.disable_contracts && flags.override_debug ==> resolved_mode(
            ContractMode::Always,
            flags,
        ) == ContractMode::Debug,
{
}

impl ContractMode {
    /// The attribute-name prefix of contracts declared in `self` mode, or
    /// `None` for modes that have no attribute spelling of their own.
    pub fn name(self) -> (r: Option<&'static str>)
        ensures
            self == ContractMode::Always ==> (r matches Some(s) && s@ == ""@),
            self == ContractMode::Debug ==> (r matches Some(s) && s@ == "debug_"@),
            self == ContractMode::Test ==> (r matches Some(s) && s@ == "test_"@),
            self == ContractMode::Disabled ==> r is None,
            self == ContractMode::LogOnly ==> r is None,
    {
        match self {
            ContractMode::Always => Some(""),
            ContractMode::Disabled => None,
            ContractMode::Debug => Some("debug_"),
            ContractMode::Test => Some("test_"),
            ContractMode::LogOnly => None,
        }
    }
}

/// The kind of one contract clause group.
#[derive(Clone, Copy, PartialEq, Eq, Structural, Debug)]
pub enum ContractType {
    /// Checked before the function body runs.
    Pre,
    /// Checked after the function body ran to completion.
    Post,
    /// Checked both before and after the function body.
    Invariant,
}

/// The message prefix of each contract kind.
pub open spec fn kind_message_name(ty: ContractType) -> Seq<char> {
    match ty {
        ContractType::Pre => "Pre-condition"@,
        ContractType::Post => "Post-condition"@,
        ContractType::Invariant => "Invariant"@,
    }
}

/// The contract kind and declared mode that one attribute name spells, if
/// it is a contract attribute at all.
pub open spec fn kind_and_mode_of_name(s: Seq<char>) -> Option<(ContractType, ContractMode)> {
    if s == "pre"@ {
        Some((ContractType::Pre, ContractMode::Always))
    } else if s == "post"@ {
        Some((ContractType::Post, ContractMode::Always))
    } else if s == "invariant"@ {
        Some((ContractType::Invariant, ContractMode::Always))
    } else if s == "debug_pre"@ {
        Some((ContractType::Pre, ContractMode::Debug))
    } else if s == "debug_post"@ {
        Some((ContractType::Post, ContractMode::Debug))
    } else if s == "debug_invariant"@ {
        Some((ContractType::Invariant, ContractMode::Debug))
    } else if s == "test_pre"@ {
        Some((ContractType::Pre, ContractMode::Test))
    } else if s == "test_post"@ {
        Some((ContractType::Post, ContractMode::Test))
    } else if s == "test_invariant"@ {
        Some((ContractType::Invariant, ContractMode::Test))
    } else {
        None
    }
}

impl ContractType {
    /// The name used as a message prefix on violation of a contract.
    pub fn message_name(self) -> (r: &'static str)
        ensures
            r@ == kind_message_name(self),
    {
        match self {
            ContractType::Pre => "Pre-condition",
            ContractType::Post => "Post-condition",
            ContractType::Invariant => "Invariant",
        }
    }

    /// Determine the contract kind and declared mode of an attribute name.
    pub fn contract_type_and_mode(ident: &str) -> (r: Option<(ContractType, ContractMode)>)
        ensures
            r == kind_and_mode_of_name(ident@),
    {
        if str_eq(ident, "pre") {
            Some((ContractType::Pre, ContractMode::Always))
        } else if str_eq(ident, "post") {
            Some((ContractType::Post, ContractMode::Always))
        } else if str_eq(ident, "invariant") {
            Some((ContractType::Invariant, ContractMode::Always))
        } else if str_eq(ident, "debug_pre") {
            Some((ContractType::Pre, ContractMode::Debug))
        } else if str_eq(ident, "debug_post") {
            Some((ContractType::Post, ContractMode::Debug))
        } else if str_eq(ident, "debug_invariant") {
            Some((ContractType::Invariant, ContractMode::Debug))
        } else if str_eq(ident, "test_pre") {
            Some((ContractType::Pre, ContractMode::Test))
        } else if str_eq(ident, "test_post") {
            Some((ContractType::Post, ContractMode::Test))
        } else if str_eq(ident, "test_invariant") {
            Some((ContractType::Invariant, ContractMode::Test))
        } else {
            None
        }
    }
}

} // verus!
