//! Expansion-time errors.
//!
//! Every error here is fatal for the one expansion it arises in: the
//! transformation of that declaration is abandoned and the host reports a
//! compilation failure.  No error is recoverable, and none affects sibling
//! expansions.

use vstd::prelude::*;

verus! {

/// A fatal error of one macro expansion.
#[derive(Clone, Copy, PartialEq, Eq, Structural, Debug)]
pub enum ExpandError {
    /// An attribute argument list that cannot be read as a comma-separated,
    /// non-empty list of expressions.
    MalformedAttributeArgs,
    /// An argument pattern in a trait method that argument forwarding does
    /// not support: only identifier patterns and tuples of supported
    /// patterns can be forwarded.
    UnsupportedPattern,
    /// The contract-trait marker was applied to an item that is neither a
    /// `trait` nor a trait `impl`.
    NotATraitOrImpl,
    /// A contract attribute was applied to a function declaration that has
    /// no body to wrap.
    MissingBody,
    /// An invariant attribute was applied to an item that is neither a
    /// function nor an `impl` block.
    NotAFunctionOrImpl,
}

} // verus!
