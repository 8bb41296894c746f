//! A compile-time code-transformation library for contract-style annotations.
//!
//! Function and trait declarations annotated with pre-conditions,
//! post-conditions and invariants are rewritten into equivalent declarations
//! whose bodies carry runtime-checked assertions.  The pipeline parses
//! attribute argument lists into contract clauses, rewrites an implication
//! operator into plain boolean logic, extracts old-state captures from
//! post-conditions, resolves enforcement modes against global build flags,
//! and synthesizes a replacement function body that preserves control flow
//! while wrapping it with the generated checks.
//!
//! The library itself only transforms syntax: it emits code that performs
//! the checks when compiled and run by the host toolchain, and never
//! executes or interprets the checked expressions.

pub mod codegen;
pub mod contract;
pub mod doc;
pub mod errors;
pub mod function;
pub mod implication;
pub mod implinv;
pub mod laws;
pub mod modes;
pub mod oldstate;
pub mod parse;
pub mod render;
pub mod text;
pub mod tokens;
pub mod traits;
