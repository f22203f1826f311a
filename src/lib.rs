//! Batch version bumps across repositories: the rule that rewrites the
//! marked lines of a file, the names and arguments of the version-control
//! commands, and the per-project step sequence with its failure policy.
use vstd::prelude::*;

pub mod commands;
pub mod pipeline;
pub mod rewrite;
pub mod text;

verus! {

} // verus!
