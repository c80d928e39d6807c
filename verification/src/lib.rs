//! Invocation contract for a taxonomic sequence classifier: the typed
//! configuration parsed and validated from command-line tokens, and the
//! policy that resolves the two output paths (classification and
//! confidence) without silently clobbering prior results.
//!
//! The classification engine itself is an outside collaborator: it
//! receives the validated [`args::Args`] value and the resolved output
//! paths, and is out of scope here.

pub mod args;
pub mod decimal;
pub mod output;
pub mod text;
