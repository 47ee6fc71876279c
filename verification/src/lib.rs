//! Bundling of CommonJS-style module graphs into one self-contained script.
//!
//! The crate holds the decisions of a bundler: how module identifiers are
//! written, how canonical paths are numbered, which `require` call sites of a
//! module are rewritten, in what order modules are expanded, and what text the
//! bundle consists of. Source text is parsed and printed by the oxc crates.
//! Reading files and resolving specifiers on disk are left to the caller.

pub mod builder;
pub mod codec;
pub mod emitter;
pub mod registry;
pub mod rewriter;
pub mod source;
pub mod syntax;
