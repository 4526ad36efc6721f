//! Scope-aware identifier rename mappings for JavaScript source trees.
//!
//! The crate derives rename mappings between an original (obfuscated) source
//! file and a hand-deobfuscated counterpart, and replays those mappings onto
//! the original text.  The syntax tree is modelled by a tagged-variant node
//! type; parsing is left to an external collaborator which hands the library
//! a node tree plus the raw bytes of the file.

pub mod types;
pub mod tree;
pub mod scope;
pub mod walker;
pub mod renamer;
pub mod differ;
pub mod store;
pub mod rewrite;
pub mod conflict;
pub mod pipeline;
