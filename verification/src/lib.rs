//! Label resolution and instruction-sequence renumbering for a stack-machine
//! bytecode emitter.
//!
//! A freshly lowered function body arrives as a nested instruction sequence
//! whose jump targets are symbolic labels.  This crate computes which labels
//! are actually referenced, compacts the referenced ones into a dense
//! zero-based numbering in first-reference order, and rewrites every label
//! definition and reference accordingly.  An independent entry point clones a
//! block with completely fresh label identifiers so that a duplicated block
//! cannot collide with any other copy.

pub mod emit_fatal;
pub mod emit_memoize_helpers;
pub mod emitter;
pub mod hhas_param;
pub mod hhbc_ast;
pub mod id_collections;
pub mod instruction_sequence;
pub mod integer;
pub mod iterator;
pub mod label;
pub mod label_rewriter;
pub mod local;
pub mod relabel_laws;
pub mod sequence;
pub mod string_utils;

pub use label::Label;
