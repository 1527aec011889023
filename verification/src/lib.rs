//! Reconstruction of formatted source text from a parsed syntax tree of a
//! C-like declarative language.
//!
//! The tree is modelled by [`tree::SyntaxNode`]: a kind tag, a byte range
//! into the original source, and the ordered child nodes. A
//! [`writer::Writer`] carries the growing output buffer, the borrowed source
//! bytes, a skip budget for siblings already consumed by a renderer's
//! lookahead, and a diagnostics sink. The dispatcher in [`source_file`]
//! walks the tree's top-level children and routes each one to a
//! construct-specific renderer, to one of the two leaf renderers defined
//! here (assertions and hardcoded intrinsic symbol declarations), or to a
//! verbatim fallback that reproduces the original bytes exactly.

pub mod tree;
pub mod writer;
pub mod source_file;
pub mod laws;
