//! Compiles an academic-paper markup source (a LaTeX-like document plus a
//! separate bibliography) into numbering, cross-reference and citation data
//! and a content-addressed plan for rendering every formula to a cached image.
//!
//! The library is organised leaves-first:
//! - [`span`]: read-only (start, end) views into the original source buffer;
//! - [`text`]: byte-string helpers shared by the other modules;
//! - [`ast`]: the document tree, bibliography records and node registries;
//! - [`parse`]: a recursive-descent parser from source bytes to the tree;
//! - [`analysis`]: numbering, reference resolution and bibliography ordering;
//! - [`digest`]: content digests of formulas, the cache keys;
//! - [`cache`]: the cache store model, compile planning and the geometry
//!   stylesheet;
//! - [`texgen`]: the wrapper documents handed to the typesetting toolchain;
//! - [`svg`]: reading dimensions and the baseline marker out of its output;
//! - [`bisect`]: binary search for the preamble lines that break a compile.
pub mod analysis;
pub mod ast;
pub mod bisect;
pub mod cache;
pub mod digest;
pub mod parse;
pub mod span;
pub mod svg;
pub mod texgen;
pub mod text;
