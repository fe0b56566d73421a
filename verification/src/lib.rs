//! A patch-based TypeScript-to-JavaScript strip engine.
//!
//! The engine accumulates an ordered list of byte-range patches over the
//! original source while a parser reports grammar productions, then applies
//! the patches to the source buffer, preserving every line terminator so that
//! line numbering is stable across the transformation.

pub mod cursor;
pub mod handler;
pub mod ident;
pub mod line_term;
pub mod patch;
pub mod patch_builder;
pub mod scope;
pub mod window;
