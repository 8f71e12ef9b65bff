//! Static analysis core for an OpenSCAD language server: an incrementally
//! maintained document model, symbol extraction, scope resolution across an
//! include graph, and a shadow-respecting rename engine.

pub mod bridge;
pub mod bytes;
pub mod diag;
pub mod doc;
pub mod extract;
pub mod inc;
pub mod item;
pub mod rename;
pub mod scope;
pub mod store;
pub mod text;
pub mod tree;

use vstd::prelude::*;

verus! {

/// A line/column position in a text document, counting Unicode scalar values
/// per column, as the position-to-offset arithmetic in `text` does.
#[derive(Clone, Copy, PartialEq, Eq, Structural, Debug)]
pub struct Pos {
    pub row: usize,
    pub col: usize,
}

/// A half-open source range between two positions.
#[derive(Clone, Copy, PartialEq, Eq, Structural, Debug)]
pub struct SrcRange {
    pub start: Pos,
    pub end: Pos,
}

} // verus!
