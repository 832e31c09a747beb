//! Turns a parsed markup tree into formatted plain text for a fixed-width
//! character display, with raster images drawn as glyph blocks.
use vstd::prelude::*;

pub mod bound;
pub mod dom;
pub mod filter;
pub mod glyphs;
pub mod nav;
pub mod render;
pub mod root;
pub mod text;

verus! {

} // verus!
