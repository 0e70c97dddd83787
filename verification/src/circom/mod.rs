//! Generating circuits and contracts: the values that templates are filled with.
use vstd::prelude::*;

pub mod aggregation;
pub mod bn128;
pub mod bn128_info;
pub mod bn128_lists;
pub mod bn128_transcript;
pub mod json;
pub mod render;
pub mod template_syntax;
pub mod templates;

verus! {

} // verus!
