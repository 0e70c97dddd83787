//! Setup of proving keys: what each stage computes and decides.
use vstd::prelude::*;

pub mod airs;
pub mod config_file;
pub mod documents;
pub mod keys;
pub mod names;
pub mod plan;
pub mod recursive;
pub mod resize;
pub mod search;
pub mod snark;
pub mod stage;
pub mod stages;
pub mod stark_struct;

verus! {

} // verus!
