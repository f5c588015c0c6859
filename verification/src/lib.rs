use vstd::prelude::*;

pub mod bytes;
pub mod errors;
pub mod bootsector;
pub mod fixup;
pub mod datarun;
pub mod record;
pub mod reconstruct;
pub mod reader;
pub mod catalog;
pub mod cli;

verus! {

} // verus!
