use vstd::prelude::*;

pub mod array;
pub mod engine;
pub mod error;
pub mod operator;
pub mod probe;
pub mod signal;
pub mod slice;
pub mod sync;

verus! {

} // verus!
