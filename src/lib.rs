use vstd::prelude::*;

pub mod client;
pub mod codec;
pub mod commitment;
pub mod consensus_state;
pub mod contract;
pub mod error;
pub mod hash;
pub mod mpt;
pub mod signing;

verus! {

} // verus!
