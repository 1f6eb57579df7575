use vstd::prelude::*;

pub mod decision;
pub mod poll;
pub mod request;

verus! {

} // verus!
