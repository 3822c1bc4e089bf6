use vstd::prelude::*;

pub mod context;
pub mod delay;
pub mod node;
pub mod one_csv_line;
pub mod payload;

verus! {

} // verus!
