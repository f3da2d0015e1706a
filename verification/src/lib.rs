//! Vector-index table functions: the argument handling, text and file
//! formats, and result framing behind them.
use vstd::prelude::*;

pub mod codec;
pub mod index;
pub mod params;
pub mod results;
pub mod rows;
pub mod sizing;
pub mod text;
pub mod vtabs;

verus! {

} // verus!
