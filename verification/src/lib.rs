use vstd::prelude::*;

pub mod byte;
pub mod common;
pub mod drain;
pub mod either;
pub mod eval;
pub mod mapper;
pub mod optimizer;
pub mod params;
pub mod parser;
pub mod pipeline;
pub mod segment;
pub mod spawn;

verus! {
} // verus!
