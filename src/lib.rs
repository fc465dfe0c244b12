use vstd::prelude::*;

pub mod statistic;
pub mod text;
pub mod template;
pub mod header;
pub mod addr;
pub mod client;
pub mod command;
pub mod executor;
pub mod worker;
pub mod output;

verus! {

} // verus!
