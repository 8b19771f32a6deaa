use vstd::prelude::*;

pub mod codec;
pub mod config;
pub mod gateway;
pub mod proc;
pub mod server;

verus! {

} // verus!
