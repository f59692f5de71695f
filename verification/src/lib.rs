//! A small Redis-protocol server library: frames and their wire bytes
//! ([`frame`]), the read state of a connection ([`connection`]), the
//! commands and the key-value store that answers them ([`command`]), and a
//! minimal task executor with a delay future ([`executor`]).
use vstd::prelude::*;

pub mod command;
pub mod connection;
pub mod executor;
pub mod frame;

verus! {

} // verus!
