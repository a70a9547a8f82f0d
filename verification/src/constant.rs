//! Constants of the server.
use vstd::prelude::*;

verus! {

/// The address at which the server listens.
pub const SERVER_ADDR: &'static str = "127.0.0.1:6440";

/// How many users the server serves at most.
pub const MAX_NUM_USERS: usize = 2000;

} // verus!
