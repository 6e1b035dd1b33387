//! Records of the activation check.

use vstd::prelude::*;

verus! {

/// What identifies the machine.
#[derive(Clone, Debug, Default)]
pub struct Machine {
    pub hostname: String,
    pub uid: String,
    pub mac: String,
}

/// The activation request and its answer.
#[derive(Clone, Debug, Default)]
pub struct Post {
    pub machine: String,
    pub email: String,
    pub status: String,
    pub version: String,
    pub next_check_time: u64,
}

} // verus!
