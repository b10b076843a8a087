//! Where the HTTP layer mounts the messaging protocol's APIs.

use vstd::prelude::*;
use vstd::string::StringExecFns;

pub mod client_server;
pub mod server_server;

verus! {

/// The prefix of all protocol routes under `base`.
pub fn mount_point(base: String) -> (prefix: String)
    ensures
        prefix@ == base@ + "_matrix/"@,
{
    base.concat("_matrix/")
}

} // verus!
