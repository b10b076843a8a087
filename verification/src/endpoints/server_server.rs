//! The federation API.

use vstd::prelude::*;
use vstd::string::StringExecFns;

verus! {

/// The prefix of the federation API's routes under the protocol prefix `base`.
pub fn mount_point(base: String) -> (prefix: String)
    ensures
        prefix@ == base@ + "federation/"@,
{
    base.concat("federation/")
}

/// The prefix of the unstable federation API under the federation prefix `base`.
pub fn unstable_mount_point(base: String) -> (prefix: String)
    ensures
        prefix@ == base@ + "v1"@,
{
    base.concat("v1")
}

} // verus!
