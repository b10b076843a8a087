//! The client API.

use vstd::prelude::*;
use vstd::string::StringExecFns;

verus! {

/// A version of the client API.
#[derive(Debug)]
pub struct Version(pub String);

/// The prefix of the client API's routes under the protocol prefix `base`.
pub fn mount_point(base: String) -> (prefix: String)
    ensures
        prefix@ == base@ + "client/"@,
{
    base.concat("client/")
}

/// The prefix of release 0 of the client API under the client prefix `base`.
pub fn r0_mount_point(base: String) -> (prefix: String)
    ensures
        prefix@ == base@ + "r0"@,
{
    base.concat("r0")
}

/// The versions of the client API that the server speaks.
pub fn versions() -> (list: Vec<Version>)
    ensures
        list@.len() == 1,
        list@[0].0@ == "r.0.2.0"@,
{
    let mut list = Vec::new();
    list.push(Version(String::from_str("r.0.2.0")));
    list
}

} // verus!
