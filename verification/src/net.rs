//! Which failures mean that there is no connection.
use vstd::prelude::*;

verus! {

/// A cause of an error: whether it comes from a request, and if so, whether the connection
/// could not be made or took too long.
#[derive(Clone, Copy, PartialEq, Eq, Structural, Debug)]
pub enum Cause {
    Request { connect: bool, timeout: bool },
    Other,
}

pub open spec fn means_offline(c: Cause) -> bool {
    match c {
        Cause::Request { connect, timeout } => connect || timeout,
        Cause::Other => false,
    }
}

/// Whether a cause is a lost connection.
pub fn is_offline_cause(c: Cause) -> (b: bool)
    ensures
        b == means_offline(c),
{
    match c {
        Cause::Request { connect, timeout } => connect || timeout,
        Cause::Other => false,
    }
}

/// Whether an error is a lost connection, so that the work is to be tried again later: one
/// of its causes is. All other failures stay failures.
pub fn is_offline_error(chain: &[Cause]) -> (b: bool)
    ensures
        b == exists|i: int| 0 <= i < chain.len() && means_offline(#[trigger] chain@[i]),
{
    let mut i: usize = 0;
    while i < chain.len()
        invariant
            i <= chain.len(),
            forall|k: int| 0 <= k < i ==> !means_offline(#[trigger] chain@[k]),
        decreases chain.len() - i,
    {
        if is_offline_cause(chain[i]) {
            return true;
        }
        i += 1;
    }
    false
}

/// A request that found no connection, or no answer in time, means that the network is off;
/// no other failure does.
pub proof fn law_what_means_offline(connect: bool, timeout: bool)
    ensures
        means_offline(Cause::Request { connect: true, timeout }),
        means_offline(Cause::Request { connect, timeout: true }),
        !means_offline(Cause::Request { connect: false, timeout: false }),
        !means_offline(Cause::Other),
{
}

} // verus!
