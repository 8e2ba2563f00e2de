//! Small helpers for callers.

use crate::entity::Episode;
use vstd::prelude::*;

verus! {

/// A test for episodes that are newer than `timestamp`.
pub fn filter_time(timestamp: u64) -> (keep: impl Fn(&Episode) -> bool)
    ensures
        forall|e: &Episode| call_requires(keep, (e,)),
        forall|e: &Episode, kept: bool|
            call_ensures(keep, (e,), kept) ==> kept == (e.timestamp > timestamp),
{
    move |e: &Episode| -> (kept: bool)
        ensures
            kept == (e.timestamp > timestamp),
        { e.timestamp > timestamp }
}

} // verus!
