//! Priority levels of load requests.

use core::cmp::Ordering;
use vstd::prelude::*;
use vstd::std_specs::cmp::PartialOrdSpecImpl;

verus! {

/// How urgently an asset is wanted.
#[derive(Debug, Clone, Copy, PartialEq, Eq, Hash, Structural)]
pub enum LoadPriority {
    /// The asset is on screen right now: served first.
    CurrentAccess,
    /// The asset changed on disk and is being reloaded: served second.
    HotReload,
    /// The asset may be wanted soon: served last.
    Preload,
}

/// The order of two integers, as the standard library reports it.
pub open spec fn int_order(a: int, b: int) -> Ordering {
    if a < b {
        Ordering::Less
    } else if a == b {
        Ordering::Equal
    } else {
        Ordering::Greater
    }
}

impl LoadPriority {
    /// The rank of a priority: a higher rank is served first.
    pub open spec fn rank(self) -> int {
        match self {
            LoadPriority::CurrentAccess => 3,
            LoadPriority::HotReload => 2,
            LoadPriority::Preload => 1,
        }
    }

    /// Returns the rank of this priority; a higher value is served first.
    pub fn value(self) -> (v: u8)
        ensures
            v == self.rank(),
    {
        match self {
            LoadPriority::CurrentAccess => 3,
            LoadPriority::HotReload => 2,
            LoadPriority::Preload => 1,
        }
    }
}

impl PartialOrdSpecImpl for LoadPriority {
    open spec fn obeys_partial_cmp_spec() -> bool {
        true
    }

    open spec fn partial_cmp_spec(&self, other: &LoadPriority) -> Option<Ordering> {
        Some(int_order(self.rank(), other.rank()))
    }
}

impl PartialOrd for LoadPriority {
    /// Priorities compare by rank.
    fn partial_cmp(&self, other: &LoadPriority) -> (order: Option<Ordering>) {
        let a = self.value();
        let b = other.value();
        if a < b {
            Some(Ordering::Less)
        } else if a == b {
            Some(Ordering::Equal)
        } else {
            Some(Ordering::Greater)
        }
    }
}

/// Ranks tell priorities apart: two priorities of one rank are the same priority.
pub proof fn lemma_rank_injective(a: LoadPriority, b: LoadPriority)
    ensures
        a.rank() == b.rank() <==> a == b,
        1 <= a.rank() <= 3,
{
}

} // verus!
