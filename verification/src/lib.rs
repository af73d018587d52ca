//! The request handlers of a small HTTP responder, as functions from the
//! bytes of a request to the response that answers it.
//!
//! Nothing here touches a socket or a file. A caller reads the request, asks a
//! handler for its response, and sends `Response::as_bytes`. `StaticFile` says
//! which file it wants read and is handed what the read gave; `VisitCount` is
//! handed the count that `SharedData::record_visit` returned.
use vstd::prelude::*;

pub mod http;
pub mod server;
pub mod text;

verus! {

/// What all connections share: the number of visits so far.
pub struct SharedData {
    pub visit_count: u64,
}

impl SharedData {
    /// The state before the first visit.
    pub fn new() -> (shared: SharedData)
        ensures
            shared.visit_count == 0,
    {
        SharedData { visit_count: 0 }
    }

    /// This state after one more visit.
    pub open spec fn visited(self) -> SharedData {
        SharedData { visit_count: (self.visit_count + 1) as u64 }
    }

    /// This state after `n` more visits, one after the other.
    pub open spec fn after_visits(self, n: nat) -> SharedData
        decreases n,
    {
        if n == 0 {
            self
        } else {
            self.after_visits((n - 1) as nat).visited()
        }
    }

    /// Counts one visit and returns the count it brought the counter to. A
    /// caller that shares the state holds its lock for this call and not
    /// longer: the count returned is then that of this visit and of no other.
    pub fn record_visit(&mut self) -> (count: u64)
        requires
            old(self).visit_count < u64::MAX,
        ensures
            *final(self) == old(self).visited(),
            count == old(self).visit_count + 1,
    {
        self.visit_count = self.visit_count + 1;
        self.visit_count
    }
}

/// No visit is lost and no count is handed out twice: after `n` visits the
/// counter stands `n` above where it started, and any two of those visits
/// were told different counts.
pub proof fn lemma_visits_are_counted(start: SharedData, n: nat)
    requires
        start.visit_count + n <= u64::MAX,
    ensures
        start.after_visits(n).visit_count == start.visit_count + n,
        forall|i: nat, j: nat|
            1 <= i < j <= n ==> #[trigger] start.after_visits(i).visit_count
                != #[trigger] start.after_visits(j).visit_count,
{
    lemma_visits_reach(start, n);
    assert forall|i: nat| 1 <= i <= n implies #[trigger] start.after_visits(i).visit_count
        == start.visit_count + i by {
        lemma_visits_reach(start, i);
    }
}

/// After `n` visits the counter stands `n` above where it started.
proof fn lemma_visits_reach(start: SharedData, n: nat)
    requires
        start.visit_count + n <= u64::MAX,
    ensures
        start.after_visits(n).visit_count == start.visit_count + n,
    decreases n,
{
    if n > 0 {
        lemma_visits_reach(start, (n - 1) as nat);
    }
}

} // verus!
