//! The orphan-reclamation actor: a background worker bound to one record
//! store, with a single-slot pending-request flag. Requests made while a
//! request is already queued coalesce into it, so a burst of `invoke` calls
//! costs at most one sweep, and no call is dropped: once `invoke` has run,
//! the flag stays set until a sweep drains it.

use vstd::prelude::*;
use crate::db::DbV;
use crate::db::LibraryDb;
use crate::db::object_referenced_in;

verus! {

/// The actor's state: the single-slot pending-request flag.
#[derive(Debug)]
pub struct OrphanRemoverActor {
    pub pending: bool,
}

/// The state after one reclamation request.
pub open spec fn spec_invoke(a: OrphanRemoverActor) -> OrphanRemoverActor {
    OrphanRemoverActor { pending: true }
}

/// The state after `m` reclamation requests in a row.
pub open spec fn spec_invoke_n(a: OrphanRemoverActor, m: nat) -> OrphanRemoverActor
    decreases m,
{
    if m == 0 {
        a
    } else {
        spec_invoke(spec_invoke_n(a, (m - 1) as nat))
    }
}

impl OrphanRemoverActor {
    /// A fresh actor with no queued request.
    pub fn new() -> (a: OrphanRemoverActor)
        ensures
            !a.pending,
    {
        OrphanRemoverActor { pending: false }
    }

    /// Requests a reclamation pass. The request is queued in the single
    /// slot; a request already queued absorbs this one.
    pub fn invoke(&mut self)
        ensures
            *final(self) == spec_invoke(*old(self)),
            final(self).pending,
    {
        self.pending = true;
    }

    /// One wake of the actor loop: when a request is queued, drains the slot
    /// and runs one sweep over the store; otherwise does nothing. The sweep
    /// sees the store as it is now — at least as recent as every queued
    /// request.
    pub fn run_pending_sweep(&mut self, db: &mut LibraryDb) -> (ran: bool)
        requires
            old(db).wf(),
        ensures
            final(db).wf(),
            ran == old(self).pending,
            !final(self).pending,
            old(self).pending ==> final(db)@ == (DbV {
                objects: old(db)@.objects.filter(object_referenced_in(old(db)@.file_paths)),
                ..old(db)@
            }),
            !old(self).pending ==> *final(db) == *old(db),
    {
        if self.pending {
            self.pending = false;
            db.sweep_orphans();
            true
        } else {
            false
        }
    }
}

/// Any burst of requests coalesces: `m` consecutive `invoke` calls with no
/// sweep between them leave the actor exactly as one call does, so the next
/// wake of the loop runs exactly one sweep for the whole burst.
pub proof fn lemma_reclamation_coalescing(a: OrphanRemoverActor, m: nat)
    requires
        m >= 1,
    ensures
        spec_invoke_n(a, m) == spec_invoke(a),
        spec_invoke_n(a, m).pending,
    decreases m,
{
    if m > 1 {
        lemma_reclamation_coalescing(a, (m - 1) as nat);
    }
}

} // verus!
