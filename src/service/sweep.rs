use crate::service::deletion_service::{due_set, lists_exactly, DeletionService};
use vstd::prelude::*;

verus! {

/// Time between two sweeps unless another is configured: twelve hours, in
/// seconds.
pub const DEFAULT_SWEEP_INTERVAL: u64 = 12 * 60 * 60;

/// Why the purge layer could not delete an account.
pub struct PurgeError {
    pub reason: String,
}

/// What recording one purge outcome did.
pub enum SweepStep {
    /// The account was purged and its request retired from the registry.
    Retired { user_id: String },
    /// The purge failed: the request stays in the registry, so that the next
    /// sweep tries again, and the failure is handed on for reporting.
    Retained { user_id: String, error: PurgeError },
    /// Every request that had matured when the sweep began has been handled.
    Finished,
}

/// One sweep over the registry: the users whose deadline had been reached
/// when it began, purged one after the other.
pub struct Sweep {
    queue: Vec<String>,
    next: usize,
    failed: Vec<String>,
}

impl Sweep {
    /// The users this sweep purges, in order.
    pub closed spec fn queue(&self) -> Seq<String> {
        self.queue@
    }

    /// How many of them have been handled.
    pub closed spec fn position(&self) -> nat {
        self.next as nat
    }

    /// The users whose purge failed in this sweep, in order.
    pub closed spec fn failed(&self) -> Seq<String> {
        self.failed@
    }

    pub closed spec fn wf(&self) -> bool {
        self.next <= self.queue@.len()
    }

    /// Starts a sweep at `now`: it will purge exactly the users whose
    /// deadline has been reached, each once.
    pub fn begin(registry: &DeletionService, now: i64) -> (s: Self)
        requires
            registry.wf(),
        ensures
            s.wf(),
            lists_exactly(s.queue(), due_set(registry@, now)),
            s.position() == 0,
            s.failed() == Seq::<String>::empty(),
    {
        Sweep { queue: registry.due(now), next: 0, failed: Vec::new() }
    }

    /// The user to purge next, or `None` once the sweep is over.
    pub fn next_user(&self) -> (r: Option<String>)
        requires
            self.wf(),
        ensures
            r is Some <==> self.position() < self.queue().len(),
            r matches Some(u) ==> u@ == self.queue()[self.position() as int]@,
    {
        if self.next < self.queue.len() {
            Some(self.queue[self.next].clone())
        } else {
            None
        }
    }

    /// Whether every user of the sweep has been handled.
    pub fn is_finished(&self) -> (r: bool)
        requires
            self.wf(),
        ensures
            r == (self.position() == self.queue().len()),
    {
        self.next == self.queue.len()
    }

    /// Records what the purge layer reported for the user that
    /// [`Sweep::next_user`] named. On success the user's request is retired
    /// (it may have been withdrawn meanwhile, which is harmless); on failure
    /// it stays for the next sweep. Once the sweep is over nothing changes.
    pub fn record(&mut self, registry: &mut DeletionService, outcome: Result<(), PurgeError>) -> (r:
        SweepStep)
        requires
            old(self).wf(),
            old(registry).wf(),
        ensures
            final(self).wf(),
            final(registry).wf(),
            final(registry).grace() == old(registry).grace(),
            final(self).queue() == old(self).queue(),
            old(self).position() < old(self).queue().len() ==> {
                let u = old(self).queue()[old(self).position() as int];
                &&& final(self).position() == old(self).position() + 1
                &&& match outcome {
                    Ok(()) => {
                        &&& final(registry)@ == old(registry)@.remove(u@)
                        &&& final(self).failed() == old(self).failed()
                        &&& r matches SweepStep::Retired { user_id } && user_id@ == u@
                    },
                    Err(e) => {
                        &&& final(registry)@ == old(registry)@
                        &&& final(self).failed().len() == old(self).failed().len() + 1
                        &&& final(self).failed().drop_last() == old(self).failed()
                        &&& final(self).failed().last()@ == u@
                        &&& r matches SweepStep::Retained { user_id, error } && user_id@ == u@
                            && error == e
                    },
                }
            },
            old(self).position() == old(self).queue().len() ==> {
                &&& *final(self) == *old(self)
                &&& final(registry)@ == old(registry)@
                &&& r is Finished
            },
    {
        if self.next >= self.queue.len() {
            return SweepStep::Finished;
        }
        let user_id = self.queue[self.next].clone();
        self.next = self.next + 1;
        match outcome {
            Ok(()) => {
                registry.remove_if_present(&user_id);
                SweepStep::Retired { user_id }
            },
            Err(error) => {
                self.failed.push(user_id.clone());
                proof {
                    assert(self.failed@.drop_last() =~= old(self).failed@);
                }
                SweepStep::Retained { user_id, error }
            },
        }
    }

    /// The users whose purge failed in this sweep, for the operator's report.
    pub fn failed_users(&self) -> (r: Vec<String>)
        ensures
            r@ == self.failed(),
    {
        self.failed.clone()
    }
}

} // verus!
