//! Per-application instance pool: a FIFO queue of warm worker handles with
//! expiry on dequeue.

use vstd::prelude::*;

use crate::elapsed_ms;
use crate::types::AppId;
use crate::types::RuntimeId;
use crate::types::WorkerConfiguration;
use crate::types::WorkerHandle;

verus! {

/// A warm worker cached for reuse by one application.
#[derive(Debug)]
pub struct ReadyInstance {
    /// Runtime hosting the worker.
    pub rtid: RuntimeId,
    /// Monotonic time (milliseconds) of the instance's last activity.
    pub last_active: u64,
    /// Handle quoted on fetches against the runtime.
    pub handle: WorkerHandle,
}

/// An instance is usable while no more than the configured expiration
/// interval has elapsed since its last activity.
pub open spec fn usable_spec(inst: ReadyInstance, expiration_ms: u64, now: u64) -> bool {
    elapsed_ms(now, inst.last_active) <= expiration_ms
}

/// Index of the first usable instance in a queue, or the queue's length
/// when every entry has expired.
pub open spec fn first_usable(q: Seq<ReadyInstance>, expiration_ms: u64, now: u64) -> int
    decreases q.len(),
{
    if q.len() == 0 {
        0
    } else if usable_spec(q[0], expiration_ms, now) {
        0
    } else {
        1 + first_usable(q.drop_first(), expiration_ms, now)
    }
}

pub proof fn lemma_first_usable(q: Seq<ReadyInstance>, expiration_ms: u64, now: u64)
    ensures
        0 <= first_usable(q, expiration_ms, now) <= q.len(),
        first_usable(q, expiration_ms, now) < q.len() ==> usable_spec(
            q[first_usable(q, expiration_ms, now)],
            expiration_ms,
            now,
        ),
        forall|j: int|
            0 <= j < first_usable(q, expiration_ms, now) ==> !usable_spec(
                q[j],
                expiration_ms,
                now,
            ),
    decreases q.len(),
{
    if q.len() > 0 && !usable_spec(q[0], expiration_ms, now) {
        lemma_first_usable(q.drop_first(), expiration_ms, now);
        let k = first_usable(q, expiration_ms, now);
        assert forall|j: int| 0 <= j < k implies !usable_spec(q[j], expiration_ms, now) by {
            if j >= 1 {
                assert(q[j] == q.drop_first()[j - 1]);
            }
        }
        if k < q.len() {
            assert(q[k] == q.drop_first()[k - 1]);
        }
    }
}

impl ReadyInstance {
    /// Whether the instance may still be handed out at time `now`, given
    /// the configured expiration interval.
    pub fn is_usable(&self, expiration_ms: u64, now: u64) -> (r: bool)
        ensures
            r == usable_spec(*self, expiration_ms, now),
    {
        if now >= self.last_active {
            now - self.last_active <= expiration_ms
        } else {
            true
        }
    }

    /// Stamps the instance as active at `now`.
    pub fn update_last_active(&mut self, now: u64)
        ensures
            final(self).rtid == old(self).rtid,
            final(self).handle == old(self).handle,
            final(self).last_active == now,
    {
        self.last_active = now;
    }
}

/// Scheduling state of one live application.
pub struct AppState {
    /// Identifier of this app.
    pub id: AppId,
    /// Worker configuration forwarded at spawn time.
    pub config: WorkerConfiguration,
    /// The application's code, fetched from its script URL.
    pub script: Vec<u8>,
    /// Instances ready to run this app; front of the FIFO at index 0.
    pub ready_instances: Vec<ReadyInstance>,
}

impl AppState {
    /// Returns a reusable instance to the back of the ready queue.
    pub fn pool_instance(&mut self, inst: ReadyInstance)
        ensures
            final(self).ready_instances@ == old(self).ready_instances@.push(inst),
            final(self).id == old(self).id,
            final(self).config == old(self).config,
            final(self).script == old(self).script,
    {
        self.ready_instances.push(inst);
    }

    /// Dequeues from the front until a usable instance is found, silently
    /// discarding expired ones; the survivor is stamped active at `now`.
    /// Drains the queue and returns `None` when nothing usable remains.
    #[verifier::loop_isolation(false)]
    pub fn take_usable_instance(&mut self, expiration_ms: u64, now: u64) -> (r: Option<
        ReadyInstance,
    >)
        ensures
            final(self).id == old(self).id,
            final(self).config == old(self).config,
            final(self).script == old(self).script,
            ({
                let q = old(self).ready_instances@;
                let k = first_usable(q, expiration_ms, now);
                if k < q.len() {
                    &&& r matches Some(inst)
                    &&& inst.rtid == q[k].rtid
                    &&& inst.handle == q[k].handle
                    &&& inst.last_active == now
                    &&& usable_spec(q[k], expiration_ms, now)
                    &&& final(self).ready_instances@ == q.skip(k + 1)
                } else {
                    &&& r is None
                    &&& final(self).ready_instances@.len() == 0
                }
            }),
    {
        let ghost q = self.ready_instances@;
        let ghost exp = expiration_ms;
        proof {
            lemma_first_usable(q, exp, now);
        }
        let ghost mut popped: int = 0;
        while self.ready_instances.len() > 0
            invariant
                0 <= popped <= q.len(),
                self.ready_instances@ == q.skip(popped),
                forall|j: int| 0 <= j < popped ==> !usable_spec(q[j], exp, now),
                self.id == old(self).id,
                self.config == old(self).config,
                self.script == old(self).script,
                exp == expiration_ms,
            decreases self.ready_instances.len(),
        {
            let mut inst = self.ready_instances.remove(0);
            proof {
                assert(q.skip(popped)[0] == q[popped]);
                assert(inst == q[popped]);
                assert(q.skip(popped).remove(0) =~= q.skip(popped + 1));
            }
            if inst.is_usable(expiration_ms, now) {
                proof {
                    let k = first_usable(q, exp, now);
                    assert(usable_spec(q[popped], exp, now));
                    assert(k == popped);
                }
                inst.update_last_active(now);
                return Some(inst);
            }
            proof {
                popped = popped + 1;
            }
        }
        proof {
            let k = first_usable(q, exp, now);
            assert(q.skip(popped).len() == 0);
            assert(k == q.len());
        }
        None
    }
}

} // verus!
