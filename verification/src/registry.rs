//! Runtime registry: the set of known runtimes, keyed by runtime id, with
//! their last reported loads.

use vstd::prelude::*;

use crate::bytes::bytes_eq;
use crate::bytes::bytes_lt;
use crate::bytes::lemma_lex_le_trans;
use crate::bytes::lemma_lex_total;
use crate::bytes::lex_le;
use crate::types::RuntimeId;

verus! {

/// Live state of one registered runtime.
pub struct RuntimeState {
    pub id: RuntimeId,
    /// Last probed load; lower means less loaded, 0 means idle.
    pub load: u16,
}

/// Outcome of one load probe: the reported load, or `None` when the
/// runtime failed to answer.
pub struct ProbeResult {
    pub id: RuntimeId,
    pub load: Option<u16>,
}

/// Some registered runtime bears the identifier `id`.
pub open spec fn registry_has(rs: Seq<RuntimeState>, id: Seq<u8>) -> bool {
    exists|i: int| 0 <= i < rs.len() && rs[i].id.0@ == id
}

/// Some registered runtime bears `id` with stored load `load`.
pub open spec fn load_in(rs: Seq<RuntimeState>, id: Seq<u8>, load: u16) -> bool {
    exists|i: int| 0 <= i < rs.len() && rs[i].id.0@ == id && rs[i].load == load
}

/// No identifier occurs twice.
pub open spec fn unique_ids(rs: Seq<RuntimeState>) -> bool {
    forall|i: int, j: int| 0 <= i < j < rs.len() ==> rs[i].id.0@ != rs[j].id.0@
}

/// The set of known runtime endpoints. Runtimes are keyed by the id they
/// report, so one physical runtime behind several addresses registers
/// once.
pub struct Registry {
    pub runtimes: Vec<RuntimeState>,
}

impl Registry {
    /// Whether the registry is well formed: ids are unique.
    pub open spec fn wf(self) -> bool {
        unique_ids(self.runtimes@)
    }

    /// An empty registry.
    pub fn new() -> (r: Registry)
        ensures
            r.runtimes@.len() == 0,
            r.wf(),
    {
        Registry { runtimes: Vec::new() }
    }

    /// First index holding `id`, if registered.
    fn find(&self, id: &Vec<u8>) -> (r: Option<usize>)
        ensures
            match r {
                None => !registry_has(self.runtimes@, id@),
                Some(i) => i < self.runtimes@.len() && self.runtimes@[i as int].id.0@ == id@,
            },
    {
        let mut i: usize = 0;
        while i < self.runtimes.len()
            invariant
                i <= self.runtimes.len(),
                forall|j: int| 0 <= j < i ==> self.runtimes@[j].id.0@ != id@,
            decreases self.runtimes.len() - i,
        {
            if bytes_eq(&self.runtimes[i].id.0, id) {
                return Some(i);
            }
            i += 1;
        }
        None
    }

    /// Whether `id` is registered.
    pub fn contains(&self, id: &Vec<u8>) -> (r: bool)
        ensures
            r == registry_has(self.runtimes@, id@),
    {
        self.find(id).is_some()
    }

    /// Registers every newly discovered runtime with initial load 0;
    /// runtimes already present are left untouched, so discovery is
    /// idempotent.
    #[verifier::loop_isolation(false)]
    pub fn admit_runtimes(&mut self, found: Vec<RuntimeId>)
        requires
            old(self).wf(),
        ensures
            final(self).wf(),
            forall|id: Seq<u8>| #![trigger registry_has(final(self).runtimes@, id)]
                registry_has(final(self).runtimes@, id) == (registry_has(old(self).runtimes@, id)
                    || exists|i: int| 0 <= i < found@.len() && found@[i].0@ == id),
            final(self).runtimes@.take(old(self).runtimes@.len() as int) == old(self).runtimes@,
            forall|i: int|
                old(self).runtimes@.len() <= i < final(self).runtimes@.len() ==> final(self).runtimes@[i].load == 0,
    {
        let ghost orig = self.runtimes@;
        let mut k: usize = 0;
        while k < found.len()
            invariant
                k <= found@.len(),
                self.wf(),
                self.runtimes@.len() >= orig.len(),
                self.runtimes@.take(orig.len() as int) == orig,
                forall|id: Seq<u8>| #![trigger registry_has(self.runtimes@, id)]
                    registry_has(self.runtimes@, id) == (registry_has(orig, id) || exists|i: int|
                        0 <= i < k && found@[i].0@ == id),
                forall|i: int|
                    orig.len() <= i < self.runtimes@.len() ==> self.runtimes@[i].load == 0,
            decreases found@.len() - k,
        {
            let ghost pre = self.runtimes@;
            let ghost fk = found@[k as int].0@;
            let id = found[k].duplicate();
            if !self.contains(&id.0) {
                self.runtimes.push(RuntimeState { id, load: 0 });
                proof {
                    assert(self.runtimes@.take(orig.len() as int) =~= pre.take(orig.len() as int));
                    assert(self.runtimes@[pre.len() as int].id.0@ == fk);
                    assert forall|i: int, j: int|
                        0 <= i < j < self.runtimes@.len() implies self.runtimes@[i].id.0@
                        != self.runtimes@[j].id.0@ by {
                        if j == pre.len() {
                            if self.runtimes@[i].id.0@ == fk {
                                assert(pre[i].id.0@ == fk);
                                assert(registry_has(pre, fk));
                            }
                        }
                    }
                    assert forall|id2: Seq<u8>| #![trigger registry_has(self.runtimes@, id2)]
                        registry_has(self.runtimes@, id2) == (registry_has(orig, id2) || exists|
                            i: int,
                        | 0 <= i < k + 1 && found@[i].0@ == id2) by {
                        if registry_has(self.runtimes@, id2) {
                            let w = choose|w: int|
                                0 <= w < self.runtimes@.len() && self.runtimes@[w].id.0@ == id2;
                            if w < pre.len() {
                                assert(pre[w].id.0@ == id2);
                                assert(registry_has(pre, id2));
                                assert(registry_has(pre, id2) == (registry_has(orig, id2)
                                    || exists|i: int| 0 <= i < k && found@[i].0@ == id2));
                                if !registry_has(orig, id2) {
                                    let v = choose|i: int| 0 <= i < k && found@[i].0@ == id2;
                                    assert(0 <= v < k + 1 && found@[v].0@ == id2);
                                }
                            } else {
                                assert(id2 == fk);
                                assert(0 <= k < k + 1 && found@[k as int].0@ == id2);
                            }
                        } else {
                            assert(!registry_has(pre, id2)) by {
                                if registry_has(pre, id2) {
                                    let w = choose|w: int|
                                        0 <= w < pre.len() && pre[w].id.0@ == id2;
                                    assert(self.runtimes@[w].id.0@ == id2);
                                }
                            }
                            if registry_has(orig, id2) {
                                assert(false);
                            }
                            if exists|i: int| 0 <= i < k + 1 && found@[i].0@ == id2 {
                                let v = choose|i: int| 0 <= i < k + 1 && found@[i].0@ == id2;
                                if v < k {
                                    assert(exists|i: int| 0 <= i < k && found@[i].0@ == id2);
                                    assert(registry_has(pre, id2) == (registry_has(orig, id2)
                                        || exists|i: int| 0 <= i < k && found@[i].0@ == id2));
                                    assert(registry_has(pre, id2));
                                } else {
                                    assert(self.runtimes@[pre.len() as int].id.0@ == id2);
                                }
                                assert(false);
                            }
                        }
                    }
                }
            } else {
                proof {
                    assert(registry_has(pre, fk));
                    assert forall|id2: Seq<u8>| #![trigger registry_has(self.runtimes@, id2)]
                        registry_has(self.runtimes@, id2) == (registry_has(orig, id2) || exists|
                            i: int,
                        | 0 <= i < k + 1 && found@[i].0@ == id2) by {
                        if registry_has(self.runtimes@, id2) {
                            if !registry_has(orig, id2) {
                                let v = choose|i: int| 0 <= i < k && found@[i].0@ == id2;
                                assert(0 <= v < k + 1 && found@[v].0@ == id2);
                            }
                        } else {
                            if exists|i: int| 0 <= i < k + 1 && found@[i].0@ == id2 {
                                let v = choose|i: int| 0 <= i < k + 1 && found@[i].0@ == id2;
                                if v < k {
                                    assert(exists|i: int| 0 <= i < k && found@[i].0@ == id2);
                                    assert(registry_has(pre, id2) == (registry_has(orig, id2)
                                        || exists|i: int| 0 <= i < k && found@[i].0@ == id2));
                                } else {
                                    assert(id2 == fk);
                                    assert(registry_has(pre, id2));
                                }
                                assert(false);
                            }
                        }
                    }
                }
            }
            k += 1;
        }
    }

    /// Deregisters the runtime bearing `id`, if present; every other entry
    /// survives unchanged.
    pub fn remove_runtime(&mut self, id: &Vec<u8>)
        requires
            old(self).wf(),
        ensures
            final(self).wf(),
            !registry_has(final(self).runtimes@, id@),
            forall|other: Seq<u8>|
                other != id@ ==> registry_has(final(self).runtimes@, other) == registry_has(
                    old(self).runtimes@,
                    other,
                ),
            registry_has(old(self).runtimes@, id@) ==> exists|i: int|
                0 <= i < old(self).runtimes@.len() && old(self).runtimes@[i].id.0@ == id@ && final(self).runtimes@ == old(self).runtimes@.remove(i),
            !registry_has(old(self).runtimes@, id@) ==> final(self).runtimes@ == old(self).runtimes@,
    {
        match self.find(id) {
            None => {
            },
            Some(i) => {
                self.runtimes.remove(i);
                proof {
                    let pre = old(self).runtimes@;
                    assert forall|other: Seq<u8>|
                        registry_has(self.runtimes@, other) implies registry_has(pre, other) by {
                        let w = choose|w: int|
                            0 <= w < self.runtimes@.len() && self.runtimes@[w].id.0@ == other;
                        if w < i {
                            assert(pre[w].id.0@ == other);
                        } else {
                            assert(pre[w + 1].id.0@ == other);
                        }
                    }
                    assert forall|other: Seq<u8>|
                        other != id@ && registry_has(pre, other) implies registry_has(
                        self.runtimes@,
                        other,
                    ) by {
                        let w = choose|w: int| 0 <= w < pre.len() && pre[w].id.0@ == other;
                        if w < i {
                            assert(self.runtimes@[w].id.0@ == other);
                        } else {
                            assert(self.runtimes@[w - 1].id.0@ == other);
                        }
                    }
                    assert forall|w: int|
                        0 <= w < self.runtimes@.len() implies self.runtimes@[w].id.0@ != id@ by {
                        if w >= i {
                            assert(self.runtimes@[w] == pre[w + 1]);
                        }
                    }
                }
            },
        }
    }

    /// Applies one round of load-probe outcomes: a reported load is stored
    /// for the runtime that reported it; a runtime that failed to answer
    /// is deregistered. Unmentioned runtimes are untouched.
    pub fn apply_probe_results(&mut self, results: Vec<ProbeResult>)
        requires
            old(self).wf(),
        ensures
            final(self).wf(),
    // a runtime that failed its probe is absent afterwards

            forall|i: int|
                0 <= i < results@.len() && results@[i].load is None ==> !registry_has(
                    final(self).runtimes@,
                    results@[i].id.0@,
                ),
            // probing registers nothing new
            forall|id: Seq<u8>|
                registry_has(final(self).runtimes@, id) ==> registry_has(old(self).runtimes@, id),
            // a runtime no outcome failed for survives the pass
            forall|id: Seq<u8>| #![trigger registry_has(final(self).runtimes@, id)]
                registry_has(old(self).runtimes@, id) && (forall|i: int|
                    0 <= i < results@.len() ==> !((#[trigger] results@[i]).id.0@ == id
                        && results@[i].load is None)) ==> registry_has(final(self).runtimes@, id),
            // a runtime no outcome mentions keeps its stored load
            forall|id: Seq<u8>, load: u16| #![trigger load_in(final(self).runtimes@, id, load)]
                load_in(old(self).runtimes@, id, load) && (forall|i: int|
                    0 <= i < results@.len() ==> (#[trigger] results@[i]).id.0@ != id) ==> load_in(
                    final(self).runtimes@,
                    id,
                    load,
                ),
            // a reported load is stored: a registered runtime whose one
            // probe outcome carries a load bears that load afterwards
            forall|i: int| #![trigger results@[i]]
                0 <= i < results@.len() && results@[i].load is Some && registry_has(
                    old(self).runtimes@,
                    results@[i].id.0@,
                ) && (forall|j: int|
                    0 <= j < results@.len() && j != i ==> (#[trigger] results@[j]).id.0@
                        != results@[i].id.0@) ==> load_in(
                    final(self).runtimes@,
                    results@[i].id.0@,
                    results@[i].load->Some_0,
                ),
    {
        let mut k: usize = 0;
        while k < results.len()
            invariant
                k <= results@.len(),
                self.wf(),
                forall|i: int|
                    0 <= i < k && results@[i].load is None ==> !registry_has(
                        self.runtimes@,
                        results@[i].id.0@,
                    ),
                forall|id: Seq<u8>|
                    registry_has(self.runtimes@, id) ==> registry_has(old(self).runtimes@, id),
                forall|id: Seq<u8>| #![trigger registry_has(self.runtimes@, id)]
                    registry_has(old(self).runtimes@, id) && (forall|i: int|
                        0 <= i < k ==> !((#[trigger] results@[i]).id.0@ == id
                            && results@[i].load is None)) ==> registry_has(self.runtimes@, id),
                forall|id: Seq<u8>, load: u16| #![trigger load_in(self.runtimes@, id, load)]
                    load_in(old(self).runtimes@, id, load) && (forall|i: int|
                        0 <= i < k ==> (#[trigger] results@[i]).id.0@ != id) ==> load_in(
                        self.runtimes@,
                        id,
                        load,
                    ),
                forall|i: int| #![trigger results@[i]]
                    0 <= i < k && results@[i].load is Some && registry_has(
                        old(self).runtimes@,
                        results@[i].id.0@,
                    ) && (forall|j: int|
                        0 <= j < results@.len() && j != i ==> (#[trigger] results@[j]).id.0@
                            != results@[i].id.0@) ==> load_in(
                        self.runtimes@,
                        results@[i].id.0@,
                        results@[i].load->Some_0,
                    ),
            decreases results@.len() - k,
        {
            let ghost pre = self.runtimes@;
            match results[k].load {
                None => {
                    self.remove_runtime(&results[k].id.0);
                    proof {
                        assert forall|i: int|
                            0 <= i < k + 1 && results@[i].load is None implies !registry_has(
                            self.runtimes@,
                            results@[i].id.0@,
                        ) by {
                            if i < k && results@[i].id.0@ != results@[k as int].id.0@ {
                                assert(!registry_has(pre, results@[i].id.0@));
                            }
                        }
                        assert forall|id: Seq<u8>| #![trigger registry_has(self.runtimes@, id)]
                            registry_has(old(self).runtimes@, id) && (forall|i: int|
                                0 <= i < k + 1 ==> !((#[trigger] results@[i]).id.0@ == id
                                    && results@[i].load is None)) implies registry_has(
                            self.runtimes@,
                            id,
                        ) by {
                            assert(registry_has(pre, id));
                            if id != results@[k as int].id.0@ {
                                assert(registry_has(self.runtimes@, id) == registry_has(pre, id));
                            }
                        }
                        assert forall|id: Seq<u8>, load: u16|
                            #![trigger load_in(self.runtimes@, id, load)]
                            load_in(old(self).runtimes@, id, load) && (forall|i: int|
                                0 <= i < k + 1 ==> (#[trigger] results@[i]).id.0@ != id) implies
                            load_in(self.runtimes@, id, load) by {
                            assert(load_in(pre, id, load));
                            if id != results@[k as int].id.0@ && load_in(pre, id, load) {
                                let w = choose|w: int|
                                    0 <= w < pre.len() && pre[w].id.0@ == id && pre[w].load
                                        == load;
                                let rm = choose|rm: int|
                                    0 <= rm < pre.len() && pre[rm].id.0@
                                        == results@[k as int].id.0@ && self.runtimes@ == pre.remove(
                                        rm,
                                    );
                                if registry_has(pre, results@[k as int].id.0@) {
                                    if w < rm {
                                        assert(self.runtimes@[w].id.0@ == id);
                                        assert(self.runtimes@[w].load == load);
                                    } else {
                                        assert(self.runtimes@[w - 1] == pre[w]);
                                    }
                                } else {
                                    assert(self.runtimes@ == pre);
                                }
                            }
                        }
                        assert forall|i2: int| #![trigger results@[i2]]
                            0 <= i2 < k + 1 && results@[i2].load is Some && registry_has(
                            old(self).runtimes@,
                            results@[i2].id.0@,
                        ) && (forall|j: int|
                            0 <= j < results@.len() && j != i2 ==> (#[trigger] results@[j]).id.0@
                                != results@[i2].id.0@) implies load_in(
                            self.runtimes@,
                            results@[i2].id.0@,
                            results@[i2].load->Some_0,
                        ) by {
                            assert(i2 < k);
                            assert(results@[k as int].id.0@ != results@[i2].id.0@);
                            assert(load_in(pre, results@[i2].id.0@, results@[i2].load->Some_0));
                            let id2 = results@[i2].id.0@;
                            let v2 = results@[i2].load->Some_0;
                            if registry_has(pre, results@[k as int].id.0@) {
                                let w = choose|w: int|
                                    0 <= w < pre.len() && pre[w].id.0@ == id2 && pre[w].load == v2;
                                let rm = choose|rm: int|
                                    0 <= rm < pre.len() && pre[rm].id.0@
                                        == results@[k as int].id.0@ && self.runtimes@ == pre.remove(
                                        rm,
                                    );
                                if w < rm {
                                    assert(self.runtimes@[w].id.0@ == id2);
                                    assert(self.runtimes@[w].load == v2);
                                } else {
                                    assert(w != rm);
                                    assert(self.runtimes@[w - 1] == pre[w]);
                                }
                            } else {
                                assert(self.runtimes@ == pre);
                            }
                        }
                    }
                },
                Some(load) => {
                    match self.find(&results[k].id.0) {
                        None => {
                            proof {
                                assert forall|id2: Seq<u8>| #![trigger registry_has(self.runtimes@, id2)]
                                    registry_has(old(self).runtimes@, id2) && (forall|w: int|
                                        0 <= w < k + 1 ==> !((#[trigger] results@[w]).id.0@ == id2
                                            && results@[w].load is None)) implies registry_has(
                                    self.runtimes@,
                                    id2,
                                ) by {
                                    assert(registry_has(pre, id2) ==> registry_has(
                                        self.runtimes@,
                                        id2,
                                    ));
                                }
                                assert forall|id2: Seq<u8>, load2: u16|
                                    #![trigger load_in(self.runtimes@, id2, load2)]
                                    load_in(old(self).runtimes@, id2, load2) && (forall|w: int|
                                        0 <= w < k + 1 ==> (#[trigger] results@[w]).id.0@ != id2)
                                    implies load_in(self.runtimes@, id2, load2) by {
                                    assert(load_in(pre, id2, load2));
                                }
                                assert forall|i2: int| #![trigger results@[i2]]
                                    0 <= i2 < k + 1 && results@[i2].load is Some && registry_has(
                                    old(self).runtimes@,
                                    results@[i2].id.0@,
                                ) && (forall|j: int|
                                    0 <= j < results@.len() && j != i2 ==> (#[trigger] results@[j]).id.0@
                                        != results@[i2].id.0@) implies load_in(
                                    self.runtimes@,
                                    results@[i2].id.0@,
                                    results@[i2].load->Some_0,
                                ) by {
                                    if i2 == k {
                                        assert forall|j: int|
                                            0 <= j < k implies !((#[trigger] results@[j]).id.0@
                                            == results@[k as int].id.0@ && results@[j].load
                                            is None) by {}
                                        assert(registry_has(pre, results@[k as int].id.0@));
                                        assert(false);
                                    } else {
                                        assert(results@[k as int].id.0@ != results@[i2].id.0@);
                                        assert(load_in(
                                            pre,
                                            results@[i2].id.0@,
                                            results@[i2].load->Some_0,
                                        ));
                                    }
                                }
                            }
                        },
                        Some(i) => {
                            let id = self.runtimes[i].id.duplicate();
                            self.runtimes.set(i, RuntimeState { id, load });
                            proof {
                                assert forall|id2: Seq<u8>|
                                    registry_has(self.runtimes@, id2) == registry_has(
                                    pre,
                                    id2,
                                ) by {
                                    if registry_has(self.runtimes@, id2) {
                                        let w = choose|w: int|
                                            0 <= w < self.runtimes@.len() && self.runtimes@[w].id.0@
                                                == id2;
                                        assert(pre[w].id.0@ == id2);
                                    }
                                    if registry_has(pre, id2) {
                                        let w = choose|w: int|
                                            0 <= w < pre.len() && pre[w].id.0@ == id2;
                                        assert(self.runtimes@[w].id.0@ == id2);
                                    }
                                }
                                assert forall|id2: Seq<u8>| #![trigger registry_has(self.runtimes@, id2)]
                                    registry_has(old(self).runtimes@, id2) && (forall|w: int|
                                        0 <= w < k + 1 ==> !((#[trigger] results@[w]).id.0@ == id2
                                            && results@[w].load is None)) implies registry_has(
                                    self.runtimes@,
                                    id2,
                                ) by {
                                    assert(registry_has(pre, id2) ==> registry_has(
                                        self.runtimes@,
                                        id2,
                                    ));
                                }
                                assert forall|id2: Seq<u8>, load2: u16|
                                    #![trigger load_in(self.runtimes@, id2, load2)]
                                    load_in(old(self).runtimes@, id2, load2) && (forall|w: int|
                                        0 <= w < k + 1 ==> (#[trigger] results@[w]).id.0@ != id2)
                                    implies load_in(self.runtimes@, id2, load2) by {
                                    assert(load_in(pre, id2, load2));
                                    let w = choose|w: int|
                                        0 <= w < pre.len() && pre[w].id.0@ == id2 && pre[w].load
                                            == load2;
                                    assert(w != i);
                                    assert(self.runtimes@[w] == pre[w]);
                                }
                                assert forall|i2: int| #![trigger results@[i2]]
                                    0 <= i2 < k + 1 && results@[i2].load is Some && registry_has(
                                    old(self).runtimes@,
                                    results@[i2].id.0@,
                                ) && (forall|j: int|
                                    0 <= j < results@.len() && j != i2 ==> (#[trigger] results@[j]).id.0@
                                        != results@[i2].id.0@) implies load_in(
                                    self.runtimes@,
                                    results@[i2].id.0@,
                                    results@[i2].load->Some_0,
                                ) by {
                                    if i2 == k {
                                        assert(self.runtimes@[i as int].id.0@
                                            == results@[k as int].id.0@);
                                        assert(self.runtimes@[i as int].load
                                            == results@[k as int].load->Some_0);
                                    } else {
                                        assert(results@[k as int].id.0@ != results@[i2].id.0@);
                                        assert(load_in(
                                            pre,
                                            results@[i2].id.0@,
                                            results@[i2].load->Some_0,
                                        ));
                                        let w2 = choose|w2: int|
                                            0 <= w2 < pre.len() && pre[w2].id.0@
                                                == results@[i2].id.0@ && pre[w2].load
                                                == results@[i2].load->Some_0;
                                        assert(w2 != i);
                                        assert(self.runtimes@[w2] == pre[w2]);
                                    }
                                }
                            }
                        },
                    }
                },
            }
            k += 1;
        }
    }

    /// Picks the spawn target: the least-loaded runtime, ties broken by
    /// the key order of runtime ids. Returns its index, or `None` when the
    /// registry is empty.
    pub fn select_least_loaded(&self) -> (r: Option<usize>)
        ensures
            match r {
                None => self.runtimes@.len() == 0,
                Some(b) => {
                    &&& b < self.runtimes@.len()
                    &&& forall|j: int|
                        0 <= j < self.runtimes@.len() ==> self.runtimes@[b as int].load
                            <= #[trigger] self.runtimes@[j].load
                    &&& forall|j: int|
                        0 <= j < self.runtimes@.len() && #[trigger] self.runtimes@[j].load
                            == self.runtimes@[b as int].load ==> lex_le(
                            self.runtimes@[b as int].id.0@,
                            self.runtimes@[j].id.0@,
                        )
                },
            },
    {
        if self.runtimes.len() == 0 {
            return None;
        }
        let mut b: usize = 0;
        let mut k: usize = 1;
        while k < self.runtimes.len()
            invariant
                b < k <= self.runtimes@.len(),
                forall|j: int|
                    0 <= j < k ==> self.runtimes@[b as int].load <= #[trigger] self.runtimes@[j].load,
                forall|j: int|
                    0 <= j < k && #[trigger] self.runtimes@[j].load
                        == self.runtimes@[b as int].load ==> lex_le(
                        self.runtimes@[b as int].id.0@,
                        self.runtimes@[j].id.0@,
                    ),
            decreases self.runtimes@.len() - k,
        {
            let cand = &self.runtimes[k];
            let cur = &self.runtimes[b];
            if cand.load < cur.load || (cand.load == cur.load && bytes_lt(&cand.id.0, &cur.id.0)) {
                proof {
                    assert forall|j: int|
                        0 <= j < k + 1 && #[trigger] self.runtimes@[j].load
                            == self.runtimes@[k as int].load implies lex_le(
                        self.runtimes@[k as int].id.0@,
                        self.runtimes@[j].id.0@,
                    ) by {
                        if j < k && self.runtimes@[j].load == self.runtimes@[b as int].load {
                            lemma_lex_le_trans(
                                self.runtimes@[k as int].id.0@,
                                self.runtimes@[b as int].id.0@,
                                self.runtimes@[j].id.0@,
                            );
                        }
                    }
                }
                b = k;
            } else {
                proof {
                    lemma_lex_total(
                        self.runtimes@[b as int].id.0@,
                        self.runtimes@[k as int].id.0@,
                    );
                }
            }
            k += 1;
        }
        Some(b)
    }
}

} // verus!
