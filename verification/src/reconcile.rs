//! Reconciliation: merging the operator's cluster floor into a freshly
//! fetched configuration, deciding which applications are new, and
//! installing the configuration — apps table and routing table rebuilt
//! together, in one step, so no request ever observes them from different
//! generations.

use vstd::prelude::*;

use crate::bytes::copy_bytes;
use crate::pool::AppState;
use crate::registry::Registry;
use crate::router::RouteTable;
use crate::router::entries_view;
use crate::router::flat_routes;
use crate::sched::Scheduler;
use crate::sched::has_app;
use crate::sched::unique_app_ids;
use crate::types::AppConfig;
use crate::types::AppId;
use crate::types::Config;
use crate::types::WorkerConfiguration;
use crate::types::config_eq;
use crate::types::config_eq_spec;

verus! {

/// One application to bring up: its identifier and the URL its code is
/// fetched from.
pub struct UnseenApp {
    pub id: AppId,
    pub script_url: Vec<u8>,
}

/// Outcome of one script fetch: the body, or `None` when the fetch failed
/// and the application is skipped until the next reconciliation.
pub struct FetchedScript {
    pub id: AppId,
    pub script: Option<Vec<u8>>,
}

/// Every listed application is one of the configuration's, with its
/// script URL.
pub open spec fn unseen_listed(v: Seq<UnseenApp>, cfg: Seq<AppConfig>) -> bool {
    forall|w: int| #![trigger v[w]]
        0 <= w < v.len() ==> exists|b: int|
            #![trigger cfg[b]]
            0 <= b < cfg.len() && v[w].id.0@ == cfg[b].id.0@ && v[w].script_url@ == cfg[b].script@
}

/// The configuration binds an application with identifier `id`.
pub open spec fn config_has_app(apps_cfg: Seq<AppConfig>, id: Seq<u8>) -> bool {
    exists|i: int| 0 <= i < apps_cfg.len() && apps_cfg[i].id.0@ == id
}

/// The worker configuration blob the document binds to `id`, the last
/// occurrence winning as elsewhere; empty when the document does not bind
/// the application.
pub open spec fn worker_of(apps_cfg: Seq<AppConfig>, id: Seq<u8>) -> Seq<u8>
    decreases apps_cfg.len(),
{
    if apps_cfg.len() == 0 {
        Seq::empty()
    } else if apps_cfg.last().id.0@ == id {
        apps_cfg.last().worker.0@
    } else {
        worker_of(apps_cfg.drop_last(), id)
    }
}

/// Some address in the cluster list equals `a`.
pub open spec fn cluster_has(cluster: Seq<Vec<u8>>, a: Seq<u8>) -> bool {
    exists|i: int| 0 <= i < cluster.len() && cluster[i]@ == a
}

/// The script fetched for `id`: the first fetch outcome for it that
/// carries a body.
pub open spec fn fetched_script(fs: Seq<FetchedScript>, id: Seq<u8>) -> Option<Seq<u8>>
    decreases fs.len(),
{
    if fs.len() == 0 {
        None
    } else if fs[0].id.0@ == id && fs[0].script is Some {
        Some(fs[0].script->Some_0@)
    } else {
        fetched_script(fs.drop_first(), id)
    }
}

pub proof fn lemma_fetched_script_take(fs: Seq<FetchedScript>, id: Seq<u8>, n: int)
    requires
        0 <= n < fs.len(),
    ensures
        fetched_script(fs.take(n + 1), id) == (if fetched_script(fs.take(n), id) is Some {
            fetched_script(fs.take(n), id)
        } else if fs[n].id.0@ == id && fs[n].script is Some {
            Some(fs[n].script->Some_0@)
        } else {
            None
        }),
    decreases n,
{
    if n == 0 {
        assert(fs.take(0).len() == 0);
        if !(fs[0].id.0@ == id && fs[0].script is Some) {
            assert(fs.take(1).drop_first() =~= fs.take(0));
        }
    } else {
        assert(fs.take(n + 1)[0] == fs[0]);
        assert(fs.take(n)[0] == fs[0]);
        if fs[0].id.0@ == id && fs[0].script is Some {
        } else {
            assert(fs.take(n + 1).drop_first() =~= fs.drop_first().take(n));
            assert(fs.take(n).drop_first() =~= fs.drop_first().take(n - 1));
            assert(fs.drop_first()[n - 1] == fs[n]);
            lemma_fetched_script_take(fs.drop_first(), id, n - 1);
        }
    }
}

/// A script found in a prefix of the outcomes is the script found in all
/// of them: the scan takes the first hit.
pub proof fn lemma_fetched_script_prefix(fs: Seq<FetchedScript>, id: Seq<u8>, n: int)
    requires
        0 <= n <= fs.len(),
        fetched_script(fs.take(n), id) is Some,
    ensures
        fetched_script(fs, id) == fetched_script(fs.take(n), id),
    decreases n,
{
    assert(n > 0);
    assert(fs.take(n)[0] == fs[0]);
    if fs[0].id.0@ == id && fs[0].script is Some {
    } else {
        assert(fs.take(n).drop_first() =~= fs.drop_first().take(n - 1));
        lemma_fetched_script_prefix(fs.drop_first(), id, n - 1);
    }
}

impl Scheduler {
    /// Decides whether a freshly fetched (and cluster-merged) configuration
    /// changes anything: `None` when it equals the installed one — the
    /// refresh then has no side effect — otherwise the applications it
    /// binds that are not yet live, in configuration order, each with its
    /// script URL. The caller fetches those scripts and completes with
    /// `finish_refresh`.
    pub fn begin_refresh(&self, new_config: &Config) -> (r: Option<Vec<UnseenApp>>)
        ensures
            (r is None) == config_eq_spec(*new_config, self.config),
            r matches Some(v) ==> {
                &&& forall|w: int| #![trigger v@[w]]
                    0 <= w < v@.len() ==> !has_app(self.apps@, v@[w].id.0@) && config_has_app(
                        new_config.apps@,
                        v@[w].id.0@,
                    )
                &&& unseen_listed(v@, new_config.apps@)
                &&& forall|i: int| #![trigger new_config.apps@[i]]
                    0 <= i < new_config.apps@.len() && !has_app(
                        self.apps@,
                        new_config.apps@[i].id.0@,
                    ) ==> exists|w: int|
                        0 <= w < v@.len() && (#[trigger] v@[w]).id.0@ == new_config.apps@[i].id.0@
            },
    {
        if config_eq(new_config, &self.config) {
            return None;
        }
        let mut v: Vec<UnseenApp> = Vec::new();
        let mut i: usize = 0;
        while i < new_config.apps.len()
            invariant
                i <= new_config.apps@.len(),
                forall|w: int| #![trigger v@[w]]
                    0 <= w < v@.len() ==> !has_app(self.apps@, v@[w].id.0@) && config_has_app(
                        new_config.apps@,
                        v@[w].id.0@,
                    ),
                unseen_listed(v@, new_config.apps@),
                forall|b: int| #![trigger new_config.apps@[b]]
                    0 <= b < i && !has_app(self.apps@, new_config.apps@[b].id.0@) ==> exists|w: int|
                        0 <= w < v@.len() && (#[trigger] v@[w]).id.0@ == new_config.apps@[b].id.0@,
            decreases new_config.apps@.len() - i,
        {
            let app = &new_config.apps[i];
            if !self.has_app_state(&app.id.0) {
                let ghost pre = v@;
                v.push(
                    UnseenApp { id: app.id.duplicate(), script_url: copy_bytes(&app.script) },
                );
                proof {
                    assert(v@[pre.len() as int].id.0@ == new_config.apps@[i as int].id.0@);
                    assert(config_has_app(
                        new_config.apps@,
                        new_config.apps@[i as int].id.0@,
                    ));
                    assert forall|w: int| 0 <= w < pre.len() implies v@[w] == pre[w] by {}
                    assert(v@[pre.len() as int].script_url@ == new_config.apps@[i as int].script@);
                    assert forall|w: int| #![trigger v@[w]]
                        0 <= w < v@.len() implies exists|b: int|
                        #![trigger new_config.apps@[b]]
                        0 <= b < new_config.apps@.len() && v@[w].id.0@
                            == new_config.apps@[b].id.0@ && v@[w].script_url@
                            == new_config.apps@[b].script@ by {
                        if w == pre.len() {
                            assert(0 <= i < new_config.apps@.len() && v@[w].id.0@
                                == new_config.apps@[i as int].id.0@ && v@[w].script_url@
                                == new_config.apps@[i as int].script@);
                        } else {
                            assert(pre[w] == v@[w]);
                        }
                    }
                }
            }
            i += 1;
        }
        Some(v)
    }

    /// Whether an application with this identifier is live.
    pub fn has_app_state(&self, id: &Vec<u8>) -> (r: bool)
        ensures
            r == has_app(self.apps@, id@),
    {
        let mut i: usize = 0;
        while i < self.apps.len()
            invariant
                i <= self.apps.len(),
                forall|j: int| 0 <= j < i ==> self.apps@[j].id.0@ != id@,
            decreases self.apps.len() - i,
        {
            if crate::bytes::bytes_eq(&self.apps[i].id.0, id) {
                return true;
            }
            i += 1;
        }
        false
    }

    /// Installs a changed configuration: brings up each newly fetched
    /// application with an empty pool, drops every application the new
    /// configuration no longer binds (its pooled instances with it), and
    /// rebuilds the whole routing table from the new configuration — all
    /// before returning, so the apps table and the routing table a request
    /// observes always come from one configuration.
    #[verifier::loop_isolation(false)]
    pub fn finish_refresh(&mut self, new_config: Config, fetched: Vec<FetchedScript>)
        requires
            old(self).wf(),
        ensures
            final(self).wf(),
            final(self).worker_config == old(self).worker_config,
            final(self).clients == old(self).clients,
            final(self).config == new_config,
            entries_view(final(self).route_mappings.entries@) == flat_routes(new_config.apps@),
            forall|id: Seq<u8>| #![trigger has_app(final(self).apps@, id)]
                has_app(final(self).apps@, id) == (config_has_app(new_config.apps@, id) && (
                has_app(old(self).apps@, id) || fetched_script(fetched@, id) is Some)),
            forall|j: int|
                0 <= j < final(self).apps@.len() && has_app(
                    old(self).apps@,
                    (#[trigger] final(self).apps@[j]).id.0@,
                ) ==> exists|j0: int|
                    0 <= j0 < old(self).apps@.len() && final(self).apps@[j] == old(self).apps@[j0],
            forall|j: int|
                0 <= j < final(self).apps@.len() && !has_app(
                    old(self).apps@,
                    (#[trigger] final(self).apps@[j]).id.0@,
                ) ==> final(self).apps@[j].ready_instances@.len() == 0
                    && final(self).apps@[j].config.0@ == worker_of(
                    new_config.apps@,
                    final(self).apps@[j].id.0@,
                ) && fetched_script(fetched@, final(self).apps@[j].id.0@) == Some(
                    final(self).apps@[j].script@,
                ),
    {
        let ghost orig = self.apps@;
        // Bring up the newly fetched applications.
        let mut fi: usize = 0;
        while fi < fetched.len()
            invariant
                fi <= fetched@.len(),
                self.clients == old(self).clients,
                self.worker_config == old(self).worker_config,
                self.route_mappings == old(self).route_mappings,
                self.config == old(self).config,
                unique_app_ids(self.apps@),
                self.apps@.len() >= orig.len(),
                self.apps@.take(orig.len() as int) == orig,
                forall|id: Seq<u8>| #![trigger has_app(self.apps@, id)]
                    has_app(self.apps@, id) == (has_app(orig, id) || fetched_script(
                        fetched@.take(fi as int),
                        id,
                    ) is Some),
                forall|j: int|
                    orig.len() <= j < self.apps@.len() ==> (#[trigger] self.apps@[j]).ready_instances@.len()
                        == 0 && self.apps@[j].config.0@ == worker_of(
                        new_config.apps@,
                        self.apps@[j].id.0@,
                    ) && fetched_script(fetched@, self.apps@[j].id.0@) == Some(
                        self.apps@[j].script@,
                    ) && !has_app(orig, self.apps@[j].id.0@),
            decreases fetched@.len() - fi,
        {
            let ghost pre = self.apps@;
            let mut inserted: bool = false;
            match &fetched[fi].script {
                None => {
                },
                Some(script) => {
                    if !self.has_app_state(&fetched[fi].id.0) {
                        let worker = Self::worker_for(&new_config, &fetched[fi].id.0);
                        self.apps.push(
                            AppState {
                                id: fetched[fi].id.duplicate(),
                                config: WorkerConfiguration(worker),
                                script: copy_bytes(script),
                                ready_instances: Vec::new(),
                            },
                        );
                        inserted = true;
                    }
                },
            }
            proof {
                let fid = fetched@[fi as int].id.0@;
                if inserted {
                    assert(self.apps@[pre.len() as int].id.0@ == fid);
                    assert(self.apps@.take(orig.len() as int) =~= pre.take(orig.len() as int));
                    assert forall|w: int| 0 <= w < pre.len() implies self.apps@[w] == pre[w] by {
                        assert(pre.push(self.apps@[pre.len() as int])[w] == pre[w]);
                    }
                    assert forall|i2: int, j2: int|
                        0 <= i2 < j2 < self.apps@.len() implies self.apps@[i2].id.0@
                        != self.apps@[j2].id.0@ by {
                        if j2 == pre.len() {
                            if self.apps@[i2].id.0@ == fid {
                                assert(has_app(pre, fid));
                            }
                        }
                    }
                    assert(fetched_script(fetched@.take(fi as int), fid) is None);
                    lemma_fetched_script_take(fetched@, fid, fi as int);
                    lemma_fetched_script_prefix(fetched@, fid, fi + 1);
                    assert(fetched_script(fetched@, fid) == Some(
                        fetched@[fi as int].script->Some_0@,
                    ));
                }
                assert forall|id: Seq<u8>| #![trigger has_app(self.apps@, id)]
                    has_app(self.apps@, id) == (has_app(orig, id) || fetched_script(
                        fetched@.take(fi + 1),
                        id,
                    ) is Some) by {
                    lemma_fetched_script_take(fetched@, id, fi as int);
                    if has_app(self.apps@, id) {
                        let w = choose|w: int|
                            0 <= w < self.apps@.len() && self.apps@[w].id.0@ == id;
                        if w < pre.len() {
                            assert(pre[w].id.0@ == id);
                            assert(has_app(pre, id));
                        } else {
                            assert(id == fetched@[fi as int].id.0@);
                        }
                    } else {
                        if has_app(pre, id) {
                            let w = choose|w: int| 0 <= w < pre.len() && pre[w].id.0@ == id;
                            assert(self.apps@[w].id.0@ == id);
                            assert(false);
                        }
                        if fetched_script(fetched@.take(fi + 1), id) is Some {
                            if fetched_script(fetched@.take(fi as int), id) is Some {
                                assert(has_app(pre, id));
                                assert(false);
                            } else {
                                assert(id == fetched@[fi as int].id.0@);
                                assert(fetched@[fi as int].script is Some);
                                assert(inserted || has_app(pre, id));
                                assert(false);
                            }
                        }
                    }
                }
            }
            fi += 1;
        }
        proof {
            assert(fetched@.take(fetched@.len() as int) =~= fetched@);
        }
        let ghost mid = self.apps@;
        // Drop the applications the new configuration no longer binds.
        let mut kept: Vec<AppState> = Vec::new();
        let ghost mut m: int = 0;
        while self.apps.len() > 0
            invariant
                0 <= m <= mid.len(),
                self.clients == old(self).clients,
                self.worker_config == old(self).worker_config,
                self.route_mappings == old(self).route_mappings,
                self.config == old(self).config,
                self.apps@ == mid.skip(m),
                unique_app_ids(kept@),
                forall|w: int| #![trigger kept@[w]]
                    0 <= w < kept@.len() ==> config_has_app(new_config.apps@, kept@[w].id.0@),
                forall|w: int| #![trigger kept@[w]]
                    0 <= w < kept@.len() ==> exists|w0: int|
                        0 <= w0 < m && kept@[w] == #[trigger] mid[w0],
                forall|id: Seq<u8>| #![trigger has_app(kept@, id)]
                    has_app(kept@, id) == (has_app(mid.take(m), id) && config_has_app(
                        new_config.apps@,
                        id,
                    )),
            decreases self.apps@.len(),
        {
            let ghost pre_kept = kept@;
            let a = self.apps.remove(0);
            proof {
                assert(a == mid[m]);
                assert(mid.skip(m).remove(0) =~= mid.skip(m + 1));
                assert(mid.take(m + 1) =~= mid.take(m).push(mid[m]));
            }
            let keep = Self::config_binds(&new_config, &a.id.0);
            if keep {
                kept.push(a);
                proof {
                    assert(kept@[pre_kept.len() as int] == mid[m]);
                    assert forall|w: int| 0 <= w < pre_kept.len() implies kept@[w]
                        == pre_kept[w] by {}
                    assert forall|i2: int, j2: int|
                        0 <= i2 < j2 < kept@.len() implies kept@[i2].id.0@ != kept@[j2].id.0@ by {
                        if j2 == pre_kept.len() {
                            if kept@[i2].id.0@ == mid[m].id.0@ {
                                let w0 = choose|w0: int| 0 <= w0 < m && kept@[i2] == mid[w0];
                                assert(mid[w0].id.0@ == mid[m].id.0@);
                            }
                        }
                    }
                }
            }
            proof {
                assert forall|id: Seq<u8>| #![trigger has_app(kept@, id)]
                    has_app(kept@, id) == (has_app(mid.take(m + 1), id) && config_has_app(
                        new_config.apps@,
                        id,
                    )) by {
                    if has_app(kept@, id) {
                        let w = choose|w: int| 0 <= w < kept@.len() && kept@[w].id.0@ == id;
                        if w < pre_kept.len() {
                            assert(has_app(pre_kept, id));
                            let tk = mid.take(m);
                            let w0 = choose|w0: int|
                                0 <= w0 < tk.len() && (#[trigger] tk[w0]).id.0@ == id;
                            assert(mid.take(m + 1)[w0].id.0@ == id);
                        } else {
                            assert(kept@[w] == mid[m]);
                            assert(mid.take(m + 1)[m] == mid[m]);
                        }
                    } else {
                        if has_app(mid.take(m + 1), id) && config_has_app(new_config.apps@, id) {
                            let tk = mid.take(m + 1);
                            let w0 = choose|w0: int|
                                0 <= w0 < tk.len() && (#[trigger] tk[w0]).id.0@ == id;
                            if w0 < m {
                                assert(mid.take(m)[w0].id.0@ == id);
                                assert(has_app(mid.take(m), id));
                                assert(has_app(pre_kept, id));
                                let w = choose|w: int|
                                    0 <= w < pre_kept.len() && pre_kept[w].id.0@ == id;
                                assert(kept@[w].id.0@ == id);
                            } else {
                                assert(mid[m].id.0@ == id);
                                assert(keep);
                                assert(kept@[pre_kept.len() as int].id.0@ == id);
                            }
                            assert(false);
                        }
                    }
                }
                m = m + 1;
            }
        }
        proof {
            assert(mid.take(m) =~= mid);
        }
        self.apps = kept;
        // Rebuild the routing table from the new configuration and install it.
        self.route_mappings = RouteTable::build(&new_config.apps);
        self.config = new_config;
        proof {
            assert forall|j: int|
                0 <= j < self.apps@.len() && has_app(
                    orig,
                    (#[trigger] self.apps@[j]).id.0@,
                ) implies exists|j0: int| 0 <= j0 < orig.len() && self.apps@[j] == orig[j0] by {
                let w0 = choose|w0: int| 0 <= w0 < mid.len() && self.apps@[j] == mid[w0];
                if w0 >= orig.len() {
                    assert(!has_app(orig, mid[w0].id.0@));
                    assert(false);
                } else {
                    assert(mid.take(orig.len() as int)[w0] == mid[w0]);
                    assert(orig[w0] == mid[w0]);
                }
            }
            assert forall|j: int|
                0 <= j < self.apps@.len() && !has_app(
                    orig,
                    (#[trigger] self.apps@[j]).id.0@,
                ) implies self.apps@[j].ready_instances@.len() == 0 && self.apps@[j].config.0@
                == worker_of(new_config.apps@, self.apps@[j].id.0@) && fetched_script(
                fetched@,
                self.apps@[j].id.0@,
            ) == Some(self.apps@[j].script@) by {
                let w0 = choose|w0: int| 0 <= w0 < mid.len() && self.apps@[j] == mid[w0];
                if w0 < orig.len() {
                    assert(mid.take(orig.len() as int)[w0] == mid[w0]);
                    assert(orig[w0] == mid[w0]);
                    assert(orig[w0].id.0@ == self.apps@[j].id.0@);
                    assert(has_app(orig, self.apps@[j].id.0@));
                    assert(false);
                }
            }
        }
    }

    /// The worker configuration blob the document binds to `id`; empty
    /// when unbound. The spawn directive forwards this per-application
    /// blob, as the configuration states it.
    fn worker_for(config: &Config, id: &Vec<u8>) -> (r: Vec<u8>)
        ensures
            r@ == worker_of(config.apps@, id@),
    {
        let mut r: Vec<u8> = Vec::new();
        proof {
            assert(config.apps@.take(0) =~= Seq::<AppConfig>::empty());
        }
        let mut i: usize = 0;
        while i < config.apps.len()
            invariant
                i <= config.apps@.len(),
                r@ == worker_of(config.apps@.take(i as int), id@),
            decreases config.apps@.len() - i,
        {
            proof {
                assert(config.apps@.take(i + 1).drop_last() =~= config.apps@.take(i as int));
                assert(config.apps@.take(i + 1).last() == config.apps@[i as int]);
            }
            if crate::bytes::bytes_eq(&config.apps[i].id.0, id) {
                r = copy_bytes(&config.apps[i].worker.0);
            }
            i += 1;
        }
        proof {
            assert(config.apps@.take(config.apps@.len() as int) =~= config.apps@);
        }
        r
    }

    /// Whether the configuration binds an application with this identifier.
    fn config_binds(config: &Config, id: &Vec<u8>) -> (r: bool)
        ensures
            r == config_has_app(config.apps@, id@),
    {
        let mut i: usize = 0;
        while i < config.apps.len()
            invariant
                i <= config.apps@.len(),
                forall|j: int| 0 <= j < i ==> config.apps@[j].id.0@ != id@,
            decreases config.apps@.len() - i,
        {
            if crate::bytes::bytes_eq(&config.apps[i].id.0, id) {
                return true;
            }
            i += 1;
        }
        false
    }
}

/// Appends to the fetched configuration's cluster every operator-provided
/// address not already present: the merged cluster is exactly the union.
#[verifier::loop_isolation(false)]
pub fn merge_cluster(config: &mut Config, append: &Vec<Vec<u8>>)
    ensures
        final(config).apps == old(config).apps,
        final(config).instance_expiration_time_ms == old(config).instance_expiration_time_ms,
        final(config).request_timeout_ms == old(config).request_timeout_ms,
        final(config).max_request_body_size_bytes == old(config).max_request_body_size_bytes,
        final(config).runtime_cluster@.take(old(config).runtime_cluster@.len() as int) == old(
            config,
        ).runtime_cluster@,
        forall|a: Seq<u8>| #![trigger cluster_has(final(config).runtime_cluster@, a)]
            cluster_has(final(config).runtime_cluster@, a) == (cluster_has(
                old(config).runtime_cluster@,
                a,
            ) || exists|i: int| 0 <= i < append@.len() && append@[i]@ == a),
{
    let ghost orig = config.runtime_cluster@;
    let mut k: usize = 0;
    while k < append.len()
        invariant
            k <= append@.len(),
            config.runtime_cluster@.len() >= orig.len(),
            config.runtime_cluster@.take(orig.len() as int) == orig,
            config.apps == old(config).apps,
            config.instance_expiration_time_ms == old(config).instance_expiration_time_ms,
            config.request_timeout_ms == old(config).request_timeout_ms,
            config.max_request_body_size_bytes == old(config).max_request_body_size_bytes,
            forall|a: Seq<u8>| #![trigger cluster_has(config.runtime_cluster@, a)]
                cluster_has(config.runtime_cluster@, a) == (cluster_has(orig, a) || exists|i: int|
                    0 <= i < k && append@[i]@ == a),
        decreases append@.len() - k,
    {
        let ghost pre = config.runtime_cluster@;
        let ghost ak = append@[k as int]@;
        let mut present: bool = false;
        let mut i: usize = 0;
        while i < config.runtime_cluster.len()
            invariant
                i <= config.runtime_cluster@.len(),
                config.runtime_cluster@ == pre,
                ak == append@[k as int]@,
                k < append@.len(),
                present == exists|j: int| 0 <= j < i && pre[j]@ == ak,
            decreases config.runtime_cluster@.len() - i,
        {
            if crate::bytes::bytes_eq(&config.runtime_cluster[i], &append[k]) {
                present = true;
            }
            i += 1;
        }
        proof {
            assert(present == cluster_has(pre, ak));
        }
        if !present {
            config.runtime_cluster.push(copy_bytes(&append[k]));
            proof {
                assert(config.runtime_cluster@.take(orig.len() as int) =~= pre.take(
                    orig.len() as int,
                ));
                assert(config.runtime_cluster@[pre.len() as int]@ == ak);
            }
        }
        proof {
            assert forall|a: Seq<u8>| #![trigger cluster_has(config.runtime_cluster@, a)]
                cluster_has(config.runtime_cluster@, a) == (cluster_has(orig, a) || exists|i2: int|
                    0 <= i2 < k + 1 && append@[i2]@ == a) by {
                if cluster_has(config.runtime_cluster@, a) {
                    let w = choose|w: int|
                        0 <= w < config.runtime_cluster@.len() && config.runtime_cluster@[w]@ == a;
                    if w < pre.len() {
                        assert(pre[w]@ == a);
                        assert(cluster_has(pre, a));
                        if !cluster_has(orig, a) {
                            let v = choose|i2: int| 0 <= i2 < k && append@[i2]@ == a;
                            assert(0 <= v < k + 1 && append@[v]@ == a);
                        }
                    } else {
                        assert(a == ak);
                        assert(0 <= k < k + 1 && append@[k as int]@ == a);
                    }
                } else {
                    assert(!cluster_has(pre, a)) by {
                        if cluster_has(pre, a) {
                            let w = choose|w: int| 0 <= w < pre.len() && pre[w]@ == a;
                            assert(config.runtime_cluster@[w]@ == a);
                        }
                    }
                    if cluster_has(orig, a) {
                        assert(false);
                    }
                    if exists|i2: int| 0 <= i2 < k + 1 && append@[i2]@ == a {
                        let v = choose|i2: int| 0 <= i2 < k + 1 && append@[i2]@ == a;
                        if v < k {
                            assert(exists|i2: int| 0 <= i2 < k && append@[i2]@ == a);
                            assert(cluster_has(pre, a) == (cluster_has(orig, a) || exists|i2: int|
                                0 <= i2 < k && append@[i2]@ == a));
                        } else {
                            assert(a == ak);
                            assert(present);
                            assert(cluster_has(pre, a));
                        }
                        assert(false);
                    }
                }
            }
        }
        k += 1;
    }
}

} // verus!
