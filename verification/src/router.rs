//! The routing table: maps (domain, path prefix) bindings to applications.
//!
//! The table is the flat list of bindings in insertion order. Lookup picks,
//! among the bindings whose domain equals the normalized host and whose
//! prefix is a prefix of the request path, the lexicographically greatest
//! prefix — which, prefixes of one path being nested, is the longest one —
//! and for equal prefixes the latest binding, so a rebuild that writes a
//! pair twice behaves like an ordered map overwrite.

use vstd::prelude::*;

use crate::bytes::bytes_eq;
use crate::bytes::bytes_le;
use crate::bytes::copy_bytes;
use crate::bytes::index_of_first;
use crate::bytes::is_prefix_of;
use crate::bytes::lemma_index_of_first;
use crate::bytes::lemma_lex_le_trans;
use crate::bytes::lemma_lex_total;
use crate::bytes::lemma_matching_prefix_order;
use crate::bytes::lex_le;
use crate::bytes::lex_lt;
use crate::bytes::starts_with;
use crate::bytes::take_bytes;
use crate::types::AppConfig;
use crate::types::AppId;
use crate::types::AppRoute;

verus! {

/// One binding of the routing table.
pub struct RouteEntry {
    pub domain: Vec<u8>,
    pub path_prefix: Vec<u8>,
    pub app: AppId,
}

/// The routing table.
pub struct RouteTable {
    pub entries: Vec<RouteEntry>,
}

/// The binding at `e` applies to a request for `host` and `path`.
pub open spec fn entry_matches(e: RouteEntry, host: Seq<u8>, path: Seq<u8>) -> bool {
    e.domain@ == host && is_prefix_of(e.path_prefix@, path)
}

/// Binding `i` wins the lookup for (`host`, `path`): it matches, every
/// other matching binding has a lexicographically smaller — hence shorter —
/// prefix or the same prefix at an earlier position.
pub open spec fn resolved_at(entries: Seq<RouteEntry>, host: Seq<u8>, path: Seq<u8>, i: int) -> bool {
    &&& 0 <= i < entries.len()
    &&& entry_matches(entries[i], host, path)
    &&& forall|j: int|
        0 <= j < entries.len() && entry_matches(#[trigger] entries[j], host, path) ==> lex_le(
            entries[j].path_prefix@,
            entries[i].path_prefix@,
        )
    &&& forall|j: int|
        i < j < entries.len() && entry_matches(#[trigger] entries[j], host, path)
            ==> entries[j].path_prefix@ != entries[i].path_prefix@
    &&& forall|j: int|
        0 <= j < entries.len() && entry_matches(#[trigger] entries[j], host, path)
            ==> entries[j].path_prefix@.len() <= entries[i].path_prefix@.len()
}

/// Some binding applies to a request for `host` and `path`.
pub open spec fn route_match_exists(entries: Seq<RouteEntry>, host: Seq<u8>, path: Seq<u8>) -> bool {
    exists|i: int| 0 <= i < entries.len() && entry_matches(#[trigger] entries[i], host, path)
}

/// View of a binding list as (domain, prefix, application id) triples.
pub open spec fn entries_view(entries: Seq<RouteEntry>) -> Seq<(Seq<u8>, Seq<u8>, Seq<u8>)> {
    entries.map_values(|e: RouteEntry| (e.domain@, e.path_prefix@, e.app.0@))
}

/// All bindings of a configuration's applications, each application's
/// routes in order, applications in configuration order.
pub open spec fn flat_routes(apps: Seq<AppConfig>) -> Seq<(Seq<u8>, Seq<u8>, Seq<u8>)>
    decreases apps.len(),
{
    if apps.len() == 0 {
        Seq::empty()
    } else {
        flat_routes(apps.drop_last()) + routes_of_app(apps.last())
    }
}

/// The bindings contributed by one application.
pub open spec fn routes_of_app(a: AppConfig) -> Seq<(Seq<u8>, Seq<u8>, Seq<u8>)> {
    a.routes@.map_values(|r: AppRoute| (r.domain@, r.path_prefix@, a.id.0@))
}

pub proof fn lemma_flat_routes_take(apps: Seq<AppConfig>, i: int)
    requires
        0 <= i < apps.len(),
    ensures
        flat_routes(apps.take(i + 1)) == flat_routes(apps.take(i)) + routes_of_app(apps[i]),
{
    assert(apps.take(i + 1).drop_last() =~= apps.take(i));
    assert(apps.take(i + 1).last() == apps[i]);
}

impl RouteTable {
    /// An empty table: every lookup fails.
    pub fn new() -> (r: RouteTable)
        ensures
            r.entries@.len() == 0,
    {
        RouteTable { entries: Vec::new() }
    }

    /// Appends the binding (domain, prefix) → app; because lookup prefers
    /// later bindings on equal prefixes, this overrides an earlier binding
    /// of the same pair.
    pub fn insert(&mut self, domain: Vec<u8>, path_prefix: Vec<u8>, app: AppId)
        ensures
            final(self).entries@.len() == old(self).entries@.len() + 1,
            final(self).entries@.take(old(self).entries@.len() as int) == old(self).entries@,
            final(self).entries@.last().domain@ == domain@,
            final(self).entries@.last().path_prefix@ == path_prefix@,
            final(self).entries@.last().app.0@ == app.0@,
    {
        let ghost old_entries = self.entries@;
        self.entries.push(RouteEntry { domain, path_prefix, app });
        proof {
            assert(self.entries@.take(old_entries.len() as int) =~= old_entries);
        }
    }

    /// Builds the table of a configuration: one binding per route of each
    /// application, in configuration order.
    pub fn build(apps: &Vec<AppConfig>) -> (r: RouteTable)
        ensures
            entries_view(r.entries@) == flat_routes(apps@),
    {
        let mut table = RouteTable::new();
        proof {
            assert(entries_view(table.entries@) =~= flat_routes(apps@.take(0)));
        }
        let mut i: usize = 0;
        while i < apps.len()
            invariant
                i <= apps.len(),
                entries_view(table.entries@) == flat_routes(apps@.take(i as int)),
            decreases apps.len() - i,
        {
            let app = &apps[i];
            let mut j: usize = 0;
            while j < app.routes.len()
                invariant
                    i < apps.len(),
                    j <= app.routes.len(),
                    app == apps@[i as int],
                    entries_view(table.entries@) == flat_routes(apps@.take(i as int))
                        + routes_of_app(apps@[i as int]).take(j as int),
                decreases app.routes.len() - j,
            {
                let route = &app.routes[j];
                let ghost before = table.entries@;
                table.insert(
                    copy_bytes(&route.domain),
                    copy_bytes(&route.path_prefix),
                    app.id.duplicate(),
                );
                proof {
                    let rop = routes_of_app(apps@[i as int]);
                    let flat = flat_routes(apps@.take(i as int));
                    let pre = entries_view(before);
                    assert forall|m: int| 0 <= m < before.len() implies table.entries@[m]
                        == before[m] by {
                        assert(table.entries@.take(before.len() as int)[m] == table.entries@[m]);
                    }
                    assert(table.entries@[before.len() as int] == table.entries@.last());
                    assert(rop[j as int] == (
                        apps@[i as int].routes@[j as int].domain@,
                        apps@[i as int].routes@[j as int].path_prefix@,
                        apps@[i as int].id.0@,
                    ));
                    assert(pre.len() == before.len());
                    assert forall|m: int| 0 <= m < before.len() + 1 implies entries_view(
                        table.entries@,
                    )[m] == (flat + rop.take(j + 1))[m] by {
                        assert(entries_view(table.entries@)[m] == (
                            table.entries@[m].domain@,
                            table.entries@[m].path_prefix@,
                            table.entries@[m].app.0@,
                        ));
                        if m < before.len() {
                            assert(pre[m] == (
                                before[m].domain@,
                                before[m].path_prefix@,
                                before[m].app.0@,
                            ));
                            assert(pre[m] == (flat + rop.take(j as int))[m]);
                            if m >= flat.len() {
                                assert((flat + rop.take(j as int))[m] == rop.take(j as int)[m
                                    - flat.len()]);
                                assert((flat + rop.take(j + 1))[m] == rop.take(j + 1)[m
                                    - flat.len()]);
                            }
                        } else {
                            assert((flat + rop.take(j + 1))[m] == rop.take(j + 1)[j as int]);
                        }
                    }
                    assert(entries_view(table.entries@) =~= flat + rop.take(j + 1));
                }
                j += 1;
            }
            proof {
                lemma_flat_routes_take(apps@, i as int);
                assert(routes_of_app(apps@[i as int]).take(app.routes@.len() as int)
                    =~= routes_of_app(apps@[i as int]));
            }
            i += 1;
        }
        proof {
            assert(apps@.take(apps@.len() as int) =~= apps@);
        }
        table
    }

    /// Looks up the application for a normalized host and a request path:
    /// the longest matching prefix wins; `None` when the host has no
    /// binding or no prefix matches.
    pub fn resolve(&self, host: &Vec<u8>, path: &Vec<u8>) -> (r: Option<AppId>)
        ensures
            match r {
                None => forall|i: int|
                    0 <= i < self.entries@.len() ==> !entry_matches(
                        #[trigger] self.entries@[i],
                        host@,
                        path@,
                    ),
                Some(app) => exists|i: int|
                    resolved_at(self.entries@, host@, path@, i) && app.0@ == self.entries@[i].app.0@,
            },
    {
        let mut best: Option<usize> = None;
        let mut k: usize = 0;
        while k < self.entries.len()
            invariant
                k <= self.entries.len(),
                match best {
                    None => forall|j: int|
                        0 <= j < k ==> !entry_matches(#[trigger] self.entries@[j], host@, path@),
                    Some(b) => {
                        &&& b < k
                        &&& entry_matches(self.entries@[b as int], host@, path@)
                        &&& forall|j: int|
                            0 <= j < k && entry_matches(#[trigger] self.entries@[j], host@, path@)
                                ==> lex_le(
                                self.entries@[j].path_prefix@,
                                self.entries@[b as int].path_prefix@,
                            )
                        &&& forall|j: int|
                            b < j < k && entry_matches(#[trigger] self.entries@[j], host@, path@)
                                ==> self.entries@[j].path_prefix@
                                != self.entries@[b as int].path_prefix@
                    },
                },
            decreases self.entries.len() - k,
        {
            let e = &self.entries[k];
            if bytes_eq(&e.domain, host) && starts_with(path, &e.path_prefix) {
                match best {
                    None => {
                        best = Some(k);
                    },
                    Some(b) => {
                        let bp = &self.entries[b].path_prefix;
                        if bytes_le(bp, &e.path_prefix) {
                            proof {
                                assert forall|j: int|
                                    0 <= j < k + 1 && entry_matches(
                                        #[trigger] self.entries@[j],
                                        host@,
                                        path@,
                                    ) implies lex_le(
                                    self.entries@[j].path_prefix@,
                                    self.entries@[k as int].path_prefix@,
                                ) by {
                                    if j < k {
                                        lemma_lex_le_trans(
                                            self.entries@[j].path_prefix@,
                                            self.entries@[b as int].path_prefix@,
                                            self.entries@[k as int].path_prefix@,
                                        );
                                    }
                                }
                            }
                            best = Some(k);
                        } else {
                            proof {
                                lemma_lex_total(
                                    self.entries@[b as int].path_prefix@,
                                    self.entries@[k as int].path_prefix@,
                                );
                            }
                        }
                    },
                }
            }
            k += 1;
        }
        match best {
            None => None,
            Some(b) => {
                proof {
                    assert forall|j: int|
                        0 <= j < self.entries@.len() && entry_matches(
                            #[trigger] self.entries@[j],
                            host@,
                            path@,
                        ) implies self.entries@[j].path_prefix@.len()
                        <= self.entries@[b as int].path_prefix@.len() by {
                        if self.entries@[j].path_prefix@ != self.entries@[b as int].path_prefix@ {
                            lemma_matching_prefix_order(
                                self.entries@[j].path_prefix@,
                                self.entries@[b as int].path_prefix@,
                                path@,
                            );
                        }
                    }
                    assert(resolved_at(self.entries@, host@, path@, b as int));
                }
                Some(AppId(copy_bytes(&self.entries[b].app.0)))
            },
        }
    }
}

/// The host with any `:port` suffix removed: everything before the first
/// colon (byte 58).
pub open spec fn strip_port_spec(host: Seq<u8>) -> Seq<u8> {
    host.take(index_of_first(host, 58))
}

/// Normalizes a host header value by stripping any `:port` suffix.
pub fn strip_port(host: &Vec<u8>) -> (r: Vec<u8>)
    ensures
        r@ == strip_port_spec(host@),
{
    let mut i: usize = 0;
    while i < host.len() && host[i] != 58
        invariant
            i <= host.len(),
            forall|j: int| 0 <= j < i ==> host@[j] != 58,
        decreases host.len() - i,
    {
        i += 1;
    }
    proof {
        lemma_index_of_first(host@, 58);
    }
    take_bytes(host, i)
}

} // verus!
