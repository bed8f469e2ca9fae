//! Request translation: building the request object handed to a worker
//! from the inbound request's parts.

use vstd::prelude::*;

use crate::bytes::append_bytes;
use crate::bytes::bytes_eq;
use crate::bytes::copy_bytes;
use crate::router::strip_port;
use crate::router::strip_port_spec;
use crate::types::HttpBody;
use crate::types::RequestObject;

verus! {

/// The bytes of `https://`, the scheme presumed for the reconstructed URL.
pub open spec fn https_prefix() -> Seq<u8> {
    seq![104u8, 116u8, 116u8, 112u8, 115u8, 58u8, 47u8, 47u8]
}

/// The bytes of the `host` header name.
pub open spec fn host_key() -> Seq<u8> {
    seq![104u8, 111u8, 115u8, 116u8]
}

/// The values carried under name `k` in a flat header list, in order.
pub open spec fn values_for(flat: Seq<(Vec<u8>, Vec<u8>)>, k: Seq<u8>) -> Seq<Seq<u8>>
    decreases flat.len(),
{
    if flat.len() == 0 {
        Seq::empty()
    } else {
        values_for(flat.drop_last(), k) + (if flat.last().0@ == k {
            seq![flat.last().1@]
        } else {
            Seq::empty()
        })
    }
}

pub proof fn lemma_values_for_take(flat: Seq<(Vec<u8>, Vec<u8>)>, k: Seq<u8>, n: int)
    requires
        0 <= n < flat.len(),
    ensures
        values_for(flat.take(n + 1), k) == values_for(flat.take(n), k) + (if flat[n].0@ == k {
            seq![flat[n].1@]
        } else {
            Seq::empty()
        }),
{
    assert(flat.take(n + 1).drop_last() =~= flat.take(n));
    assert(flat.take(n + 1).last() == flat[n]);
}

/// Every name among the first `upto` flat entries has a grouped entry.
pub open spec fn names_covered(
    flat: Seq<(Vec<u8>, Vec<u8>)>,
    upto: int,
    r: Seq<(Vec<u8>, Vec<Vec<u8>>)>,
) -> bool {
    forall|b: int| #![trigger flat[b]]
        0 <= b < upto ==> exists|j: int| 0 <= j < r.len() && (#[trigger] r[j]).0@ == flat[b].0@
}

/// Every non-host name among the flat entries appears in the built
/// multimap.
pub open spec fn header_names_carried(
    flat: Seq<(Vec<u8>, Vec<u8>)>,
    out: Seq<(Vec<u8>, Vec<Vec<u8>>)>,
) -> bool {
    forall|i: int| #![trigger flat[i]]
        0 <= i < flat.len() && flat[i].0@ != host_key() ==> exists|j: int|
            0 <= j < out.len() && (#[trigger] out[j]).0@ == flat[i].0@
}

/// Groups a flat header list into a multimap: one entry per distinct
/// name, holding that name's values in arrival order.
#[verifier::rlimit(100)]
pub fn group_headers(flat: &Vec<(Vec<u8>, Vec<u8>)>) -> (r: Vec<(Vec<u8>, Vec<Vec<u8>>)>)
    ensures
        forall|j: int|
            0 <= j < r@.len() ==> (#[trigger] r@[j]).1@.len() > 0 && r@[j].1@.map_values(
                |x: Vec<u8>| x@,
            ) == values_for(flat@, r@[j].0@),
        forall|j1: int, j2: int| #![trigger r@[j1], r@[j2]]
            0 <= j1 < j2 < r@.len() ==> r@[j1].0@ != r@[j2].0@,
        names_covered(flat@, flat@.len() as int, r@),
{
    let mut r: Vec<(Vec<u8>, Vec<Vec<u8>>)> = Vec::new();
    let mut i: usize = 0;
    while i < flat.len()
        invariant
            i <= flat@.len(),
            forall|j: int|
                0 <= j < r@.len() ==> (#[trigger] r@[j]).1@.len() > 0 && r@[j].1@.map_values(
                    |x: Vec<u8>| x@,
                ) == values_for(flat@.take(i as int), r@[j].0@),
            forall|j1: int, j2: int| #![trigger r@[j1], r@[j2]]
                0 <= j1 < j2 < r@.len() ==> r@[j1].0@ != r@[j2].0@,
            names_covered(flat@, i as int, r@),
        decreases flat@.len() - i,
    {
        let ghost pre = r@;
        let name = &flat[i].0;
        let mut found: Option<usize> = None;
        let mut j: usize = 0;
        while j < r.len()
            invariant
                j <= r@.len(),
                r@ == pre,
                match found {
                    None => forall|w: int| 0 <= w < j ==> (#[trigger] r@[w]).0@ != name@,
                    Some(f) => f < r@.len() && r@[f as int].0@ == name@,
                },
            decreases r@.len() - j,
        {
            if found.is_none() && bytes_eq(&r[j].0, name) {
                found = Some(j);
            }
            j += 1;
        }
        proof {
            lemma_values_for_take(flat@, name@, i as int);
        }
        match found {
            None => {
                let mut vs: Vec<Vec<u8>> = Vec::new();
                vs.push(copy_bytes(&flat[i].1));
                r.push((copy_bytes(name), vs));
                proof {
                    assert(r@[pre.len() as int].0@ == name@);
                    assert forall|w: int| 0 <= w < pre.len() implies r@[w] == pre[w] by {}
                    assert(r@[pre.len() as int].1@.map_values(|x: Vec<u8>| x@) =~= values_for(
                        flat@.take(i + 1),
                        name@,
                    )) by {
                        assert(values_for(flat@.take(i as int), name@) =~= Seq::<Seq<u8>>::empty())
                            by {
                            if values_for(flat@.take(i as int), name@).len() > 0 {
                                lemma_values_for_nonempty(flat@.take(i as int), name@);
                                let w0 = choose|w0: int|
                                    0 <= w0 < flat@.take(i as int).len() && flat@.take(
                                        i as int,
                                    )[w0].0@ == name@;
                                assert(flat@[w0].0@ == name@);
                                assert(exists|j2: int|
                                    0 <= j2 < pre.len() && (#[trigger] pre[j2]).0@ == flat@[w0].0@);
                            }
                        }
                    }
                    assert forall|j2: int|
                        0 <= j2 < r@.len() implies (#[trigger] r@[j2]).1@.map_values(
                        |x: Vec<u8>| x@,
                    ) == values_for(flat@.take(i + 1), r@[j2].0@) by {
                        if j2 < pre.len() {
                            lemma_values_for_take(flat@, r@[j2].0@, i as int);
                            assert(r@[j2].0@ != name@);
                        }
                    }
                    assert(names_covered(flat@, i + 1, r@)) by {
                        assert forall|b: int| #![trigger flat@[b]]
                            0 <= b < i + 1 implies exists|j2: int|
                            0 <= j2 < r@.len() && (#[trigger] r@[j2]).0@ == flat@[b].0@ by {
                            if b < i {
                                assert(exists|j2: int|
                                    0 <= j2 < pre.len() && (#[trigger] pre[j2]).0@ == flat@[b].0@);
                                let j2 = choose|j2: int|
                                    0 <= j2 < pre.len() && (#[trigger] pre[j2]).0@ == flat@[b].0@;
                                assert(r@[j2].0@ == flat@[b].0@);
                            } else {
                                assert(r@[pre.len() as int].0@ == flat@[b].0@);
                            }
                        }
                    }
                }
            },
            Some(f) => {
                let mut entry = r.remove(f);
                entry.1.push(copy_bytes(&flat[i].1));
                r.insert(f, entry);
                proof {
                    assert(r@ =~= pre.update(f as int, r@[f as int]));
                    assert(r@[f as int].0@ == name@);
                    assert(r@[f as int].1@ =~= pre[f as int].1@.push(r@[f as int].1@.last()));
                    assert(r@[f as int].1@.last()@ == flat@[i as int].1@);
                    assert forall|j2: int|
                        0 <= j2 < r@.len() implies (#[trigger] r@[j2]).1@.map_values(
                        |x: Vec<u8>| x@,
                    ) == values_for(flat@.take(i + 1), r@[j2].0@) by {
                        if j2 != f {
                            lemma_values_for_take(flat@, r@[j2].0@, i as int);
                            assert(r@[j2] == pre[j2]);
                            assert(r@[j2].0@ != name@);
                        } else {
                            assert(r@[f as int].1@.map_values(|x: Vec<u8>| x@) =~= pre[
                                f as int].1@.map_values(|x: Vec<u8>| x@).push(flat@[i as int].1@));
                            assert(values_for(flat@.take(i + 1), name@) =~= values_for(
                                flat@.take(i as int),
                                name@,
                            ).push(flat@[i as int].1@));
                        }
                    }
                    assert forall|w: int| #![trigger r@[w]]
                        0 <= w < r@.len() implies r@[w].0@ == pre[w].0@ by {}
                    assert(names_covered(flat@, i + 1, r@)) by {
                        assert forall|b: int| #![trigger flat@[b]]
                            0 <= b < i + 1 implies exists|j2: int|
                            0 <= j2 < r@.len() && (#[trigger] r@[j2]).0@ == flat@[b].0@ by {
                            if b < i {
                                assert(exists|j2: int|
                                    0 <= j2 < pre.len() && (#[trigger] pre[j2]).0@ == flat@[b].0@);
                                let j2 = choose|j2: int|
                                    0 <= j2 < pre.len() && (#[trigger] pre[j2]).0@ == flat@[b].0@;
                                assert(r@[j2].0@ == flat@[b].0@);
                            } else {
                                assert(r@[f as int].0@ == flat@[b].0@);
                            }
                        }
                    }
                }
            },
        }
        i += 1;
    }
    proof {
        assert(flat@.take(flat@.len() as int) =~= flat@);
    }
    r
}

/// A name with values has an occurrence.
proof fn lemma_values_for_nonempty(flat: Seq<(Vec<u8>, Vec<u8>)>, k: Seq<u8>)
    requires
        values_for(flat, k).len() > 0,
    ensures
        exists|w: int| 0 <= w < flat.len() && (#[trigger] flat[w]).0@ == k,
    decreases flat.len(),
{
    if flat.last().0@ == k {
        assert(flat[flat.len() - 1].0@ == k);
    } else {
        lemma_values_for_nonempty(flat.drop_last(), k);
        let w = choose|w: int|
            0 <= w < flat.drop_last().len() && (#[trigger] flat.drop_last()[w]).0@ == k;
        assert(flat[w].0@ == k);
    }
}

/// Builds the request object handed to the worker: method and body taken
/// as they are (an empty body becomes `None`), the URL reconstructed as
/// `https://` + normalized host + request target, and the headers grouped
/// into a multimap after the `host` header (lower-case, as HTTP/2-style
/// serving layers hand it over) is rewritten to the normalized host.
pub fn build_request_object(
    method: Vec<u8>,
    host: &Vec<u8>,
    request_target: &Vec<u8>,
    flat_headers: &Vec<(Vec<u8>, Vec<u8>)>,
    body: Vec<u8>,
) -> (r: RequestObject)
    ensures
        r.method@ == method@,
        r.url@ == https_prefix() + strip_port_spec(host@) + request_target@,
        body@.len() == 0 ==> r.body is None,
        body@.len() > 0 ==> (r.body matches Some(HttpBody::Binary(bs)) && bs@ == body@),
        forall|j: int|
            0 <= j < r.headers@.len() && (#[trigger] r.headers@[j]).0@ != host_key()
                ==> r.headers@[j].1@.map_values(|x: Vec<u8>| x@) == values_for(
                flat_headers@,
                r.headers@[j].0@,
            ),
        header_names_carried(flat_headers@, r.headers@),
        r.headers@.len() > 0,
        r.headers@.last().0@ == host_key(),
        r.headers@.last().1@.len() == 1,
        r.headers@.last().1@[0]@ == strip_port_spec(host@),
        forall|j1: int, j2: int| #![trigger r.headers@[j1], r.headers@[j2]]
            0 <= j1 < j2 < r.headers@.len() ==> r.headers@[j1].0@ != r.headers@[j2].0@,
{
    let normalized = strip_port(host);
    // Reconstruct the full URL; the scheme is presumed https.
    let mut url: Vec<u8> = Vec::new();
    url.push(104);
    url.push(116);
    url.push(116);
    url.push(112);
    url.push(115);
    url.push(58);
    url.push(47);
    url.push(47);
    proof {
        assert(url@ =~= https_prefix());
    }
    append_bytes(&mut url, &normalized);
    append_bytes(&mut url, request_target);
    // Drop any inbound host headers, then group, then append the single
    // rewritten host entry.
    let mut kept: Vec<(Vec<u8>, Vec<u8>)> = Vec::new();
    let mut hk: Vec<u8> = Vec::new();
    hk.push(104);
    hk.push(111);
    hk.push(115);
    hk.push(116);
    proof {
        assert(hk@ =~= host_key());
    }
    let mut i: usize = 0;
    while i < flat_headers.len()
        invariant
            i <= flat_headers@.len(),
            hk@ == host_key(),
            forall|w: int| 0 <= w < kept@.len() ==> (#[trigger] kept@[w]).0@ != host_key(),
            forall|b: int| #![trigger flat_headers@[b]]
                0 <= b < i && flat_headers@[b].0@ != host_key() ==> exists|w: int|
                    0 <= w < kept@.len() && (#[trigger] kept@[w]).0@ == flat_headers@[b].0@,
            forall|k: Seq<u8>|
                k != host_key() ==> #[trigger] values_for(kept@, k) == values_for(
                    flat_headers@.take(i as int),
                    k,
                ),
        decreases flat_headers@.len() - i,
    {
        let ghost pre = kept@;
        if !bytes_eq(&flat_headers[i].0, &hk) {
            kept.push((copy_bytes(&flat_headers[i].0), copy_bytes(&flat_headers[i].1)));
        }
        proof {
            assert forall|b: int| #![trigger flat_headers@[b]]
                0 <= b < i + 1 && flat_headers@[b].0@ != host_key() implies exists|w: int|
                0 <= w < kept@.len() && (#[trigger] kept@[w]).0@ == flat_headers@[b].0@ by {
                if b < i {
                    let w = choose|w: int|
                        0 <= w < pre.len() && (#[trigger] pre[w]).0@ == flat_headers@[b].0@;
                    assert(kept@[w] == pre[w]);
                } else {
                    assert(kept@[kept@.len() - 1].0@ == flat_headers@[b].0@);
                }
            }
            assert forall|k: Seq<u8>| k != host_key() implies #[trigger] values_for(kept@, k)
                == values_for(flat_headers@.take(i + 1), k) by {
                lemma_values_for_take(flat_headers@, k, i as int);
                assert(values_for(pre, k) == values_for(flat_headers@.take(i as int), k));
                if flat_headers@[i as int].0@ != host_key() {
                    assert(kept@.drop_last() =~= pre);
                    assert(kept@.len() == pre.len() + 1);
                    assert(kept@.last().0@ == flat_headers@[i as int].0@);
                    assert(kept@.last().1@ == flat_headers@[i as int].1@);
                    assert(values_for(kept@, k) == values_for(kept@.drop_last(), k) + (
                    if kept@.last().0@ == k {
                        seq![kept@.last().1@]
                    } else {
                        Seq::<Seq<u8>>::empty()
                    }));
                    assert(values_for(kept@, k) == values_for(flat_headers@.take(i + 1), k));
                } else {
                    assert(kept@ == pre);
                }
            }
        }
        i += 1;
    }
    proof {
        assert(flat_headers@.take(flat_headers@.len() as int) =~= flat_headers@);
    }
    let mut headers = group_headers(&kept);
    let ghost grouped = headers@;
    let mut host_values: Vec<Vec<u8>> = Vec::new();
    host_values.push(copy_bytes(&normalized));
    headers.push((hk, host_values));
    proof {
        assert(headers@[grouped.len() as int].0@ == host_key());
        assert(headers@[grouped.len() as int].1@.len() == 1);
        assert(headers@[grouped.len() as int].1@[0]@ == strip_port_spec(host@));
        assert forall|w: int| 0 <= w < grouped.len() implies headers@[w] == grouped[w] by {}
        assert forall|j: int| #![trigger headers@[j]]
            0 <= j < grouped.len() implies headers@[j].0@ != host_key() by {
            assert(grouped[j].1@.map_values(|x: Vec<u8>| x@) == values_for(kept@, grouped[j].0@));
            assert(grouped[j].1@.map_values(|x: Vec<u8>| x@).len() > 0);
            lemma_values_for_nonempty(kept@, grouped[j].0@);
            let b = choose|b: int|
                0 <= b < kept@.len() && (#[trigger] kept@[b]).0@ == grouped[j].0@;
            assert(kept@[b].0@ != host_key());
        }
        assert forall|j: int|
            0 <= j < headers@.len() && (#[trigger] headers@[j]).0@ != host_key() implies headers@[
        j].1@.map_values(|x: Vec<u8>| x@) == values_for(flat_headers@, headers@[j].0@) by {
            assert(j < grouped.len());
            assert(grouped[j].1@.map_values(|x: Vec<u8>| x@) == values_for(kept@, grouped[j].0@));
        }
    }
    proof {
        assert(header_names_carried(flat_headers@, headers@)) by {
            assert forall|b: int| #![trigger flat_headers@[b]]
                0 <= b < flat_headers@.len() && flat_headers@[b].0@ != host_key() implies exists|
                j: int,
            | 0 <= j < headers@.len() && (#[trigger] headers@[j]).0@ == flat_headers@[b].0@ by {
                let w = choose|w: int|
                    0 <= w < kept@.len() && (#[trigger] kept@[w]).0@ == flat_headers@[b].0@;
                assert(names_covered(kept@, kept@.len() as int, grouped));
                let j = choose|j: int|
                    0 <= j < grouped.len() && (#[trigger] grouped[j]).0@ == kept@[w].0@;
                assert(headers@[j] == grouped[j]);
            }
        }
    }
    let body_opt: Option<HttpBody> = if body.len() == 0 {
        None
    } else {
        Some(HttpBody::Binary(body))
    };
    RequestObject { method, url, headers, body: body_opt }
}

} // verus!
