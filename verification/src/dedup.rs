//! Deduplication of layer references by hex payload.
//!
//! A layer whose hex payload has been seen before is dropped; the first
//! occurrence of each payload is kept, in input order.

use vstd::prelude::*;
use crate::digest::{has_colon, payload_of, CacheError, LayerReference};

verus! {

/// The digest strings of a sequence of layer references.
pub open spec fn digests_of(ls: Seq<LayerReference>) -> Seq<Seq<char>> {
    ls.map_values(|l: LayerReference| l.digest@)
}

/// The payload of `ds[i]` differs from the payload of every earlier digest:
/// `ds[i]` is the first occurrence of its payload.
pub open spec fn first_occurrence(ds: Seq<Seq<char>>, i: int) -> bool {
    forall|j: int| 0 <= j < i ==> payload_of(#[trigger] ds[j]) != payload_of(ds[i])
}

/// The digests of `ds` whose payload has not occurred earlier, in input
/// order.
pub open spec fn dedup_digests(ds: Seq<Seq<char>>) -> Seq<Seq<char>>
    decreases ds.len(),
{
    if ds.len() == 0 {
        Seq::empty()
    } else if first_occurrence(ds, ds.len() - 1) {
        dedup_digests(ds.drop_last()).push(ds.last())
    } else {
        dedup_digests(ds.drop_last())
    }
}

/// The indices of `ds` that `dedup_digests` keeps, in increasing order.
pub open spec fn kept_indices(ds: Seq<Seq<char>>) -> Seq<int>
    decreases ds.len(),
{
    if ds.len() == 0 {
        Seq::empty()
    } else if first_occurrence(ds, ds.len() - 1) {
        kept_indices(ds.drop_last()).push(ds.len() - 1)
    } else {
        kept_indices(ds.drop_last())
    }
}

/// Some digest of `ds` has payload `p`.
pub open spec fn contains_payload(ds: Seq<Seq<char>>, p: Seq<char>) -> bool {
    exists|k: int| 0 <= k < ds.len() && payload_of(#[trigger] ds[k]) == p
}

/// Deduplication keeps exactly the first occurrence of each payload, in
/// first-occurrence order: the output is `ds` restricted to `kept_indices`,
/// those indices are increasing, each kept digest is the first occurrence of
/// its payload, and every input payload is represented in the output.
pub proof fn lemma_dedup_first_occurrences(ds: Seq<Seq<char>>)
    ensures
        dedup_digests(ds).len() == kept_indices(ds).len(),
        forall|k: int|
            0 <= k < kept_indices(ds).len() ==> 0 <= #[trigger] kept_indices(ds)[k] < ds.len()
                && dedup_digests(ds)[k] == ds[kept_indices(ds)[k]] && first_occurrence(
                ds,
                kept_indices(ds)[k],
            ),
        forall|k1: int, k2: int|
            0 <= k1 < k2 < kept_indices(ds).len() ==> #[trigger] kept_indices(ds)[k1]
                < #[trigger] kept_indices(ds)[k2],
        forall|i: int|
            0 <= i < ds.len() ==> contains_payload(dedup_digests(ds), payload_of(#[trigger] ds[i])),
    decreases ds.len(),
{
    if ds.len() == 0 {
        return ;
    }
    let n = ds.len() as int;
    let prev = ds.drop_last();
    lemma_dedup_first_occurrences(prev);
    assert(forall|j: int| 0 <= j < n - 1 ==> prev[j] == ds[j]);
    assert(forall|i: int|
        0 <= i < n - 1 ==> (first_occurrence(prev, i) <==> first_occurrence(ds, i))) by {
        assert forall|i: int| 0 <= i < n - 1 implies (first_occurrence(prev, i)
            <==> first_occurrence(ds, i)) by {
            assert(prev[i] == ds[i]);
        }
    }
    if first_occurrence(ds, n - 1) {
        let out = dedup_digests(ds);
        let kept = kept_indices(ds);
        assert(out == dedup_digests(prev).push(ds.last()));
        assert(kept == kept_indices(prev).push(n - 1));
        assert forall|i: int| 0 <= i < n implies contains_payload(
            out,
            payload_of(#[trigger] ds[i]),
        ) by {
            if i < n - 1 {
                assert(contains_payload(dedup_digests(prev), payload_of(prev[i])));
                let k = choose|k: int|
                    0 <= k < dedup_digests(prev).len() && payload_of(
                        #[trigger] dedup_digests(prev)[k],
                    ) == payload_of(prev[i]);
                assert(out[k] == dedup_digests(prev)[k]);
                assert(payload_of(out[k]) == payload_of(ds[i]));
            } else {
                assert(out[out.len() - 1] == ds[n - 1]);
                assert(payload_of(out[out.len() - 1]) == payload_of(ds[i]));
            }
        }
    } else {
        let out = dedup_digests(ds);
        assert(out == dedup_digests(prev));
        assert forall|i: int| 0 <= i < n implies contains_payload(
            out,
            payload_of(#[trigger] ds[i]),
        ) by {
            if i < n - 1 {
                assert(contains_payload(dedup_digests(prev), payload_of(prev[i])));
                assert(prev[i] == ds[i]);
            } else {
                assert(!first_occurrence(ds, n - 1));
                let j2 = choose|j2: int|
                    0 <= j2 < n - 1 && payload_of(#[trigger] ds[j2]) == payload_of(ds[n - 1]);
                assert(contains_payload(dedup_digests(prev), payload_of(prev[j2])));
                assert(payload_of(prev[j2]) == payload_of(ds[n - 1]));
            }
        }
    }
}

/// No two digests of the deduplicated output share a payload.
pub proof fn lemma_dedup_unique(ds: Seq<Seq<char>>)
    ensures
        forall|k1: int, k2: int|
            0 <= k1 < k2 < dedup_digests(ds).len() ==> payload_of(#[trigger] dedup_digests(ds)[k1])
                != payload_of(#[trigger] dedup_digests(ds)[k2]),
{
    lemma_dedup_first_occurrences(ds);
    let out = dedup_digests(ds);
    let kept = kept_indices(ds);
    assert forall|k1: int, k2: int| 0 <= k1 < k2 < out.len() implies payload_of(
        #[trigger] out[k1],
    ) != payload_of(#[trigger] out[k2]) by {
        assert(kept[k1] < kept[k2]);
        assert(first_occurrence(ds, kept[k2]));
        assert(payload_of(ds[kept[k1]]) != payload_of(ds[kept[k2]]));
    }
}

/// Deduplicating a sequence whose digests are already pairwise distinct by
/// payload changes nothing.
proof fn lemma_dedup_of_unique(es: Seq<Seq<char>>)
    requires
        forall|i: int| 0 <= i < es.len() ==> first_occurrence(es, i),
    ensures
        dedup_digests(es) =~= es,
    decreases es.len(),
{
    if es.len() > 0 {
        let prev = es.drop_last();
        assert(forall|j: int| 0 <= j < es.len() - 1 ==> prev[j] == es[j]);
        assert forall|i: int| 0 <= i < prev.len() implies first_occurrence(prev, i) by {
            assert(first_occurrence(es, i));
            assert(prev[i] == es[i]);
        }
        lemma_dedup_of_unique(prev);
        assert(first_occurrence(es, es.len() - 1));
    }
}

/// Deduplication is idempotent: a second pass over the output changes
/// nothing.
pub proof fn lemma_dedup_idempotent(ds: Seq<Seq<char>>)
    ensures
        dedup_digests(dedup_digests(ds)) =~= dedup_digests(ds),
{
    lemma_dedup_unique(ds);
    let out = dedup_digests(ds);
    assert forall|i: int| 0 <= i < out.len() implies first_occurrence(out, i) by {
        assert forall|j: int| 0 <= j < i implies payload_of(#[trigger] out[j]) != payload_of(
            out[i],
        ) by {}
    }
    lemma_dedup_of_unique(out);
}

/// Whether some element of `keys` equals `p` as a string.
fn keys_contain(keys: &Vec<String>, p: &String) -> (r: bool)
    ensures
        r == exists|k: int| 0 <= k < keys@.len() && #[trigger] keys@[k]@ == p@,
{
    let n = keys.len();
    let mut i: usize = 0;
    while i < n
        invariant
            0 <= i <= n,
            n == keys@.len(),
            forall|k: int| 0 <= k < i ==> #[trigger] keys@[k]@ != p@,
        decreases n - i,
    {
        if keys[i].eq(p) {
            return true;
        }
        i = i + 1;
    }
    false
}

/// Drop every layer whose hex payload occurred earlier in the list; the
/// digests that remain keep their input order. Fails with `MalformedDigest`
/// exactly when some digest holds no colon.
pub fn deduplicate(layers: &Vec<LayerReference>) -> (r: Result<Vec<String>, CacheError>)
    ensures
        r is Ok <==> (forall|i: int|
            0 <= i < layers@.len() ==> has_colon(#[trigger] layers@[i].digest@)),
        r matches Ok(v) ==> v.deep_view() =~= dedup_digests(digests_of(layers@)),
        r matches Err(e) ==> e == CacheError::MalformedDigest,
{
    let ghost ds = digests_of(layers@);
    let n = layers.len();
    let mut out: Vec<String> = Vec::new();
    let mut keys: Vec<String> = Vec::new();
    let mut i: usize = 0;
    while i < n
        invariant
            0 <= i <= n,
            n == layers@.len(),
            ds == digests_of(layers@),
            forall|j: int| 0 <= j < i ==> has_colon(#[trigger] layers@[j].digest@),
            out.deep_view() =~= dedup_digests(ds.subrange(0, i as int)),
            out@.len() == keys@.len(),
            forall|k: int|
                0 <= k < keys@.len() ==> #[trigger] keys@[k]@ == payload_of(out@[k]@),
        decreases n - i,
    {
        let ghost pre = ds.subrange(0, i as int);
        let ghost cur = ds.subrange(0, i + 1);
        proof {
            assert(cur.drop_last() =~= pre);
            assert(ds[i as int] == layers@[i as int].digest@);
            lemma_dedup_first_occurrences(pre);
        }
        let digest = &layers[i].digest;
        match crate::digest::payload(digest.as_str()) {
            None => {
                return Err(CacheError::MalformedDigest);
            },
            Some(p) => {
                let seen = keys_contain(&keys, &p);
                proof {
                    assert(forall|j: int| 0 <= j < i ==> pre[j] == ds[j]);
                    if seen {
                        let k = choose|k: int|
                            0 <= k < keys@.len() && #[trigger] keys@[k]@ == p@;
                        assert(out.deep_view()[k] == out@[k]@);
                        assert(payload_of(dedup_digests(pre)[k]) == payload_of(ds[i as int]));
                        let j = kept_indices(pre)[k];
                        assert(dedup_digests(pre)[k] == pre[j]);
                        assert(payload_of(ds[j]) == payload_of(ds[i as int]));
                        assert(cur[j] == ds[j] && cur[i as int] == ds[i as int]);
                        assert(!first_occurrence(cur, i as int));
                        assert(dedup_digests(cur) =~= dedup_digests(pre));
                    } else {
                        assert forall|j: int| 0 <= j < i implies payload_of(#[trigger] cur[j])
                            != payload_of(cur[i as int]) by {
                            assert(cur[j] == ds[j]);
                            assert(contains_payload(dedup_digests(pre), payload_of(pre[j])));
                            let k = choose|k: int|
                                0 <= k < dedup_digests(pre).len() && payload_of(
                                    #[trigger] dedup_digests(pre)[k],
                                ) == payload_of(pre[j]);
                            assert(out.deep_view()[k] == out@[k]@);
                            assert(keys@[k]@ == payload_of(dedup_digests(pre)[k]));
                            assert(keys@[k]@ != p@);
                        }
                        assert(first_occurrence(cur, i as int));
                        assert(dedup_digests(cur) =~= dedup_digests(pre).push(ds[i as int]));
                    }
                }
                if !seen {
                    out.push(digest.clone());
                    keys.push(p);
                    proof {
                        assert(out.deep_view() =~= dedup_digests(cur));
                    }
                } else {
                    proof {
                        assert(out.deep_view() =~= dedup_digests(cur));
                    }
                }
            },
        }
        i = i + 1;
    }
    proof {
        assert(ds.subrange(0, n as int) =~= ds);
    }
    Ok(out)
}

} // verus!
