//! The ranking of the zero-width characters observed in a text: most
//! frequent first, and among equally frequent ones the smaller code point
//! first. The sweeps of the orchestrator assign roles by this ranking.

use std::collections::BTreeMap;
use vstd::prelude::*;
use vstd::std_specs::btree::spec_btree_map_iter;
use vstd::std_specs::iter::IteratorSpec;
use crate::text::is_scalar_value;

verus! {

/// Whether the code point `a` ranks before `b`: it is more frequent, or
/// as frequent and smaller.
pub open spec fn ranks_before(dist: Map<u32, usize>, a: u32, b: u32) -> bool {
    dist[a] > dist[b] || (dist[a] == dist[b] && a < b)
}

/// Whether `codes` lists the keys of `dist`, each once, in ranking order.
pub open spec fn is_ranking(codes: Seq<u32>, dist: Map<u32, usize>) -> bool {
    &&& forall|i: int| 0 <= i < codes.len() ==> dist.contains_key(#[trigger] codes[i])
    &&& forall|cp: u32|
        #![trigger dist.contains_key(cp)]
        dist.contains_key(cp) ==> exists|i: int| 0 <= i < codes.len() && #[trigger] codes[i] == cp
    &&& forall|i: int, j: int|
        #![trigger codes[i], codes[j]]
        0 <= i < j < codes.len() ==> ranks_before(dist, codes[i], codes[j])
}

/// The keys of `dist` in ranking order.
pub open spec fn code_ranking(dist: Map<u32, usize>) -> Seq<u32> {
    choose|codes: Seq<u32>| is_ranking(codes, dist)
}

/// The character with the code point `cp`, if there is one.
pub open spec fn char_of(cp: u32) -> Option<char> {
    if is_scalar_value(cp as int) {
        Some(cp as char)
    } else {
        None
    }
}

/// The characters counted in `dist`, in ranking order. Keys that are no
/// code points of characters are left out.
pub open spec fn ranking(dist: Map<u32, usize>) -> Seq<char> {
    code_ranking(dist).filter_map(|cp: u32| char_of(cp))
}

/// Two rankings of the same counts agree wherever both are defined.
proof fn lemma_rankings_agree(a: Seq<u32>, b: Seq<u32>, dist: Map<u32, usize>, i: int)
    requires
        is_ranking(a, dist),
        is_ranking(b, dist),
        0 <= i < a.len(),
        0 <= i < b.len(),
    ensures
        a[i] == b[i],
    decreases i,
{
    assert forall|k: int| 0 <= k < i implies a[k] == b[k] by {
        lemma_rankings_agree(a, b, dist, k);
    }
    // where a[i] stands in b, and where b[i] stands in a
    assert(dist.contains_key(a[i]));
    let j = choose|j: int| 0 <= j < b.len() && b[j] == a[i];
    assert(dist.contains_key(b[i]));
    let m = choose|m: int| 0 <= m < a.len() && a[m] == b[i];
    if j < i {
        assert(a[j] == b[j]);
        assert(ranks_before(dist, a[j], a[i]));
    } else if m < i {
        assert(a[m] == b[m]);
        assert(ranks_before(dist, b[m], b[i]));
    } else if j > i && m > i {
        assert(ranks_before(dist, b[i], b[j]));
        assert(ranks_before(dist, a[i], a[m]));
    }
}

/// The counts determine the ranking: there is at most one.
pub proof fn lemma_ranking_unique(a: Seq<u32>, b: Seq<u32>, dist: Map<u32, usize>)
    requires
        is_ranking(a, dist),
        is_ranking(b, dist),
    ensures
        a == b,
{
    if a.len() < b.len() {
        let extra = b[a.len() as int];
        assert(dist.contains_key(extra));
        let j = choose|j: int| 0 <= j < a.len() && a[j] == extra;
        lemma_rankings_agree(a, b, dist, j);
        assert(ranks_before(dist, b[j], b[a.len() as int]));
    } else if b.len() < a.len() {
        let extra = a[b.len() as int];
        assert(dist.contains_key(extra));
        let j = choose|j: int| 0 <= j < b.len() && b[j] == extra;
        lemma_rankings_agree(a, b, dist, j);
        assert(ranks_before(dist, a[j], a[b.len() as int]));
    }
    assert forall|i: int| 0 <= i < a.len() implies a[i] == b[i] by {
        lemma_rankings_agree(a, b, dist, i);
    }
    assert(a =~= b);
}

/// The entries of `dist`: each key once, with its value.
fn entries_of(dist: &BTreeMap<u32, usize>) -> (r: Vec<(u32, usize)>)
    ensures
        forall|i: int|
            0 <= i < r@.len() ==> dist@.contains_key((#[trigger] r@[i]).0) && dist@[r@[i].0]
                == r@[i].1,
        forall|k: u32|
            #![trigger dist@.contains_key(k)]
            dist@.contains_key(k) ==> exists|i: int| 0 <= i < r@.len() && (#[trigger] r@[i]).0 == k,
        distinct_keys(r@),
{
    let mut r: Vec<(u32, usize)> = Vec::new();
    for kv in it: dist.iter()
        invariant
            it.seq() == spec_btree_map_iter(dist).remaining(),
            it.seq().no_duplicates(),
            r@ == it.seq().take(it.index() as int).map_values(|e: (&u32, &usize)| (*e.0, *e.1)),
    {
        r.push((*kv.0, *kv.1));
    }
    proof {
        let s = spec_btree_map_iter(dist).remaining();
        assert forall|k: u32| #![trigger dist@.contains_key(k)] dist@.contains_key(k) implies exists|
            i: int,
        | 0 <= i < r@.len() && (#[trigger] r@[i]).0 == k by {
            let i = choose|i: int| 0 <= i < s.len() && s[i] == (&k, &dist@[k]);
            assert(r@[i].0 == k);
        }
        assert forall|i: int, j: int| #![trigger r@[i], r@[j]] 0 <= i < j < r@.len() implies r@[i].0
            != r@[j].0 by {
            if r@[i].0 == r@[j].0 {
                assert(dist@[*s[i].0] == *s[i].1);
            }
        }
    }
    r
}

/// The code points of `ranked`, in order.
pub open spec fn codes_of(ranked: Seq<(u32, usize)>) -> Seq<u32> {
    ranked.map_values(|e: (u32, usize)| e.0)
}

/// Whether `ranked` lists keys of `dist` with their counts.
spec fn counts_agree(ranked: Seq<(u32, usize)>, dist: Map<u32, usize>) -> bool {
    forall|a: int|
        0 <= a < ranked.len() ==> dist.contains_key((#[trigger] ranked[a]).0) && dist[ranked[a].0]
            == ranked[a].1
}

/// Whether `ranked` is in ranking order.
spec fn in_order(ranked: Seq<(u32, usize)>, dist: Map<u32, usize>) -> bool {
    forall|a: int, b: int|
        #![trigger ranked[a], ranked[b]]
        0 <= a < b < ranked.len() ==> ranks_before(dist, ranked[a].0, ranked[b].0)
}

/// Whether `entries` holds the key `k` among its first `n`.
spec fn has_key(entries: Seq<(u32, usize)>, n: int, k: u32) -> bool {
    exists|e: int| 0 <= e < n && e < entries.len() && (#[trigger] entries[e]).0 == k
}

/// Whether `ranked` and the first `n` of `entries` hold the same keys.
spec fn same_keys(ranked: Seq<(u32, usize)>, entries: Seq<(u32, usize)>, n: int) -> bool {
    forall|k: u32|
        #![trigger has_key(ranked, ranked.len() as int, k)]
        #![trigger has_key(entries, n, k)]
        has_key(ranked, ranked.len() as int, k) <==> has_key(entries, n, k)
}

/// Whether `ranked` lists, in ranking order and with their counts, the
/// first `n` keys of `entries`.
#[verifier::opaque]
spec fn ranks_first(
    ranked: Seq<(u32, usize)>,
    entries: Seq<(u32, usize)>,
    n: int,
    dist: Map<u32, usize>,
) -> bool {
    &&& counts_agree(ranked, dist)
    &&& in_order(ranked, dist)
    &&& same_keys(ranked, entries, n)
}

/// Whether the keys of `entries` are distinct.
spec fn distinct_keys(entries: Seq<(u32, usize)>) -> bool {
    forall|i: int, j: int|
        #![trigger entries[i], entries[j]]
        0 <= i < j < entries.len() ==> entries[i].0 != entries[j].0
}

/// The counts listed in a ranking are those of `dist`.
proof fn lemma_ranked_counts(
    ranked: Seq<(u32, usize)>,
    entries: Seq<(u32, usize)>,
    n: int,
    dist: Map<u32, usize>,
)
    requires
        ranks_first(ranked, entries, n, dist),
    ensures
        counts_agree(ranked, dist),
{
    reveal(ranks_first);
}

/// With one more entry, a sequence holds the keys it held, and the new
/// one.
proof fn lemma_has_key_insert(s: Seq<(u32, usize)>, p: int, x: (u32, usize), k: u32)
    requires
        0 <= p <= s.len(),
    ensures
        has_key(s.insert(p, x), s.len() as int + 1, k) <==> has_key(s, s.len() as int, k) || x.0 == k,
{
    let t = s.insert(p, x);
    if has_key(s, s.len() as int, k) {
        let e = choose|e: int| 0 <= e < s.len() && s[e].0 == k;
        if e < p {
            assert(t[e].0 == k);
        } else {
            assert(t[e + 1].0 == k);
        }
    }
    if x.0 == k {
        assert(t[p].0 == k);
    }
    if has_key(t, s.len() as int + 1, k) {
        let e = choose|e: int| 0 <= e < t.len() && t[e].0 == k;
        if e < p {
            assert(s[e].0 == k);
        } else if e > p {
            assert(s[e - 1].0 == k);
        }
    }
}

/// Putting an entry into a ranking behind those that rank before it, and
/// in front of the others, keeps the order.
proof fn lemma_insert_in_order(
    before: Seq<(u32, usize)>,
    dist: Map<u32, usize>,
    p: int,
    x: (u32, usize),
)
    requires
        in_order(before, dist),
        0 <= p <= before.len(),
        forall|a: int| 0 <= a < p ==> ranks_before(dist, (#[trigger] before[a]).0, x.0),
        forall|a: int| p <= a < before.len() ==> ranks_before(dist, x.0, (#[trigger] before[a]).0),
    ensures
        in_order(before.insert(p, x), dist),
{
    let after = before.insert(p, x);
    assert forall|a: int, b: int|
        #![trigger after[a], after[b]]
        0 <= a < b < after.len() implies ranks_before(dist, after[a].0, after[b].0) by {
        if b < p {
            assert(ranks_before(dist, before[a].0, before[b].0));
        } else if b == p {
            assert(ranks_before(dist, before[a].0, x.0));
        } else if a < p {
            assert(ranks_before(dist, before[a].0, before[b - 1].0));
        } else if a == p {
            assert(ranks_before(dist, x.0, before[b - 1].0));
        } else {
            assert(ranks_before(dist, before[a - 1].0, before[b - 1].0));
        }
    }
}

/// Putting the next entry in its place keeps the ranking.
proof fn lemma_rank_insert(
    before: Seq<(u32, usize)>,
    entries: Seq<(u32, usize)>,
    n: int,
    dist: Map<u32, usize>,
    p: int,
)
    requires
        ranks_first(before, entries, n, dist),
        distinct_keys(entries),
        0 <= n < entries.len(),
        dist.contains_key(entries[n].0),
        dist[entries[n].0] == entries[n].1,
        0 <= p <= before.len(),
        forall|a: int|
            0 <= a < p ==> ranks_before(dist, (#[trigger] before[a]).0, entries[n].0),
        p < before.len() ==> !ranks_before(dist, before[p].0, entries[n].0),
    ensures
        ranks_first(before.insert(p, entries[n]), entries, n + 1, dist),
{
    reveal(ranks_first);
    let x = entries[n];
    let after = before.insert(p, x);
    // the new key is none of the old ones
    assert(!has_key(before, before.len() as int, x.0)) by {
        if has_key(entries, n, x.0) {
            let e = choose|e: int| 0 <= e < n && entries[e].0 == x.0;
            assert(entries[e].0 != entries[n].0);
        }
    }
    assert forall|a: int| p <= a < before.len() implies ranks_before(
        dist,
        x.0,
        (#[trigger] before[a]).0,
    ) by {
        assert(has_key(before, before.len() as int, before[a].0));
        assert(has_key(before, before.len() as int, before[p].0));
        if a > p {
            assert(ranks_before(dist, before[p].0, before[a].0));
        }
    }
    lemma_insert_in_order(before, dist, p, x);
    assert forall|k: u32|
        #![trigger has_key(after, after.len() as int, k)]
        #![trigger has_key(entries, n + 1, k)]
        has_key(after, after.len() as int, k) <==> has_key(entries, n + 1, k) by {
        lemma_has_key_insert(before, p, x, k);
        if has_key(entries, n, k) {
            let e = choose|e: int| 0 <= e < n && entries[e].0 == k;
            assert(entries[e].0 == k);
        }
        if x.0 == k {
            assert(entries[n].0 == k);
        }
        if has_key(entries, n + 1, k) {
            let e = choose|e: int| 0 <= e < n + 1 && entries[e].0 == k;
            if e < n {
                assert(has_key(entries, n, k));
            }
        }
    }
    assert forall|a: int| 0 <= a < after.len() implies dist.contains_key(
        (#[trigger] after[a]).0,
    ) && dist[after[a].0] == after[a].1 by {
        if a < p {
            assert(dist.contains_key(before[a].0));
        } else if a > p {
            assert(dist.contains_key(before[a - 1].0));
        }
    }
}

/// A complete ranking of the entries of `dist` is the ranking of `dist`.
proof fn lemma_ranks_all(
    ranked: Seq<(u32, usize)>,
    entries: Seq<(u32, usize)>,
    dist: Map<u32, usize>,
)
    requires
        ranks_first(ranked, entries, entries.len() as int, dist),
        forall|k: u32|
            #![trigger dist.contains_key(k)]
            dist.contains_key(k) ==> exists|i: int|
                0 <= i < entries.len() && (#[trigger] entries[i]).0 == k,
    ensures
        is_ranking(codes_of(ranked), dist),
        codes_of(ranked) == code_ranking(dist),
{
    reveal(ranks_first);
    let codes = codes_of(ranked);
    assert forall|cp: u32| #![trigger dist.contains_key(cp)] dist.contains_key(cp) implies exists|
        i: int,
    | 0 <= i < codes.len() && #[trigger] codes[i] == cp by {
        assert(has_key(entries, entries.len() as int, cp));
        assert(has_key(ranked, ranked.len() as int, cp));
        let a = choose|a: int| 0 <= a < ranked.len() && ranked[a].0 == cp;
        assert(codes[a] == cp);
    }
    assert forall|i: int, j: int|
        #![trigger codes[i], codes[j]]
        0 <= i < j < codes.len() implies ranks_before(dist, codes[i], codes[j]) by {
        assert(ranks_before(dist, ranked[i].0, ranked[j].0));
    }
    assert forall|i: int| 0 <= i < codes.len() implies dist.contains_key(#[trigger] codes[i]) by {
        assert(dist.contains_key(ranked[i].0));
    }
    assert(is_ranking(codes, dist));
    lemma_ranking_unique(codes, code_ranking(dist), dist);
}

/// The entries of `dist`, most frequent first; among equally frequent
/// ones, the smaller code point first.
pub fn rank_entries(dist: &BTreeMap<u32, usize>) -> (ranked: Vec<(u32, usize)>)
    ensures
        codes_of(ranked@) == code_ranking(dist@),
        is_ranking(codes_of(ranked@), dist@),
        forall|a: int|
            0 <= a < ranked@.len() ==> dist@.contains_key((#[trigger] ranked@[a]).0)
                && dist@[ranked@[a].0] == ranked@[a].1,
{
    let entries = entries_of(dist);
    let mut ranked: Vec<(u32, usize)> = Vec::new();
    let mut n: usize = 0;
    proof {
        reveal(ranks_first);
    }
    while n < entries.len()
        invariant
            n <= entries.len(),
            forall|i: int|
                0 <= i < entries@.len() ==> dist@.contains_key((#[trigger] entries@[i]).0)
                    && dist@[entries@[i].0] == entries@[i].1,
            distinct_keys(entries@),
            ranks_first(ranked@, entries@, n as int, dist@),
        decreases entries.len() - n,
    {
        let key: u32 = entries[n].0;
        let count: usize = entries[n].1;
        proof {
            lemma_ranked_counts(ranked@, entries@, n as int, dist@);
        }
        // the first place whose occupant does not rank before `key`
        let mut p: usize = 0;
        while p < ranked.len() && (ranked[p].1 > count || (ranked[p].1 == count && ranked[p].0
            < key))
            invariant
                p <= ranked.len(),
                dist@.contains_key(key),
                dist@[key] == count,
                counts_agree(ranked@, dist@),
                forall|a: int| 0 <= a < p ==> ranks_before(dist@, (#[trigger] ranked@[a]).0, key),
            decreases ranked.len() - p,
        {
            p += 1;
        }
        proof {
            lemma_rank_insert(ranked@, entries@, n as int, dist@, p as int);
        }
        ranked.insert(p, (key, count));
        n += 1;
    }
    proof {
        lemma_ranks_all(ranked@, entries@, dist@);
        lemma_ranked_counts(ranked@, entries@, n as int, dist@);
    }
    ranked
}

/// The characters counted in `dist`, most frequent first; among equally
/// frequent ones, the smaller code point first.
pub fn rank_symbols(dist: &BTreeMap<u32, usize>) -> (top: Vec<char>)
    ensures
        top@ == ranking(dist@),
{
    let ranked = rank_entries(dist);
    let ghost codes = codes_of(ranked@);
    let mut top: Vec<char> = Vec::new();
    let mut k: usize = 0;
    while k < ranked.len()
        invariant
            k <= ranked.len(),
            codes == codes_of(ranked@),
            top@ == codes.take(k as int).filter_map(|cp: u32| char_of(cp)),
        decreases ranked.len() - k,
    {
        proof {
            codes.lemma_filter_map_take_succ(|cp: u32| char_of(cp), k as int);
        }
        if let Some(c) = char::from_u32(ranked[k].0) {
            top.push(c);
        }
        k += 1;
    }
    assert(codes.take(ranked.len() as int) == codes);
    top
}

} // verus!
