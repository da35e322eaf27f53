//! The orchestrator: runs every strategy over a bounded sweep of
//! parameters, drops repeated texts, and ranks what is left.

use std::collections::BTreeMap;
use vstd::prelude::*;
use crate::analysis::{
    analyze, extract_all, extract_segments, segments, spec_distribution, zero_width_only,
};
use crate::decode::{
    all_wf, decode_direct_binary, decode_nary, decode_segmented_binary, decode_steganographr,
    decode_unicode_tags, option_seq, push_found, spec_decode_direct_binary, spec_decode_nary,
    spec_decode_segmented_binary, spec_decode_steganographr, spec_decode_unicode_tags, texts,
    view_of, views, DecodeResult, DecodeView, KEEP_ABOVE,
};
use crate::presets::{encoding_presets, is_preset_entry, preset_chars, PRESET_COUNT};
use crate::ranking::{rank_symbols, ranking};
use crate::score::{lemma_at_least_total, lemma_at_least_transitive, Score};
use crate::text::lemma_count_step;

verus! {

/// How many of the most frequent symbols the direct binary sweep tries.
pub const DIRECT_SYMBOLS: usize = 6;

/// How many of the most frequent symbols the segmented binary sweep tries.
pub const SEGMENTED_SYMBOLS: usize = 4;

/// The largest alphabet the N-ary sweep tries.
pub const LARGEST_ALPHABET: usize = 9;

/// A candidate of a sweep, if it scores above 15.
pub open spec fn kept(found: Option<DecodeView>) -> Seq<DecodeView> {
    match found {
        Some(v) => if v.score.above(KEEP_ABOVE as int) {
            seq![v]
        } else {
            Seq::empty()
        },
        None => Seq::empty(),
    }
}

/// What a pairwise sweep decodes: the zero-width characters as one
/// stream, or the segments one by one.
pub enum PairInput<'a> {
    Stream(&'a [char]),
    Segments(&'a [String]),
}

/// The input of a pairwise sweep as specifications see it.
pub enum PairSource {
    Stream(Seq<char>),
    Segments(Seq<Seq<char>>),
}

impl<'a> View for PairInput<'a> {
    type V = PairSource;

    open spec fn view(&self) -> PairSource {
        match self {
            PairInput::Stream(s) => PairSource::Stream(s@),
            PairInput::Segments(g) => PairSource::Segments(texts(g@)),
        }
    }
}

/// What the binary strategy for `source` finds with the given roles.
pub open spec fn pair_decode(source: PairSource, zero: char, one: char, bits: nat) -> Option<
    DecodeView,
> {
    match source {
        PairSource::Stream(s) => spec_decode_direct_binary(s, zero, one, bits),
        PairSource::Segments(g) => spec_decode_segmented_binary(g, zero, one, bits),
    }
}

/// What a sweep keeps for one assignment of roles: the candidate with 8
/// bits, then the one with 7.
pub open spec fn pair_candidates(source: PairSource, zero: char, one: char) -> Seq<DecodeView> {
    kept(pair_decode(source, zero, one, 8)) + kept(pair_decode(source, zero, one, 7))
}

/// What a sweep keeps with `top[i]` as zero and each of the first `j`
/// symbols, `top[i]` itself left out, as one.
pub open spec fn row_candidates(source: PairSource, top: Seq<char>, i: int, j: nat) -> Seq<
    DecodeView,
>
    decreases j,
{
    if j == 0 {
        Seq::empty()
    } else {
        row_candidates(source, top, i, (j - 1) as nat) + if i == j - 1 {
            Seq::empty()
        } else {
            pair_candidates(source, top[i], top[j - 1])
        }
    }
}

/// What a sweep over the first `limit` symbols keeps with each of the
/// first `i` symbols as zero.
pub open spec fn sweep_candidates(source: PairSource, top: Seq<char>, limit: nat, i: nat) -> Seq<
    DecodeView,
>
    decreases i,
{
    if i == 0 {
        Seq::empty()
    } else {
        sweep_candidates(source, top, limit, (i - 1) as nat) + row_candidates(
            source,
            top,
            i - 1,
            limit,
        )
    }
}

/// How many characters of `chars` occur in the text that `dist` counts.
pub open spec fn preset_hits(chars: Seq<char>, dist: Map<u32, usize>) -> nat {
    chars.filter(|c: char| dist.contains_key(c as u32)).len()
}

/// What the N-ary strategy finds with each of the first `k` presets. A
/// preset is tried only if at least two of its characters occur in the
/// text.
pub open spec fn preset_candidates(zw: Seq<char>, dist: Map<u32, usize>, k: nat) -> Seq<
    DecodeView,
>
    decreases k,
{
    if k == 0 {
        Seq::empty()
    } else {
        preset_candidates(zw, dist, (k - 1) as nat) + if preset_hits(preset_chars(k - 1), dist)
            >= 2 {
            spec_decode_nary(zw, preset_chars(k - 1))
        } else {
            Seq::empty()
        }
    }
}

/// What the N-ary strategy finds with the `m` most frequent symbols as
/// the alphabet, for each `m` from 3 to `n`.
pub open spec fn alphabet_candidates(zw: Seq<char>, top: Seq<char>, n: nat) -> Seq<DecodeView>
    decreases n,
{
    if n < 3 {
        Seq::empty()
    } else {
        alphabet_candidates(zw, top, (n - 1) as nat) + spec_decode_nary(zw, top.take(n as int))
    }
}

/// The smaller of two numbers.
pub open spec fn at_most(n: nat, cap: nat) -> nat {
    if n < cap {
        n
    } else {
        cap
    }
}

/// Every candidate that the strategies find in `text`, in the order in
/// which they are tried: Unicode Tags, Steganographr, the presets, the
/// direct binary sweep, the N-ary sweep, the segmented binary sweep.
pub open spec fn all_candidates(text: Seq<char>) -> Seq<DecodeView> {
    let zw = zero_width_only(text);
    let dist = spec_distribution(text);
    let top = ranking(dist);
    let direct = at_most(top.len(), DIRECT_SYMBOLS as nat);
    let segmented = at_most(top.len(), SEGMENTED_SYMBOLS as nat);
    option_seq(spec_decode_unicode_tags(text)) + option_seq(spec_decode_steganographr(text))
        + preset_candidates(zw, dist, PRESET_COUNT as nat) + sweep_candidates(
        PairSource::Stream(zw),
        top,
        direct,
        direct,
    ) + alphabet_candidates(zw, top, at_most(top.len(), LARGEST_ALPHABET as nat))
        + sweep_candidates(PairSource::Segments(segments(text)), top, segmented, segmented)
}

/// Whether one of `s` has the text `decoded`.
pub open spec fn has_decoded(s: Seq<DecodeView>, decoded: Seq<char>) -> bool {
    exists|k: int| 0 <= k < s.len() && (#[trigger] s[k]).decoded == decoded
}

/// `s` without the candidates whose text an earlier candidate has.
pub open spec fn dedup(s: Seq<DecodeView>) -> Seq<DecodeView>
    decreases s.len(),
{
    if s.len() == 0 {
        Seq::empty()
    } else if has_decoded(s.drop_last(), s.last().decoded) {
        dedup(s.drop_last())
    } else {
        dedup(s.drop_last()).push(s.last())
    }
}

/// `sorted` with `x` put behind every candidate that scores at least as
/// high as `x`, and in front of the others.
pub open spec fn rank_insert(sorted: Seq<DecodeView>, x: DecodeView) -> Seq<DecodeView>
    decreases sorted.len(),
{
    if sorted.len() == 0 || sorted.last().score.at_least(x.score) {
        sorted.push(x)
    } else {
        rank_insert(sorted.drop_last(), x).push(sorted.last())
    }
}

/// `s` by descending score; candidates of equal score keep their order.
pub open spec fn sort_by_score(s: Seq<DecodeView>) -> Seq<DecodeView>
    decreases s.len(),
{
    if s.len() == 0 {
        Seq::empty()
    } else {
        rank_insert(sort_by_score(s.drop_last()), s.last())
    }
}

/// Whether `s` is in order of descending score.
pub open spec fn is_descending(s: Seq<DecodeView>) -> bool {
    forall|i: int, j: int|
        #![trigger s[i], s[j]]
        0 <= i < j < s.len() ==> s[i].score.at_least(s[j].score)
}

/// Whether no two of `s` have the same text.
pub open spec fn has_distinct_texts(s: Seq<DecodeView>) -> bool {
    forall|i: int, j: int|
        #![trigger s[i], s[j]]
        0 <= i < j < s.len() ==> s[i].decoded != s[j].decoded
}

/// Whether every score in `s` has a positive denominator.
pub open spec fn has_proper_scores(s: Seq<DecodeView>) -> bool {
    forall|i: int| 0 <= i < s.len() ==> (#[trigger] s[i]).score.den > 0
}

/// Putting a candidate in its place keeps the order, and changes nothing
/// else: the result holds what was there, and the new candidate.
pub proof fn lemma_rank_insert_keeps_order(sorted: Seq<DecodeView>, x: DecodeView)
    requires
        is_descending(sorted),
        has_proper_scores(sorted),
        x.score.den > 0,
    ensures
        is_descending(rank_insert(sorted, x)),
        has_proper_scores(rank_insert(sorted, x)),
        rank_insert(sorted, x).to_multiset() == sorted.to_multiset().insert(x),
        rank_insert(sorted, x).len() == sorted.len() + 1,
        forall|d: Seq<char>|
            has_decoded(rank_insert(sorted, x), d) <==> has_decoded(sorted, d) || x.decoded == d,
    decreases sorted.len(),
{
    let out = rank_insert(sorted, x);
    if sorted.len() == 0 || sorted.last().score.at_least(x.score) {
        vstd::seq_lib::to_multiset_build(sorted, x);
        assert forall|i: int, j: int| #![trigger out[i], out[j]] 0 <= i < j < out.len() implies out[i].score.at_least(
            out[j].score,
        ) by {
            if j == sorted.len() && i < sorted.len() - 1 {
                assert(sorted[i].score.at_least(sorted[sorted.len() - 1].score));
                lemma_at_least_transitive(sorted[i].score, sorted.last().score, x.score);
            }
        }
        assert forall|d: Seq<char>|
            has_decoded(out, d) <==> has_decoded(sorted, d) || x.decoded == d by {
            lemma_has_decoded_insert(sorted, sorted.len() as int, x, d);
            assert(sorted.insert(sorted.len() as int, x) =~= out);
        }
    } else {
        let head = sorted.drop_last();
        let last = sorted.last();
        lemma_rank_insert_keeps_order(head, x);
        let mid = rank_insert(head, x);
        vstd::seq_lib::to_multiset_build(mid, last);
        vstd::seq_lib::to_multiset_build(head, last);
        assert(head.push(last) =~= sorted);
        assert(mid.to_multiset().insert(last) =~= sorted.to_multiset().insert(x));
        // every candidate of `mid` scores at least as high as `last`
        assert forall|i: int| 0 <= i < mid.len() implies (#[trigger] mid[i]).score.at_least(
            last.score,
        ) by {
            lemma_at_least_total(x.score, last.score);
            // `mid[i]` is `x` or one of `head`
            vstd::seq_lib::to_multiset_contains(mid, mid[i]);
            vstd::seq_lib::to_multiset_contains(head, mid[i]);
            assert(mid.contains(mid[i]));
            if mid[i] != x {
                assert(head.contains(mid[i]));
                let k = choose|k: int| 0 <= k < head.len() && head[k] == mid[i];
                assert(sorted[k].score.at_least(sorted[sorted.len() - 1].score));
            }
        }
        assert forall|i: int, j: int| #![trigger out[i], out[j]] 0 <= i < j < out.len() implies out[i].score.at_least(
            out[j].score,
        ) by {
            if j < mid.len() {
                assert(mid[i].score.at_least(mid[j].score));
            } else {
                assert(mid[i].score.at_least(last.score));
            }
        }
        assert forall|d: Seq<char>|
            has_decoded(out, d) <==> has_decoded(sorted, d) || x.decoded == d by {
            lemma_has_decoded_insert(mid, mid.len() as int, last, d);
            assert(mid.insert(mid.len() as int, last) =~= out);
            lemma_has_decoded_insert(head, head.len() as int, last, d);
            assert(head.insert(head.len() as int, last) =~= sorted);
        }
    }
}

/// Sorting by score gives the same candidates in order of descending
/// score.
pub proof fn lemma_sort_by_score(s: Seq<DecodeView>)
    requires
        has_proper_scores(s),
    ensures
        is_descending(sort_by_score(s)),
        has_proper_scores(sort_by_score(s)),
        sort_by_score(s).to_multiset() == s.to_multiset(),
        sort_by_score(s).len() == s.len(),
        forall|d: Seq<char>| has_decoded(sort_by_score(s), d) <==> has_decoded(s, d),
    decreases s.len(),
{
    if s.len() == 0 {
        assert(s =~= Seq::<DecodeView>::empty());
    } else {
        let head = s.drop_last();
        assert forall|i: int| 0 <= i < head.len() implies (#[trigger] head[i]).score.den > 0 by {
            assert(s[i].score.den > 0);
        }
        lemma_sort_by_score(head);
        assert(s[s.len() - 1].score.den > 0);
        lemma_rank_insert_keeps_order(sort_by_score(head), s.last());
        vstd::seq_lib::to_multiset_build(head, s.last());
        assert(head.push(s.last()) =~= s);
        assert forall|d: Seq<char>| has_decoded(sort_by_score(s), d) <==> has_decoded(s, d) by {
            lemma_has_decoded_insert(head, head.len() as int, s.last(), d);
            assert(head.insert(head.len() as int, s.last()) =~= s);
        }
    }
}

/// Dropping repeated texts leaves each text of `s` once.
pub proof fn lemma_dedup(s: Seq<DecodeView>)
    ensures
        has_distinct_texts(dedup(s)),
        forall|d: Seq<char>| has_decoded(dedup(s), d) <==> has_decoded(s, d),
        forall|i: int| 0 <= i < dedup(s).len() ==> s.contains(#[trigger] dedup(s)[i]),
    decreases s.len(),
{
    if s.len() > 0 {
        let head = s.drop_last();
        let last = s.last();
        lemma_dedup(head);
        let kept = dedup(head);
        let out = dedup(s);
        assert forall|d: Seq<char>| has_decoded(s, d) <==> has_decoded(head, d) || last.decoded
            == d by {
            lemma_has_decoded_insert(head, head.len() as int, last, d);
            assert(head.insert(head.len() as int, last) =~= s);
        }
        if !has_decoded(head, last.decoded) {
            assert forall|d: Seq<char>| has_decoded(out, d) <==> has_decoded(kept, d)
                || last.decoded == d by {
                lemma_has_decoded_insert(kept, kept.len() as int, last, d);
                assert(kept.insert(kept.len() as int, last) =~= out);
            }
            assert forall|i: int, j: int| #![trigger out[i], out[j]] 0 <= i < j < out.len() implies out[i].decoded
                != out[j].decoded by {
                if j == kept.len() {
                    if kept[i].decoded == last.decoded {
                        assert(has_decoded(kept, last.decoded));
                    }
                } else {
                    assert(kept[i].decoded != kept[j].decoded);
                }
            }
        }
        assert forall|i: int| 0 <= i < out.len() implies s.contains(#[trigger] out[i]) by {
            if i < kept.len() {
                assert(head.contains(kept[i]));
                let k = choose|k: int| 0 <= k < head.len() && head[k] == kept[i];
                assert(s[k] == out[i]);
            } else {
                assert(s[s.len() - 1] == out[i]);
            }
        }
    }
}

/// Ranking leaves each text once, in order of descending score.
pub proof fn lemma_ranked(s: Seq<DecodeView>)
    requires
        has_proper_scores(s),
    ensures
        is_descending(sort_by_score(dedup(s))),
        has_distinct_texts(sort_by_score(dedup(s))),
        sort_by_score(dedup(s)).to_multiset() == dedup(s).to_multiset(),
        forall|d: Seq<char>| has_decoded(sort_by_score(dedup(s)), d) <==> has_decoded(s, d),
{
    lemma_dedup(s);
    let kept = dedup(s);
    assert forall|i: int| 0 <= i < kept.len() implies (#[trigger] kept[i]).score.den > 0 by {
        assert(s.contains(kept[i]));
        let k = choose|k: int| 0 <= k < s.len() && s[k] == kept[i];
        assert(s[k].score.den > 0);
    }
    lemma_sort_by_score(kept);
    let out = sort_by_score(kept);
    // two places of `out` with one text would be two places of `kept`
    assert forall|i: int, j: int| #![trigger out[i], out[j]] 0 <= i < j < out.len() implies out[i].decoded
        != out[j].decoded by {
        if out[i].decoded == out[j].decoded {
            lemma_distinct_texts_in_permutation(kept, out, i, j);
        }
    }
}

/// A permutation of candidates with distinct texts has distinct texts.
proof fn lemma_distinct_texts_in_permutation(
    kept: Seq<DecodeView>,
    out: Seq<DecodeView>,
    i: int,
    j: int,
)
    requires
        has_distinct_texts(kept),
        out.to_multiset() == kept.to_multiset(),
        0 <= i < j < out.len(),
    ensures
        out[i].decoded != out[j].decoded,
{
    assert(kept.no_duplicates()) by {
        assert forall|a: int, b: int| 0 <= a < kept.len() && 0 <= b < kept.len() && a != b implies kept[a]
            != kept[b] by {
            if a < b {
                assert(kept[a].decoded != kept[b].decoded);
            } else {
                assert(kept[b].decoded != kept[a].decoded);
            }
        }
    }
    kept.lemma_multiset_has_no_duplicates();
    out.lemma_multiset_has_no_duplicates_conv();
    assert(out[i] != out[j]);
    vstd::seq_lib::to_multiset_contains(out, out[i]);
    vstd::seq_lib::to_multiset_contains(out, out[j]);
    vstd::seq_lib::to_multiset_contains(kept, out[i]);
    vstd::seq_lib::to_multiset_contains(kept, out[j]);
    assert(out.contains(out[i]));
    assert(out.contains(out[j]));
    let a = choose|a: int| 0 <= a < kept.len() && kept[a] == out[i];
    let b = choose|b: int| 0 <= b < kept.len() && kept[b] == out[j];
    if a < b {
        assert(kept[a].decoded != kept[b].decoded);
    } else {
        assert(kept[b].decoded != kept[a].decoded);
    }
}

/// What the orchestrator returns for `text`: nothing if the text has no
/// zero-width character; otherwise every candidate, each text once, by
/// descending score.
pub open spec fn spec_auto_decode(text: Seq<char>) -> Seq<DecodeView> {
    if zero_width_only(text).len() == 0 {
        Seq::empty()
    } else {
        sort_by_score(dedup(all_candidates(text)))
    }
}

/// Appends `found` to `results` if it scores above 15.
fn keep_found(results: &mut Vec<DecodeResult>, found: Option<DecodeResult>)
    requires
        all_wf(old(results)@),
        found is Some ==> found->0.score.wf(),
    ensures
        views(final(results)@) == views(old(results)@) + kept(view_of(found)),
        all_wf(final(results)@),
{
    match found {
        Some(r) => {
            if r.score.exceeds(KEEP_ABOVE) {
                results.push(r);
                assert(views(results@) =~= views(old(results)@) + seq![r@]);
            } else {
                assert(views(results@) =~= views(old(results)@) + Seq::<DecodeView>::empty());
            }
        },
        None => {
            assert(views(results@) =~= views(old(results)@) + Seq::<DecodeView>::empty());
        },
    }
}

/// Appends all of `more` to `results`.
fn append_found(results: &mut Vec<DecodeResult>, more: Vec<DecodeResult>)
    requires
        all_wf(old(results)@),
        all_wf(more@),
    ensures
        views(final(results)@) == views(old(results)@) + views(more@),
        all_wf(final(results)@),
{
    let mut more = more;
    results.append(&mut more);
}

/// Runs the binary strategy for `input` with the given roles.
fn decode_pair(input: &PairInput, zero: char, one: char, bits: usize) -> (r: Option<DecodeResult>)
    requires
        bits >= 1,
    ensures
        view_of(r) == pair_decode(input@, zero, one, bits as nat),
        r is Some ==> r->0.score.wf(),
{
    match input {
        PairInput::Stream(s) => decode_direct_binary(s, zero, one, bits),
        PairInput::Segments(g) => decode_segmented_binary(g, zero, one, bits),
    }
}

/// The pairwise sweep: every ordered pair of distinct symbols among the
/// first `limit` of `top` as the roles (zero, one), with 8 and with 7
/// bits.
pub fn pair_sweep(input: &PairInput, top: &[char], limit: usize, results: &mut Vec<DecodeResult>)
    requires
        limit <= top.len(),
        all_wf(old(results)@),
    ensures
        views(final(results)@) == views(old(results)@) + sweep_candidates(
            input@,
            top@,
            limit as nat,
            limit as nat,
        ),
        all_wf(final(results)@),
{
    let mut i: usize = 0;
    assert(views(results@) =~= views(old(results)@) + Seq::<DecodeView>::empty());
    while i < limit
        invariant
            i <= limit <= top.len(),
            views(results@) == views(old(results)@) + sweep_candidates(
                input@,
                top@,
                limit as nat,
                i as nat,
            ),
            all_wf(results@),
        decreases limit - i,
    {
        let ghost row_start = views(results@);
        let mut j: usize = 0;
        assert(views(results@) =~= row_start + Seq::<DecodeView>::empty());
        while j < limit
            invariant
                i < limit <= top.len(),
                j <= limit,
                views(results@) == row_start + row_candidates(input@, top@, i as int, j as nat),
                all_wf(results@),
            decreases limit - j,
        {
            let ghost before = views(results@);
            if i != j {
                let with_eight = decode_pair(input, top[i], top[j], 8);
                keep_found(results, with_eight);
                let with_seven = decode_pair(input, top[i], top[j], 7);
                keep_found(results, with_seven);
                assert(views(results@) =~= before + pair_candidates(
                    input@,
                    top@[i as int],
                    top@[j as int],
                ));
            } else {
                assert(views(results@) =~= before + Seq::<DecodeView>::empty());
            }
            assert(views(results@) =~= row_start + row_candidates(
                input@,
                top@,
                i as int,
                (j + 1) as nat,
            ));
            j += 1;
        }
        assert(views(results@) =~= views(old(results)@) + sweep_candidates(
            input@,
            top@,
            limit as nat,
            (i + 1) as nat,
        ));
        i += 1;
    }
}

/// How many characters of `chars` occur in the text that `dist` counts.
fn count_hits(chars: &[char], dist: &BTreeMap<u32, usize>) -> (r: usize)
    ensures
        r == preset_hits(chars@, dist@),
{
    let mut hits: usize = 0;
    let mut i: usize = 0;
    while i < chars.len()
        invariant
            i <= chars.len(),
            hits == preset_hits(chars@.take(i as int), dist@),
            hits <= i,
        decreases chars.len() - i,
    {
        proof {
            lemma_count_step(chars@, |c: char| dist@.contains_key(c as u32), i as int);
        }
        let cp: u32 = chars[i] as u32;
        if dist.contains_key(&cp) {
            hits += 1;
        }
        i += 1;
    }
    assert(chars@.take(chars.len() as int) == chars@);
    hits
}

/// The preset sweep: the N-ary strategy with every preset of which at
/// least two characters occur in the text.
fn preset_sweep(zw: &[char], dist: &BTreeMap<u32, usize>, results: &mut Vec<DecodeResult>)
    requires
        all_wf(old(results)@),
    ensures
        views(final(results)@) == views(old(results)@) + preset_candidates(
            zw@,
            dist@,
            PRESET_COUNT as nat,
        ),
        all_wf(final(results)@),
{
    let presets = encoding_presets();
    let mut k: usize = 0;
    assert(views(results@) =~= views(old(results)@) + Seq::<DecodeView>::empty());
    while k < presets.len()
        invariant
            k <= presets.len(),
            presets@.len() == PRESET_COUNT,
            forall|i: int| 0 <= i < PRESET_COUNT ==> is_preset_entry(#[trigger] presets@[i], i),
            views(results@) == views(old(results)@) + preset_candidates(zw@, dist@, k as nat),
            all_wf(results@),
        decreases presets.len() - k,
    {
        let ghost before = views(results@);
        assert(is_preset_entry(presets@[k as int], k as int));
        let alphabet = presets[k].1.chars.as_slice();
        if count_hits(alphabet, dist) >= 2 {
            let found = decode_nary(zw, alphabet);
            append_found(results, found);
        } else {
            assert(views(results@) =~= before + Seq::<DecodeView>::empty());
        }
        assert(views(results@) =~= views(old(results)@) + preset_candidates(
            zw@,
            dist@,
            (k + 1) as nat,
        ));
        k += 1;
    }
}

/// The N-ary sweep: the N-ary strategy with the `m` most frequent symbols
/// as the alphabet, for each `m` from 3 to `largest`.
fn alphabet_sweep(zw: &[char], top: &[char], largest: usize, results: &mut Vec<DecodeResult>)
    requires
        largest <= top.len(),
        all_wf(old(results)@),
    ensures
        views(final(results)@) == views(old(results)@) + alphabet_candidates(
            zw@,
            top@,
            largest as nat,
        ),
        all_wf(final(results)@),
{
    // the largest alphabet tried so far
    let mut tried: usize = 2;
    while tried < largest
        invariant
            2 <= tried,
            tried == 2 || tried <= largest,
            largest <= top.len(),
            views(results@) == views(old(results)@) + alphabet_candidates(zw@, top@, tried as nat),
            all_wf(results@),
        decreases largest - tried,
    {
        tried += 1;
        let alphabet = vstd::slice::slice_subrange(top, 0, tried);
        let found = decode_nary(zw, alphabet);
        append_found(results, found);
        assert(views(results@) =~= views(old(results)@) + alphabet_candidates(
            zw@,
            top@,
            tried as nat,
        ));
    }
    assert(alphabet_candidates(zw@, top@, tried as nat) == alphabet_candidates(
        zw@,
        top@,
        largest as nat,
    ));
}

/// Whether one of `results` has the text `decoded`.
fn contains_decoded(results: &Vec<DecodeResult>, decoded: &String) -> (r: bool)
    ensures
        r == has_decoded(views(results@), decoded@),
{
    let mut k: usize = 0;
    while k < results.len()
        invariant
            k <= results.len(),
            forall|i: int| 0 <= i < k ==> (#[trigger] views(results@)[i]).decoded != decoded@,
        decreases results.len() - k,
    {
        if results[k].decoded == *decoded {
            assert(views(results@)[k as int].decoded == decoded@);
            return true;
        }
        k += 1;
    }
    false
}

/// Where a candidate with the score `score` belongs in `sorted`: behind
/// every candidate that scores at least as high.
fn insert_position(sorted: &Vec<DecodeResult>, score: &Score) -> (p: usize)
    requires
        all_wf(sorted@),
        score.wf(),
    ensures
        p <= sorted@.len(),
        forall|k: int|
            p <= k < sorted@.len() ==> !(#[trigger] views(sorted@)[k]).score.at_least(*score),
        p > 0 ==> views(sorted@)[p - 1].score.at_least(*score),
{
    let mut p: usize = sorted.len();
    while p > 0 && !sorted[p - 1].score.ge(score)
        invariant
            p <= sorted@.len(),
            all_wf(sorted@),
            score.wf(),
            forall|k: int|
                p <= k < sorted@.len() ==> !(#[trigger] views(sorted@)[k]).score.at_least(*score),
        decreases p,
    {
        p -= 1;
    }
    p
}

/// `rank_insert` puts the new candidate at the place that separates the
/// candidates scoring at least as high from those scoring lower.
proof fn lemma_rank_insert_at(sorted: Seq<DecodeView>, x: DecodeView, p: int)
    requires
        0 <= p <= sorted.len(),
        forall|k: int| p <= k < sorted.len() ==> !(#[trigger] sorted[k]).score.at_least(x.score),
        p > 0 ==> sorted[p - 1].score.at_least(x.score),
    ensures
        rank_insert(sorted, x) == sorted.insert(p, x),
    decreases sorted.len() - p,
{
    if p == sorted.len() {
        assert(sorted.push(x) =~= sorted.insert(p, x));
    } else {
        assert(!sorted[sorted.len() - 1].score.at_least(x.score));
        lemma_rank_insert_at(sorted.drop_last(), x, p);
        assert(sorted.drop_last().insert(p, x).push(sorted.last()) =~= sorted.insert(p, x));
    }
}

/// A sequence with one more candidate has the texts it had, and the text
/// of the new candidate.
proof fn lemma_has_decoded_insert(s: Seq<DecodeView>, p: int, x: DecodeView, d: Seq<char>)
    requires
        0 <= p <= s.len(),
    ensures
        has_decoded(s.insert(p, x), d) <==> has_decoded(s, d) || x.decoded == d,
{
    let t = s.insert(p, x);
    if has_decoded(s, d) {
        let k = choose|k: int| 0 <= k < s.len() && s[k].decoded == d;
        if k < p {
            assert(t[k].decoded == d);
        } else {
            assert(t[k + 1].decoded == d);
        }
    }
    if x.decoded == d {
        assert(t[p].decoded == d);
    }
    if has_decoded(t, d) {
        let k = choose|k: int| 0 <= k < t.len() && t[k].decoded == d;
        if k < p {
            assert(s[k].decoded == d);
        } else if k > p {
            assert(s[k - 1].decoded == d);
        }
    }
}

/// Orders the candidates by descending score; candidates of equal score
/// keep their order.
pub fn sort_results(candidates: Vec<DecodeResult>) -> (r: Vec<DecodeResult>)
    requires
        all_wf(candidates@),
    ensures
        views(r@) == sort_by_score(views(candidates@)),
        is_descending(views(r@)),
        all_wf(r@),
{
    let ghost all = views(candidates@);
    let ghost given = candidates@;
    let mut sorted: Vec<DecodeResult> = Vec::new();
    proof {
        assert forall|i: int| 0 <= i < all.len() implies (#[trigger] all[i]).score.den > 0 by {
            assert(given[i].score.wf());
        }
        lemma_sort_by_score(all);
    }
    assert(views(sorted@) =~= sort_by_score(all.take(0)));
    for found in it: candidates
        invariant
            it.seq() == given,
            all == views(given),
            all_wf(given),
            views(sorted@) == sort_by_score(all.take(it.index() as int)),
            all_wf(sorted@),
    {
        let ghost i = it.index() as int;
        let ghost before = views(sorted@);
        proof {
            assert(found == given[i]);
            assert(all.take(i + 1).drop_last() == all.take(i));
            assert(all.take(i + 1).last() == found@);
        }
        let p = insert_position(&sorted, &found.score);
        proof {
            lemma_rank_insert_at(before, found@, p as int);
        }
        sorted.insert(p, found);
        assert(views(sorted@) =~= before.insert(p as int, found@));
    }
    assert(all.take(given.len() as int) == all);
    sorted
}

/// Drops every candidate whose text an earlier candidate has, and orders
/// the rest by descending score; candidates of equal score keep their
/// order.
pub fn rank_results(candidates: Vec<DecodeResult>) -> (r: Vec<DecodeResult>)
    requires
        all_wf(candidates@),
    ensures
        views(r@) == sort_by_score(dedup(views(candidates@))),
        is_descending(views(r@)),
        has_distinct_texts(views(r@)),
        all_wf(r@),
{
    let ghost all = views(candidates@);
    let ghost given = candidates@;
    let mut sorted: Vec<DecodeResult> = Vec::new();
    proof {
        assert forall|i: int| 0 <= i < all.len() implies (#[trigger] all[i]).score.den > 0 by {
            assert(given[i].score.wf());
        }
        lemma_ranked(all);
    }
    assert(views(sorted@) =~= sort_by_score(dedup(all.take(0))));
    for found in it: candidates
        invariant
            it.seq() == given,
            all == views(given),
            all_wf(given),
            views(sorted@) == sort_by_score(dedup(all.take(it.index() as int))),
            forall|d: Seq<char>|
                #![trigger has_decoded(views(sorted@), d)]
                has_decoded(views(sorted@), d) <==> has_decoded(all.take(it.index() as int), d),
            all_wf(sorted@),
    {
        let ghost i = it.index() as int;
        let ghost before = views(sorted@);
        proof {
            assert(found == given[i]);
            assert(all.take(i + 1).drop_last() == all.take(i));
            assert(all.take(i + 1).last() == found@);
            assert forall|d: Seq<char>|
                has_decoded(all.take(i + 1), d) == (has_decoded(all.take(i), d) || found@.decoded
                    == d) by {
                lemma_has_decoded_insert(all.take(i), i, found@, d);
                assert(all.take(i).insert(i, found@) =~= all.take(i + 1));
            }
        }
        let ghost grown = all.take(i + 1);
        if !contains_decoded(&sorted, &found.decoded) {
            let p = insert_position(&sorted, &found.score);
            proof {
                assert(!has_decoded(all.take(i), found@.decoded));
                assert(dedup(grown) == dedup(all.take(i)).push(found@));
                assert(dedup(grown).drop_last() == dedup(all.take(i)));
                assert(sort_by_score(dedup(grown)) == rank_insert(before, found@));
                lemma_rank_insert_at(before, found@, p as int);
                assert forall|d: Seq<char>|
                    #![trigger has_decoded(before.insert(p as int, found@), d)]
                    has_decoded(before.insert(p as int, found@), d) == has_decoded(grown, d) by {
                    lemma_has_decoded_insert(before, p as int, found@, d);
                    assert(has_decoded(before, d) == has_decoded(all.take(i), d));
                }
            }
            sorted.insert(p, found);
            assert(views(sorted@) =~= before.insert(p as int, found@));
        } else {
            proof {
                assert(has_decoded(all.take(i), found@.decoded));
                assert(dedup(grown) == dedup(all.take(i)));
                assert forall|d: Seq<char>|
                    #![trigger has_decoded(before, d)]
                    has_decoded(before, d) == has_decoded(grown, d) by {
                    assert(has_decoded(before, d) == has_decoded(all.take(i), d));
                }
            }
        }
    }
    assert(all.take(given.len() as int) == all);
    sorted
}

/// Tries every strategy on `text` and returns the candidates, each text
/// once, most plausible first. Candidates of equal score stand in the
/// order in which the strategies found them. A text without zero-width
/// characters has no candidates.
pub fn auto_decode(text: &str) -> (r: Vec<DecodeResult>)
    ensures
        views(r@) == spec_auto_decode(text@),
        zero_width_only(text@).len() == 0 ==> r@.len() == 0,
        is_descending(views(r@)),
        has_distinct_texts(views(r@)),
        all_wf(r@),
{
    let analysis = analyze(text);
    let mut results: Vec<DecodeResult> = Vec::new();
    if analysis.zero_width_count == 0 {
        return results;
    }
    let zw_all = extract_all(text);
    let found_segments = extract_segments(text);
    let top = rank_symbols(&analysis.distribution);

    push_found(&mut results, decode_unicode_tags(text));
    push_found(&mut results, decode_steganographr(text));
    preset_sweep(zw_all.as_slice(), &analysis.distribution, &mut results);

    let direct: usize = if top.len() < DIRECT_SYMBOLS {
        top.len()
    } else {
        DIRECT_SYMBOLS
    };
    pair_sweep(&PairInput::Stream(zw_all.as_slice()), top.as_slice(), direct, &mut results);

    let largest: usize = if top.len() < LARGEST_ALPHABET {
        top.len()
    } else {
        LARGEST_ALPHABET
    };
    alphabet_sweep(zw_all.as_slice(), top.as_slice(), largest, &mut results);

    let segmented: usize = if top.len() < SEGMENTED_SYMBOLS {
        top.len()
    } else {
        SEGMENTED_SYMBOLS
    };
    pair_sweep(
        &PairInput::Segments(found_segments.as_slice()),
        top.as_slice(),
        segmented,
        &mut results,
    );
    rank_results(results)
}

} // verus!
