//! The analyzer, which counts the zero-width characters of a text by code
//! point, and the extractor, which isolates them.

use std::collections::BTreeMap;
use vstd::prelude::*;
use crate::chars::{
    in_catalog_ranges, is_unicode_tag, is_zero_width, spec_is_unicode_tag, spec_is_zero_width,
};
use crate::decode::texts;
use crate::text::{is_control, lemma_count_step, spec_is_control, string_from_chars, to_chars};

verus! {

/// What the analyzer finds in a text.
#[derive(Debug, Clone)]
pub struct Analysis {
    pub total_chars: usize,
    pub visible_chars: usize,
    pub zero_width_count: usize,
    pub unique_zw_chars: usize,
    /// For each zero-width code point that occurs, how often it occurs.
    pub distribution: BTreeMap<u32, usize>,
    pub has_unicode_tags: bool,
}

/// Whether `cp` is the code point of a zero-width character.
pub open spec fn is_zero_width_code(cp: u32) -> bool {
    in_catalog_ranges(cp) || 0xE0000 <= cp <= 0xE007F
}

/// How often the code point `cp` occurs in `s`.
pub open spec fn occurrences(s: Seq<char>, cp: u32) -> nat {
    s.filter(|c: char| c as u32 == cp).len()
}

/// The zero-width characters of `s`, in order.
pub open spec fn zero_width_only(s: Seq<char>) -> Seq<char> {
    s.filter(|c: char| spec_is_zero_width(c))
}

/// Visible characters: neither zero-width nor control characters.
pub open spec fn is_visible(c: char) -> bool {
    !spec_is_zero_width(c) && !spec_is_control(c)
}

/// How many characters of `s` are visible.
pub open spec fn visible_count(s: Seq<char>) -> nat {
    s.filter(|c: char| is_visible(c)).len()
}

/// Whether `s` holds a character of the Unicode Tag block.
pub open spec fn has_tag(s: Seq<char>) -> bool {
    exists|i: int| 0 <= i < s.len() && spec_is_unicode_tag(#[trigger] s[i])
}

/// The frequency of each zero-width code point that occurs in `s`.
pub open spec fn spec_distribution(s: Seq<char>) -> Map<u32, usize> {
    Map::new(
        |cp: u32| is_zero_width_code(cp) && occurrences(s, cp) > 0,
        |cp: u32| occurrences(s, cp) as usize,
    )
}

/// The sum of the values that `m` holds under keys below `bound`.
pub open spec fn values_sum_below(m: Map<u32, usize>, bound: nat) -> nat
    decreases bound,
{
    if bound == 0 {
        0
    } else {
        let k = (bound - 1) as u32;
        values_sum_below(m, (bound - 1) as nat) + if m.contains_key(k) {
            m[k] as nat
        } else {
            0
        }
    }
}

/// The sum of all values of `m`.
pub open spec fn values_sum(m: Map<u32, usize>) -> nat {
    values_sum_below(m, 0x1_0000_0000)
}

impl Analysis {
    /// The counts agree with the distribution: the zero-width count is the
    /// sum of its values, and the number of distinct zero-width characters
    /// is its size.
    pub open spec fn wf(&self) -> bool {
        &&& self.zero_width_count == values_sum(self.distribution@)
        &&& self.unique_zw_chars == self.distribution@.len()
    }

    /// This is the analysis of the text `s`.
    pub open spec fn describes(&self, s: Seq<char>) -> bool {
        &&& self.total_chars == s.len()
        &&& self.visible_chars == visible_count(s)
        &&& self.zero_width_count == zero_width_only(s).len()
        &&& self.distribution@ == spec_distribution(s)
        &&& self.unique_zw_chars == spec_distribution(s).len()
        &&& self.has_unicode_tags == has_tag(s)
    }
}

/// Setting the value under `k` changes the sum of the values by the
/// difference between the new value and the old.
pub proof fn lemma_values_sum_insert(m: Map<u32, usize>, k: u32, v: usize, bound: nat)
    requires
        bound <= 0x1_0000_0000,
    ensures
        values_sum_below(m.insert(k, v), bound) == values_sum_below(m, bound) + (if k < bound {
            v - (if m.contains_key(k) {
                m[k] as int
            } else {
                0
            })
        } else {
            0
        }),
    decreases bound,
{
    if bound > 0 {
        lemma_values_sum_insert(m, k, v, (bound - 1) as nat);
    }
}

/// The values of the empty map sum to 0.
pub proof fn lemma_values_sum_empty(bound: nat)
    ensures
        values_sum_below(Map::<u32, usize>::empty(), bound) == 0,
    decreases bound,
{
    if bound > 0 {
        lemma_values_sum_empty((bound - 1) as nat);
    }
}

/// The analysis of `text`: how many characters it has, how many of them
/// are visible, and how often each zero-width code point occurs.
pub fn analyze(text: &str) -> (a: Analysis)
    ensures
        a.describes(text@),
        a.wf(),
{
    let chars = to_chars(text);
    let mut distribution: BTreeMap<u32, usize> = BTreeMap::new();
    let mut visible: usize = 0;
    let mut zw_count: usize = 0;
    let mut has_tags: bool = false;
    let mut i: usize = 0;
    proof {
        assert(distribution@ =~= spec_distribution(text@.take(0)));
        lemma_values_sum_empty(0x1_0000_0000);
    }
    while i < chars.len()
        invariant
            i <= chars.len(),
            chars@ == text@,
            visible == visible_count(text@.take(i as int)),
            zw_count == zero_width_only(text@.take(i as int)).len(),
            zw_count == values_sum(distribution@),
            distribution@ == spec_distribution(text@.take(i as int)),
            has_tags == has_tag(text@.take(i as int)),
            visible <= i,
            zw_count <= i,
        decreases chars.len() - i,
    {
        let ch: char = chars[i];
        let ghost before = text@.take(i as int);
        let ghost after = text@.take(i + 1);
        proof {
            lemma_count_step(text@, |c: char| is_visible(c), i as int);
            lemma_count_step(text@, |c: char| spec_is_zero_width(c), i as int);
            assert forall|cp: u32|
                occurrences(after, cp) == occurrences(before, cp) + (if ch as u32 == cp {
                    1int
                } else {
                    0int
                }) && #[trigger] occurrences(before, cp) <= i by {
                lemma_count_step(text@, |c: char| c as u32 == cp, i as int);
            }
            assert(after == before.push(ch));
            assert(has_tag(after) == (has_tag(before) || spec_is_unicode_tag(ch))) by {
                if has_tag(before) {
                    let k = choose|k: int| 0 <= k < before.len() && spec_is_unicode_tag(before[k]);
                    assert(spec_is_unicode_tag(after[k]));
                }
                if spec_is_unicode_tag(ch) {
                    assert(spec_is_unicode_tag(after[i as int]));
                }
                if has_tag(after) {
                    let k = choose|k: int| 0 <= k < after.len() && spec_is_unicode_tag(after[k]);
                    if k < i {
                        assert(spec_is_unicode_tag(before[k]));
                    }
                }
            }
        }
        if is_zero_width(ch) {
            let cp: u32 = ch as u32;
            let seen: usize = match distribution.get(&cp) {
                Some(count) => *count,
                None => 0,
            };
            proof {
                assert(seen == occurrences(before, cp));
                lemma_values_sum_insert(distribution@, cp, (seen + 1) as usize, 0x1_0000_0000);
            }
            distribution.insert(cp, seen + 1);
            zw_count += 1;
            if is_unicode_tag(ch) {
                has_tags = true;
            }
            assert(distribution@ =~= spec_distribution(after));
        } else {
            if !is_control(ch) {
                visible += 1;
            }
            assert(distribution@ =~= spec_distribution(after));
        }
        i += 1;
    }
    assert(text@.take(chars.len() as int) == text@);
    Analysis {
        total_chars: chars.len(),
        visible_chars: visible,
        zero_width_count: zw_count,
        unique_zw_chars: distribution.len(),
        distribution,
        has_unicode_tags: has_tags,
    }
}

/// Every zero-width character of `text`, in the order in which they
/// occur; all other characters are left out.
pub fn extract_all(text: &str) -> (r: Vec<char>)
    ensures
        r@ == zero_width_only(text@),
{
    let chars = to_chars(text);
    let mut r: Vec<char> = Vec::new();
    let mut i: usize = 0;
    while i < chars.len()
        invariant
            i <= chars.len(),
            chars@ == text@,
            r@ == zero_width_only(text@.take(i as int)),
        decreases chars.len() - i,
    {
        proof {
            lemma_count_step(text@, |c: char| spec_is_zero_width(c), i as int);
        }
        if is_zero_width(chars[i]) {
            r.push(chars[i]);
        }
        i += 1;
    }
    assert(text@.take(chars.len() as int) == text@);
    r
}

/// The run of zero-width characters that `s` ends with; empty if `s` is
/// empty or ends with another character.
pub open spec fn trailing_run(s: Seq<char>) -> Seq<char>
    decreases s.len(),
{
    if s.len() == 0 || !spec_is_zero_width(s.last()) {
        Seq::empty()
    } else {
        trailing_run(s.drop_last()).push(s.last())
    }
}

/// The maximal runs of zero-width characters of `s` that a later
/// character of another kind ends, in order.
pub open spec fn closed_segments(s: Seq<char>) -> Seq<Seq<char>>
    decreases s.len(),
{
    if s.len() == 0 {
        Seq::empty()
    } else {
        let before = s.drop_last();
        let closed = closed_segments(before);
        if spec_is_zero_width(s.last()) || trailing_run(before).len() == 0 {
            closed
        } else {
            closed.push(trailing_run(before))
        }
    }
}

/// The segments of `s`: its maximal runs of consecutive zero-width
/// characters, in order, the one at the end of the text included.
pub open spec fn segments(s: Seq<char>) -> Seq<Seq<char>> {
    if trailing_run(s).len() > 0 {
        closed_segments(s).push(trailing_run(s))
    } else {
        closed_segments(s)
    }
}

/// The closed segments and the run at the end are, one after the other,
/// the zero-width characters of the text; and no closed segment is
/// empty.
proof fn lemma_runs(s: Seq<char>)
    ensures
        closed_segments(s).flatten() + trailing_run(s) == zero_width_only(s),
        forall|i: int|
            0 <= i < closed_segments(s).len() ==> (#[trigger] closed_segments(s)[i]).len() > 0,
    decreases s.len(),
{
    if s.len() == 0 {
        assert(closed_segments(s).flatten() =~= Seq::<char>::empty());
        assert(zero_width_only(s) =~= Seq::<char>::empty());
    } else {
        let before = s.drop_last();
        let c = s.last();
        lemma_runs(before);
        let closed = closed_segments(before);
        let open = trailing_run(before);
        assert(before.push(c) =~= s);
        before.lemma_filter_push(c, |c: char| spec_is_zero_width(c));
        if spec_is_zero_width(c) {
            assert(closed.flatten() + open.push(c) =~= (closed.flatten() + open).push(c));
        } else if open.len() == 0 {
            assert(closed.flatten() + open =~= closed.flatten() + Seq::<char>::empty());
        } else {
            closed.lemma_flatten_push(open);
            assert(closed.flatten() + open + Seq::<char>::empty() =~= closed.flatten() + open);
        }
    }
}

/// No segment is empty, and the segments are, one after the other, the
/// zero-width characters of the text.
pub proof fn lemma_segments(s: Seq<char>)
    ensures
        forall|i: int| 0 <= i < segments(s).len() ==> (#[trigger] segments(s)[i]).len() > 0,
        segments(s).flatten() == zero_width_only(s),
{
    lemma_runs(s);
    let closed = closed_segments(s);
    let open = trailing_run(s);
    if open.len() > 0 {
        closed.lemma_flatten_push(open);
    } else {
        assert(closed.flatten() + open =~= closed.flatten());
    }
}

/// The segments of `text`: its maximal runs of consecutive zero-width
/// characters, in order. No segment is empty.
pub fn extract_segments(text: &str) -> (r: Vec<String>)
    ensures
        texts(r@) == segments(text@),
{
    let chars = to_chars(text);
    let mut found: Vec<String> = Vec::new();
    let mut current: Vec<char> = Vec::new();
    let mut i: usize = 0;
    while i < chars.len()
        invariant
            i <= chars.len(),
            chars@ == text@,
            texts(found@) == closed_segments(text@.take(i as int)),
            current@ == trailing_run(text@.take(i as int)),
        decreases chars.len() - i,
    {
        let ch: char = chars[i];
        proof {
            assert(text@.take(i + 1).drop_last() == text@.take(i as int));
        }
        if is_zero_width(ch) {
            current.push(ch);
        } else if current.len() > 0 {
            let segment = string_from_chars(current.as_slice());
            found.push(segment);
            current = Vec::new();
        }
        i += 1;
    }
    assert(text@.take(chars.len() as int) == text@);
    if current.len() > 0 {
        let segment = string_from_chars(current.as_slice());
        found.push(segment);
    }
    found
}

} // verus!
