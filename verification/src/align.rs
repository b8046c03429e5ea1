//! The item aligner: walks the item maps of an original and a fixed document
//! in ascending offset order, tracks the cumulative byte-length drift that
//! earlier accepted changes introduced, matches an original item to the
//! fixed item standing at its drifted offset, and emits a before/after pair
//! for every match whose content differs.

use vstd::prelude::*;

use crate::bytes::bytes_eq;
use crate::bytes::push_bytes;
use crate::extract::has_key;
use crate::extract::value_at;
use crate::extract::ItemMap;
use crate::markup::markup_rules;
use crate::markup::rules_spec;
use crate::markup::span_views;
use crate::span::DiagnosticSpan;

verus! {

/// The views of a sequence of emitted pairs.
pub open spec fn pair_views(s: Seq<(usize, Vec<u8>, Vec<u8>)>) -> Seq<(usize, Seq<u8>, Seq<u8>)> {
    s.map(|i: int, p: (usize, Vec<u8>, Vec<u8>)| (p.0, p.1@, p.2@))
}

/// The pairs alignment emits, walking the original entries in order with the
/// accumulated drift: an original item at offset `k` matches the fixed item
/// at offset `k + drift` when one stands there; a match with different
/// content is emitted and moves the drift by the length difference; every
/// other original item is skipped and leaves the drift unchanged.
pub open spec fn align_spec(
    orig: Seq<(usize, Seq<u8>)>,
    fixed: Seq<(usize, Seq<u8>)>,
    drift: int,
) -> Seq<(usize, Seq<u8>, Seq<u8>)>
    decreases orig.len(),
{
    if orig.len() == 0 {
        Seq::empty()
    } else {
        let k1 = orig[0].0;
        let v1 = orig[0].1;
        let t = k1 + drift;
        if has_key(fixed, t) && value_at(fixed, t) != v1 {
            let v2 = value_at(fixed, t);
            seq![(k1, v1, v2)] + align_spec(
                orig.drop_first(),
                fixed,
                drift + v2.len() - v1.len(),
            )
        } else {
            align_spec(orig.drop_first(), fixed, drift)
        }
    }
}

/// Pair up the changed items of two item maps: each original item is matched
/// against the fixed item standing at its drifted offset, a match with
/// different content is emitted as `(offset, before, after)` and updates the
/// drift, and unmatched or unchanged items are silently skipped.
pub fn align<'a, 'b>(orig: &ItemMap<'a>, fixed: &ItemMap<'b>) -> (pairs: Vec<
    (usize, Vec<u8>, Vec<u8>),
>)
    requires
        orig.wf(),
        fixed.wf(),
    ensures
        pair_views(pairs@) == align_spec(orig@, fixed@, 0),
{
    let mut pairs: Vec<(usize, Vec<u8>, Vec<u8>)> = Vec::new();
    let n = orig.len();
    let mut drift: i128 = 0;
    let mut i: usize = 0;
    proof {
        assert(orig@.skip(0) =~= orig@);
        assert(pair_views(pairs@) + align_spec(orig@, fixed@, 0) =~= align_spec(orig@, fixed@, 0));
    }
    while i < n
        invariant
            n == orig@.len(),
            i <= n,
            orig.wf(),
            fixed.wf(),
            -2 * (usize::MAX as int) <= drift as int <= 2 * (usize::MAX as int),
            align_spec(orig@, fixed@, 0) == pair_views(pairs@) + align_spec(
                orig@.skip(i as int),
                fixed@,
                drift as int,
            ),
        decreases n - i,
    {
        let ghost rest = orig@.skip(i as int);
        proof {
            assert(rest[0] == orig@[i as int]);
            assert(rest.drop_first() =~= orig@.skip(i as int + 1));
        }
        let k1 = orig.key_at(i);
        let v1 = orig.slice_at(i);
        let t: i128 = k1 as i128 + drift;
        match fixed.get(t) {
            Some(v2) => {
                if !bytes_eq(v1, v2) {
                    proof {
                        let w = choose|w: int|
                            0 <= w < fixed@.len() && (#[trigger] fixed@[w]).0 == t as int;
                        assert(0 <= t as int <= usize::MAX as int);
                    }
                    let b1 = vstd::slice::slice_to_vec(v1);
                    let b2 = vstd::slice::slice_to_vec(v2);
                    let ghost prev = pairs@;
                    pairs.push((k1, b1, b2));
                    let len2 = v2.len();
                    let len1 = v1.len();
                    drift = drift + len2 as i128 - len1 as i128;
                    proof {
                        assert(pair_views(pairs@) =~= pair_views(prev).push(
                            (k1 as usize, v1@, v2@),
                        ));
                        assert(align_spec(rest, fixed@, t as int - k1 as int) == seq![
                            (k1 as usize, v1@, v2@),
                        ] + align_spec(rest.drop_first(), fixed@, drift as int));
                        assert(pair_views(pairs@) + align_spec(
                            orig@.skip(i as int + 1),
                            fixed@,
                            drift as int,
                        ) =~= pair_views(prev) + align_spec(rest, fixed@, t as int - k1 as int));
                    }
                } else {
                    proof {
                        assert(value_at(fixed@, t as int) == v1@);
                        assert(align_spec(rest, fixed@, drift as int) == align_spec(
                            rest.drop_first(),
                            fixed@,
                            drift as int,
                        ));
                    }
                }
            },
            None => {
                proof {
                    assert(!has_key(fixed@, t as int));
                    assert(align_spec(rest, fixed@, drift as int) == align_spec(
                        rest.drop_first(),
                        fixed@,
                        drift as int,
                    ));
                }
            },
        }
        i = i + 1;
    }
    proof {
        assert(orig@.skip(n as int) =~= Seq::<(usize, Seq<u8>)>::empty());
        assert(pair_views(pairs@) + align_spec(
            orig@.skip(n as int),
            fixed@,
            drift as int,
        ) =~= pair_views(pairs@));
    }
    pairs
}

/// Alignment emits only genuine changes: every emitted pair pairs an
/// original item, under its own offset and with its own content as the
/// before-slice, with an after-slice that differs from it; an item whose
/// matched counterpart is content-identical, and an item with no counterpart
/// at its drifted offset, contribute no pair.
pub proof fn lemma_align_emits_only_changes(
    orig: Seq<(usize, Seq<u8>)>,
    fixed: Seq<(usize, Seq<u8>)>,
    drift: int,
)
    requires
        crate::extract::sorted_keys(orig),
    ensures
        forall|p: int|
            0 <= p < align_spec(orig, fixed, drift).len() ==> {
                let pair = #[trigger] align_spec(orig, fixed, drift)[p];
                &&& pair.1 != pair.2
                &&& has_key(orig, pair.0 as int)
                &&& pair.1 == value_at(orig, pair.0 as int)
            },
    decreases orig.len(),
{
    if orig.len() == 0 {
    } else {
        let k1 = orig[0].0;
        let v1 = orig[0].1;
        let t = k1 + drift;
        let tail = orig.drop_first();
        assert forall|i: int, j: int| 0 <= i < j < tail.len() implies (#[trigger] tail[i]).0 < (
        #[trigger] tail[j]).0 by {
            assert(orig[i + 1].0 < orig[j + 1].0);
        }
        crate::extract::lemma_value_at_index(orig, 0);
        if has_key(fixed, t) && value_at(fixed, t) != v1 {
            let v2 = value_at(fixed, t);
            let head = (k1, v1, v2);
            let rec = align_spec(tail, fixed, drift + v2.len() - v1.len());
            lemma_align_emits_only_changes(tail, fixed, drift + v2.len() - v1.len());
            assert forall|p: int|
                0 <= p < align_spec(orig, fixed, drift).len() implies {
                let pair = #[trigger] align_spec(orig, fixed, drift)[p];
                &&& pair.1 != pair.2
                &&& has_key(orig, pair.0 as int)
                &&& pair.1 == value_at(orig, pair.0 as int)
            } by {
                let pair = align_spec(orig, fixed, drift)[p];
                if p == 0 {
                    assert(pair == head);
                } else {
                    assert(pair == rec[p - 1]);
                    lemma_lift_pair(orig, pair.0 as int, pair.1);
                }
            }
        } else {
            let rec = align_spec(tail, fixed, drift);
            lemma_align_emits_only_changes(tail, fixed, drift);
            assert forall|p: int|
                0 <= p < align_spec(orig, fixed, drift).len() implies {
                let pair = #[trigger] align_spec(orig, fixed, drift)[p];
                &&& pair.1 != pair.2
                &&& has_key(orig, pair.0 as int)
                &&& pair.1 == value_at(orig, pair.0 as int)
            } by {
                let pair = align_spec(orig, fixed, drift)[p];
                assert(pair == rec[p]);
                lemma_lift_pair(orig, pair.0 as int, pair.1);
            }
        }
    }
}

proof fn lemma_lift_pair(orig: Seq<(usize, Seq<u8>)>, k: int, v: Seq<u8>)
    requires
        crate::extract::sorted_keys(orig),
        orig.len() > 0,
        has_key(orig.drop_first(), k),
        v == value_at(orig.drop_first(), k),
    ensures
        has_key(orig, k),
        v == value_at(orig, k),
{
    let tail = orig.drop_first();
    let i = choose|i: int| 0 <= i < tail.len() && (#[trigger] tail[i]).0 == k;
    assert(orig[i + 1].0 == k);
    assert(has_key(orig, k));
    let w = choose|w: int| 0 <= w < tail.len() && (#[trigger] tail[w]).0 == k;
    if w != i {
        if w < i {
            assert(orig[w + 1].0 < orig[i + 1].0);
        } else {
            assert(orig[i + 1].0 < orig[w + 1].0);
        }
    }
    let w2 = choose|w: int| 0 <= w < orig.len() && (#[trigger] orig[w]).0 == k;
    if w2 != i + 1 {
        if w2 < i + 1 {
            assert(orig[w2].0 < orig[i + 1].0);
        } else {
            assert(orig[i + 1].0 < orig[w2].0);
        }
    }
    assert(value_at(orig, k) == orig[i + 1].1);
    assert(value_at(tail, k) == tail[i].1);
}

/// The contents of the two files a changed item becomes: the rules comment
/// block for the item's original byte range, followed by the before-slice in
/// the one and the after-slice in the other.
pub fn transform_pair(
    offset: usize,
    before: &[u8],
    after: &[u8],
    fixed: &Vec<DiagnosticSpan>,
) -> (r: (Vec<u8>, Vec<u8>))
    requires
        offset + before@.len() <= usize::MAX,
    ensures
        r.0@ == rules_spec(span_views(fixed@), offset as int, offset + before@.len()) + before@,
        r.1@ == rules_spec(span_views(fixed@), offset as int, offset + before@.len()) + after@,
{
    let end = offset + before.len();
    let rules = markup_rules(offset, end, fixed);
    let mut first = crate::span::clone_bytes(&rules);
    push_bytes(&mut first, before);
    let mut second = rules;
    push_bytes(&mut second, after);
    (first, second)
}

} // verus!
