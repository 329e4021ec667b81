//! Greedy non-max suppression over a stably sorted candidate list, with
//! proofs that a pair of overlapping candidates keeps exactly the
//! higher-confidence one and that suppression is idempotent.

use vstd::prelude::*;
use crate::geometry::{box_wf, spec_iou_exceeds, lemma_iou_symmetric, Bbox, Point2};
use crate::IOU_SCALE;

verus! {

/// One surviving anchor: its box, its keypoint list when the task is pose
/// estimation, and its mask coefficients when the task is segmentation.
#[derive(Debug)]
pub struct Detection {
    pub bbox: Bbox,
    pub keypoints: Option<Vec<Point2>>,
    pub coefs: Option<Vec<i64>>,
}

/// Confidence of a candidate, as a mathematical integer.
pub open spec fn conf_of(d: Detection) -> int {
    d.bbox.confidence as int
}

/// Every candidate's box is well-formed.
pub open spec fn dets_wf(s: Seq<Detection>) -> bool {
    forall|i: int| 0 <= i < s.len() ==> box_wf(#[trigger] s[i].bbox)
}

/// Confidences never increase along the sequence.
pub open spec fn sorted_desc(s: Seq<Detection>) -> bool {
    forall|i: int, j: int| 0 <= i < j < s.len() ==> conf_of(s[i]) >= conf_of(s[j])
}

/// Insert `d` behind every element of equal or higher confidence: the
/// insertion step of a stable descending sort.
pub open spec fn insert_desc(s: Seq<Detection>, d: Detection) -> Seq<Detection>
    decreases s.len(),
{
    if s.len() == 0 {
        seq![d]
    } else if conf_of(s[0]) >= conf_of(d) {
        seq![s[0]] + insert_desc(s.drop_first(), d)
    } else {
        seq![d] + s
    }
}

/// Stable insertion sort by descending confidence; candidates of equal
/// confidence keep their original order.
pub open spec fn sort_desc(s: Seq<Detection>) -> Seq<Detection>
    decreases s.len(),
{
    if s.len() == 0 {
        s
    } else {
        insert_desc(sort_desc(s.drop_last()), s.last())
    }
}

/// `d` overlaps no already-kept candidate beyond the threshold.
pub open spec fn compat_with(kept: Seq<Detection>, d: Detection, thr: int) -> bool {
    forall|k: int|
        0 <= k < kept.len() ==> !spec_iou_exceeds(#[trigger] kept[k].bbox, d.bbox, thr)
}

/// The greedy pass from position `i` on, with `kept` already selected.
pub open spec fn greedy_from(s: Seq<Detection>, i: int, kept: Seq<Detection>, thr: int) -> Seq<
    Detection,
>
    decreases s.len() - i,
{
    if i < 0 || i >= s.len() {
        kept
    } else if compat_with(kept, s[i], thr) {
        greedy_from(s, i + 1, kept.push(s[i]), thr)
    } else {
        greedy_from(s, i + 1, kept, thr)
    }
}

/// The greedy pass over a whole (already sorted) candidate sequence.
pub open spec fn greedy_nms(s: Seq<Detection>, thr: int) -> Seq<Detection> {
    greedy_from(s, 0, Seq::empty(), thr)
}

/// Non-max suppression of an arbitrary candidate sequence: sort stably by
/// descending confidence, then keep each candidate whose IoU with every
/// already-kept candidate stays within the threshold.
pub open spec fn nms_spec(s: Seq<Detection>, thr: int) -> Seq<Detection> {
    greedy_nms(sort_desc(s), thr)
}

/// No two survivors overlap beyond the threshold.
pub open spec fn pairwise_ok(s: Seq<Detection>, thr: int) -> bool {
    forall|i: int, j: int|
        0 <= i < j < s.len() ==> !spec_iou_exceeds(#[trigger] s[i].bbox, #[trigger] s[j].bbox, thr)
}

/// Where `insert_desc` puts the new element: splice position `pos`, the
/// first index whose confidence is strictly below the new element's.
proof fn lemma_insert_desc_at(s: Seq<Detection>, d: Detection, pos: int)
    requires
        0 <= pos <= s.len(),
        forall|j: int| 0 <= j < pos ==> conf_of(#[trigger] s[j]) >= conf_of(d),
        pos < s.len() ==> conf_of(s[pos]) < conf_of(d),
    ensures
        insert_desc(s, d) == s.insert(pos, d),
    decreases pos,
{
    if pos == 0 {
        if s.len() == 0 {
            assert(insert_desc(s, d) =~= s.insert(0, d));
        } else {
            assert(insert_desc(s, d) =~= s.insert(0, d));
        }
    } else {
        lemma_insert_desc_at(s.drop_first(), d, pos - 1);
        assert(insert_desc(s, d) == seq![s[0]] + insert_desc(s.drop_first(), d));
        assert(insert_desc(s, d) =~= s.insert(pos, d));
    }
}

/// A stable sort of an already sorted sequence changes nothing.
pub proof fn lemma_sort_desc_of_sorted(s: Seq<Detection>)
    requires
        sorted_desc(s),
    ensures
        sort_desc(s) == s,
    decreases s.len(),
{
    if s.len() > 0 {
        assert(sorted_desc(s.drop_last()));
        lemma_sort_desc_of_sorted(s.drop_last());
        assert(forall|j: int|
            0 <= j < s.len() - 1 ==> conf_of(#[trigger] s.drop_last()[j]) >= conf_of(s.last()));
        lemma_insert_desc_at(s.drop_last(), s.last(), s.len() - 1);
        assert(s.drop_last().insert(s.len() - 1, s.last()) =~= s);
    }
}

/// The greedy pass yields a descending sequence whenever its input is
/// descending and everything already kept dominates what is still to come.
proof fn lemma_greedy_sorted(s: Seq<Detection>, i: int, kept: Seq<Detection>, thr: int)
    requires
        sorted_desc(s),
        0 <= i <= s.len(),
        sorted_desc(kept),
        forall|k: int, j: int|
            0 <= k < kept.len() && i <= j < s.len() ==> conf_of(#[trigger] kept[k]) >= conf_of(
                #[trigger] s[j],
            ),
    ensures
        sorted_desc(greedy_from(s, i, kept, thr)),
    decreases s.len() - i,
{
    if i < s.len() {
        if compat_with(kept, s[i], thr) {
            let kept2 = kept.push(s[i]);
            assert(sorted_desc(kept2)) by {
                assert(forall|a: int, b: int|
                    0 <= a < b < kept2.len() ==> conf_of(#[trigger] kept2[a]) >= conf_of(
                        #[trigger] kept2[b],
                    ));
            }
            lemma_greedy_sorted(s, i + 1, kept2, thr);
        } else {
            lemma_greedy_sorted(s, i + 1, kept, thr);
        }
    }
}

/// The greedy pass only ever keeps mutually compatible candidates.
proof fn lemma_greedy_pairwise(s: Seq<Detection>, i: int, kept: Seq<Detection>, thr: int)
    requires
        pairwise_ok(kept, thr),
    ensures
        pairwise_ok(greedy_from(s, i, kept, thr), thr),
    decreases s.len() - i,
{
    if 0 <= i < s.len() {
        if compat_with(kept, s[i], thr) {
            let kept2 = kept.push(s[i]);
            assert(pairwise_ok(kept2, thr)) by {
                assert(forall|a: int, b: int|
                    0 <= a < b < kept2.len() ==> !spec_iou_exceeds(
                        #[trigger] kept2[a].bbox,
                        #[trigger] kept2[b].bbox,
                        thr,
                    ));
            }
            lemma_greedy_pairwise(s, i + 1, kept2, thr);
        } else {
            lemma_greedy_pairwise(s, i + 1, kept, thr);
        }
    }
}

/// On a sequence whose members are already mutually compatible, the greedy
/// pass keeps everything.
proof fn lemma_greedy_keeps_all(s: Seq<Detection>, i: int, thr: int)
    requires
        pairwise_ok(s, thr),
        0 <= i <= s.len(),
    ensures
        greedy_from(s, i, s.take(i), thr) == s,
    decreases s.len() - i,
{
    if i == s.len() {
        assert(s.take(i) =~= s);
    } else {
        assert(compat_with(s.take(i), s[i], thr)) by {
            assert(forall|k: int|
                0 <= k < i ==> !spec_iou_exceeds(#[trigger] s.take(i)[k].bbox, s[i].bbox, thr));
        }
        assert(s.take(i).push(s[i]) =~= s.take(i + 1));
        lemma_greedy_keeps_all(s, i + 1, thr);
    }
}

/// Non-max suppression is idempotent: run on its own output it returns
/// that output unchanged.
pub proof fn lemma_nms_idempotent(s: Seq<Detection>, thr: int)
    ensures
        nms_spec(nms_spec(s, thr), thr) == nms_spec(s, thr),
{
    let out = nms_spec(s, thr);
    let srt = sort_desc(s);
    lemma_sort_desc_sorted(s);
    lemma_greedy_sorted(srt, 0, Seq::empty(), thr);
    lemma_greedy_pairwise(srt, 0, Seq::empty(), thr);
    lemma_sort_desc_of_sorted(out);
    assert(out.take(0) =~= Seq::<Detection>::empty());
    lemma_greedy_keeps_all(out, 0, thr);
}

/// `sort_desc` always yields a descending sequence.
pub proof fn lemma_sort_desc_sorted(s: Seq<Detection>)
    ensures
        sorted_desc(sort_desc(s)),
    decreases s.len(),
{
    if s.len() > 0 {
        lemma_sort_desc_sorted(s.drop_last());
        lemma_insert_desc_sorted(sort_desc(s.drop_last()), s.last());
    }
}

/// Inserting into a descending sequence keeps it descending.
proof fn lemma_insert_desc_sorted(s: Seq<Detection>, d: Detection)
    requires
        sorted_desc(s),
    ensures
        sorted_desc(insert_desc(s, d)),
    decreases s.len(),
{
    if s.len() > 0 && conf_of(s[0]) >= conf_of(d) {
        assert(sorted_desc(s.drop_first()));
        lemma_insert_desc_sorted(s.drop_first(), d);
        let r = seq![s[0]] + insert_desc(s.drop_first(), d);
        lemma_insert_desc_members(s.drop_first(), d);
        assert(forall|i: int, j: int|
            0 <= i < j < r.len() ==> conf_of(#[trigger] r[i]) >= conf_of(#[trigger] r[j]));
    }
}

/// Every element of `insert_desc(s, d)` is `d` or an element of `s`.
proof fn lemma_insert_desc_members(s: Seq<Detection>, d: Detection)
    ensures
        insert_desc(s, d).len() == s.len() + 1,
        forall|i: int|
            0 <= i < insert_desc(s, d).len() ==> (#[trigger] insert_desc(s, d)[i] == d
                || exists|j: int| 0 <= j < s.len() && insert_desc(s, d)[i] == #[trigger] s[j]),
    decreases s.len(),
{
    if s.len() == 0 {
    } else if conf_of(s[0]) >= conf_of(d) {
        lemma_insert_desc_members(s.drop_first(), d);
        let r = seq![s[0]] + insert_desc(s.drop_first(), d);
        assert forall|i: int| 0 <= i < r.len() implies (#[trigger] r[i] == d
            || exists|j: int| 0 <= j < s.len() && r[i] == #[trigger] s[j]) by {
            if i == 0 {
                assert(r[0] == s[0]);
            } else {
                let ri = insert_desc(s.drop_first(), d)[i - 1];
                assert(r[i] == ri);
                if ri != d {
                    let j = choose|j: int|
                        0 <= j < s.drop_first().len() && ri == #[trigger] s.drop_first()[j];
                    assert(ri == s[j + 1]);
                }
            }
        }
    }
}

/// The candidate pair law of greedy suppression: of two candidates whose
/// IoU exceeds the threshold, exactly the higher-confidence one survives
/// (the first on a tie); of two whose IoU stays within the threshold, both
/// survive, in confidence order.
pub proof fn lemma_nms_pair(a: Detection, b: Detection, thr: int)
    ensures
        spec_iou_exceeds(a.bbox, b.bbox, thr) ==> nms_spec(seq![a, b], thr) == (
        if conf_of(a) >= conf_of(b) {
            seq![a]
        } else {
            seq![b]
        }),
        !spec_iou_exceeds(a.bbox, b.bbox, thr) ==> nms_spec(seq![a, b], thr) == (
        if conf_of(a) >= conf_of(b) {
            seq![a, b]
        } else {
            seq![b, a]
        }),
{
    let s = seq![a, b];
    assert(s.drop_last() =~= seq![a]);
    assert(seq![a].drop_last() =~= Seq::<Detection>::empty());
    assert(sort_desc(seq![a]) == insert_desc(sort_desc(Seq::<Detection>::empty()), a));
    assert(sort_desc(Seq::<Detection>::empty()).len() == 0);
    assert(insert_desc(sort_desc(Seq::<Detection>::empty()), a) =~= seq![a]);
    let srt = sort_desc(s);
    assert(srt == insert_desc(seq![a], b));
    lemma_iou_symmetric(a.bbox, b.bbox, thr);
    if conf_of(a) >= conf_of(b) {
        assert(seq![a].drop_first() =~= Seq::<Detection>::empty());
        assert(insert_desc(Seq::<Detection>::empty(), b) =~= seq![b]);
        assert(insert_desc(seq![a], b) =~= seq![a, b]);
        lemma_greedy_two(a, b, thr);
    } else {
        assert(insert_desc(seq![a], b) =~= seq![b, a]);
        lemma_greedy_two(b, a, thr);
    }
}

/// A lone candidate always survives suppression.
pub proof fn lemma_nms_single(d: Detection, thr: int)
    ensures
        nms_spec(seq![d], thr) == seq![d],
{
    let s = seq![d];
    let e = Seq::<Detection>::empty();
    assert(s.drop_last() =~= e);
    assert(sort_desc(e).len() == 0);
    assert(insert_desc(sort_desc(e), d) =~= s);
    assert(compat_with(e, d, thr));
    assert(e.push(d) =~= s);
    assert(greedy_from(s, 0, e, thr) == greedy_from(s, 1, s, thr));
}

/// The greedy pass on an explicit two-element sequence.
proof fn lemma_greedy_two(x: Detection, y: Detection, thr: int)
    ensures
        spec_iou_exceeds(x.bbox, y.bbox, thr) ==> greedy_nms(seq![x, y], thr) == seq![x],
        !spec_iou_exceeds(x.bbox, y.bbox, thr) ==> greedy_nms(seq![x, y], thr) == seq![x, y],
{
    let s = seq![x, y];
    let e = Seq::<Detection>::empty();
    assert(compat_with(e, x, thr));
    assert(e.push(x) =~= seq![x]);
    assert(greedy_from(s, 0, e, thr) == greedy_from(s, 1, seq![x], thr));
    if spec_iou_exceeds(x.bbox, y.bbox, thr) {
        assert(seq![x][0] == x);
        assert(!compat_with(seq![x], y, thr));
        assert(greedy_from(s, 1, seq![x], thr) == greedy_from(s, 2, seq![x], thr));
    } else {
        assert(compat_with(seq![x], y, thr)) by {
            assert(forall|k: int|
                0 <= k < 1 ==> !spec_iou_exceeds(#[trigger] seq![x][k].bbox, y.bbox, thr));
        }
        assert(seq![x].push(y) =~= seq![x, y]);
        assert(greedy_from(s, 1, seq![x], thr) == greedy_from(s, 2, seq![x, y], thr));
    }
}

/// Every box in the output of `insert_desc` is well-formed if the inputs are.
proof fn lemma_insert_desc_wf(s: Seq<Detection>, d: Detection)
    requires
        dets_wf(s),
        box_wf(d.bbox),
    ensures
        dets_wf(insert_desc(s, d)),
    decreases s.len(),
{
    lemma_insert_desc_members(s, d);
    assert forall|i: int| 0 <= i < insert_desc(s, d).len() implies box_wf(
        #[trigger] insert_desc(s, d)[i].bbox,
    ) by {
        if insert_desc(s, d)[i] != d {
            let j = choose|j: int|
                0 <= j < s.len() && insert_desc(s, d)[i] == #[trigger] s[j];
        }
    }
}

/// Sorting preserves well-formedness of every box.
pub proof fn lemma_sort_desc_wf(s: Seq<Detection>)
    requires
        dets_wf(s),
    ensures
        dets_wf(sort_desc(s)),
    decreases s.len(),
{
    if s.len() > 0 {
        assert(dets_wf(s.drop_last()));
        lemma_sort_desc_wf(s.drop_last());
        lemma_insert_desc_wf(sort_desc(s.drop_last()), s.last());
    }
}

/// Every element of `out` occurs in `s`.
pub open spec fn all_from(out: Seq<Detection>, s: Seq<Detection>) -> bool {
    forall|i: int|
        0 <= i < out.len() ==> exists|j: int| 0 <= j < s.len() && #[trigger] out[i] == s[j]
}

/// Sorting introduces no new elements.
pub proof fn lemma_sort_desc_members(s: Seq<Detection>)
    ensures
        all_from(sort_desc(s), s),
    decreases s.len(),
{
    if s.len() > 0 {
        lemma_sort_desc_members(s.drop_last());
        lemma_insert_desc_members(sort_desc(s.drop_last()), s.last());
        let srt = sort_desc(s);
        assert forall|i: int| 0 <= i < srt.len() implies exists|j: int|
            0 <= j < s.len() && #[trigger] srt[i] == s[j] by {
            if srt[i] == s.last() {
                assert(srt[i] == s[s.len() - 1]);
            } else {
                let j0 = choose|j0: int|
                    0 <= j0 < sort_desc(s.drop_last()).len() && srt[i] == #[trigger] sort_desc(
                        s.drop_last(),
                    )[j0];
                let j1 = choose|j1: int|
                    0 <= j1 < s.drop_last().len() && sort_desc(s.drop_last())[j0]
                        == #[trigger] s.drop_last()[j1];
                assert(srt[i] == s[j1]);
            }
        }
    }
}

/// The greedy pass introduces no new elements.
proof fn lemma_greedy_members(s: Seq<Detection>, i: int, kept: Seq<Detection>, thr: int)
    requires
        all_from(kept, s),
    ensures
        all_from(greedy_from(s, i, kept, thr), s),
    decreases s.len() - i,
{
    if 0 <= i < s.len() {
        if compat_with(kept, s[i], thr) {
            let kept2 = kept.push(s[i]);
            assert(all_from(kept2, s)) by {
                assert forall|k: int| 0 <= k < kept2.len() implies exists|j: int|
                    0 <= j < s.len() && #[trigger] kept2[k] == s[j] by {
                    if k == kept.len() {
                        assert(kept2[k] == s[i]);
                    } else {
                        assert(kept2[k] == kept[k]);
                        assert(exists|j: int| 0 <= j < s.len() && #[trigger] kept[k] == s[j]);
                    }
                }
            }
            lemma_greedy_members(s, i + 1, kept2, thr);
        } else {
            lemma_greedy_members(s, i + 1, kept, thr);
        }
    } else {
        assert(greedy_from(s, i, kept, thr) == kept);
    }
}

/// Every survivor of non-max suppression is one of the candidates.
pub proof fn lemma_nms_members(s: Seq<Detection>, thr: int)
    ensures
        all_from(nms_spec(s, thr), s),
{
    lemma_sort_desc_members(s);
    lemma_greedy_members(sort_desc(s), 0, Seq::empty(), thr);
    let out = nms_spec(s, thr);
    assert forall|i: int| 0 <= i < out.len() implies exists|j: int|
        0 <= j < s.len() && #[trigger] out[i] == s[j] by {
        let j0 = choose|j0: int|
            0 <= j0 < sort_desc(s).len() && out[i] == #[trigger] sort_desc(s)[j0];
        let j1 = choose|j1: int| 0 <= j1 < s.len() && sort_desc(s)[j0] == #[trigger] s[j1];
        assert(out[i] == s[j1]);
    }
}

/// Non-max suppression in place: sort the candidates stably by descending
/// confidence, then keep each candidate only if its IoU with every
/// already-kept candidate stays within `iou_threshold / IOU_SCALE`.
pub fn non_max_suppression(xs: &mut Vec<Detection>, iou_threshold: i64)
    requires
        dets_wf(old(xs)@),
        0 <= iou_threshold <= IOU_SCALE,
    ensures
        final(xs)@ == nms_spec(old(xs)@, iou_threshold as int),
        dets_wf(final(xs)@),
{
    let ghost s0 = xs@;
    let mut sorted: Vec<Detection> = Vec::new();
    let ghost mut i: int = 0;
    while xs.len() > 0
        invariant
            0 <= i <= s0.len(),
            i + xs@.len() == s0.len(),
            xs@ == s0.skip(i),
            sorted@ == sort_desc(s0.take(i)),
            dets_wf(s0),
        decreases xs@.len(),
    {
        let d = xs.remove(0);
        assert(d == s0[i]);
        let ghost pre = sorted@;
        let mut pos: usize = 0;
        while pos < sorted.len() && sorted[pos].bbox.confidence >= d.bbox.confidence
            invariant
                0 <= pos <= sorted.len(),
                sorted@ == pre,
                forall|j: int| 0 <= j < pos ==> conf_of(#[trigger] pre[j]) >= conf_of(d),
            decreases sorted.len() - pos,
        {
            pos += 1;
        }
        sorted.insert(pos, d);
        proof {
            lemma_insert_desc_at(pre, d, pos as int);
            assert(s0.take(i + 1).drop_last() =~= s0.take(i));
            assert(s0.take(i + 1).last() == s0[i]);
            assert(sorted@ == insert_desc(pre, d));
            assert(sorted@ == sort_desc(s0.take(i + 1)));
            i = i + 1;
            assert(xs@ =~= s0.skip(i));
        }
    }
    proof {
        assert(s0.take(i) =~= s0);
        lemma_sort_desc_wf(s0);
    }
    let ghost sseq = sorted@;
    let mut kept: Vec<Detection> = Vec::new();
    let ghost mut j: int = 0;
    while sorted.len() > 0
        invariant
            0 <= j <= sseq.len(),
            j + sorted@.len() == sseq.len(),
            sorted@ == sseq.skip(j),
            greedy_from(sseq, j, kept@, iou_threshold as int) == greedy_nms(
                sseq,
                iou_threshold as int,
            ),
            dets_wf(sseq),
            dets_wf(kept@),
            0 <= iou_threshold <= IOU_SCALE,
        decreases sorted@.len(),
    {
        let d = sorted.remove(0);
        assert(d == sseq[j]);
        let mut ok = true;
        let mut k: usize = 0;
        while k < kept.len()
            invariant
                0 <= k <= kept@.len(),
                dets_wf(kept@),
                box_wf(d.bbox),
                0 <= iou_threshold <= IOU_SCALE,
                ok == (forall|k2: int|
                    0 <= k2 < k ==> !spec_iou_exceeds(
                        #[trigger] kept@[k2].bbox,
                        d.bbox,
                        iou_threshold as int,
                    )),
            decreases kept@.len() - k,
        {
            if kept[k].bbox.iou_exceeds(&d.bbox, iou_threshold) {
                ok = false;
            }
            k += 1;
        }
        assert(ok == compat_with(kept@, d, iou_threshold as int));
        if ok {
            let ghost prek = kept@;
            kept.push(d);
            assert(kept@ =~= prek.push(d));
        }
        proof {
            j = j + 1;
            assert(sorted@ =~= sseq.skip(j));
        }
    }
    *xs = kept;
    proof {
        assert(xs@ == greedy_from(sseq, j, xs@, iou_threshold as int));
    }
}

} // verus!
