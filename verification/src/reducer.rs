//! Greedy pairwise rectangle merging.
//!
//! One pass walks the list once: each rectangle that has not been absorbed
//! yet scans forward for the first still-free rectangle it can merge with,
//! absorbs it, and moves on; absorbed rectangles are dropped at the end of
//! the pass. A fixed number of passes bounds the effort: the result is a
//! sound covering, not necessarily a minimal one. `merge_pass` is the
//! exact model of one pass, so the reduction is a function of its input.

use vstd::prelude::*;
use crate::geometry::Rect;

verus! {

/// Bound on the 3x-upscaled coordinates of collision rectangles.
pub const MAX_SCALED: i32 = 30000;

/// A collision rectangle: consistent fields, inside the upscaled grid.
pub open spec fn shape_wf(r: Rect) -> bool {
    &&& r.wf()
    &&& 0 <= r.x && r.x2 <= MAX_SCALED
    &&& 0 <= r.y && r.y2 <= MAX_SCALED
}

/// The rectangle with its absorbed flag set.
pub open spec fn mark_merged(r: Rect) -> Rect {
    Rect { merged: true, ..r }
}

/// Scan forward from `j` for the first still-free rectangle that `rects[i]`
/// can absorb; absorb it, or return the list unchanged if there is none.
pub open spec fn scan_merge(rects: Seq<Rect>, i: int, j: nat) -> Seq<Rect>
    decreases rects.len() - j,
{
    if j >= rects.len() {
        rects
    } else if rects[j as int].merged {
        scan_merge(rects, i, (j + 1) as nat)
    } else if rects[i].spec_can_merge(rects[j as int]) {
        rects.update(j as int, mark_merged(rects[j as int])).update(
            i,
            rects[i].spec_merge(rects[j as int]),
        )
    } else {
        scan_merge(rects, i, (j + 1) as nat)
    }
}

/// One step of a pass: rectangle `i` absorbs its first partner, if it is
/// still free and a partner exists.
pub open spec fn pass_step(rects: Seq<Rect>, i: int) -> Seq<Rect> {
    if 0 <= i < rects.len() && !rects[i].merged {
        scan_merge(rects, i, (i + 1) as nat)
    } else {
        rects
    }
}

/// The list after the first `i` steps of a pass.
pub open spec fn pass_upto(orig: Seq<Rect>, i: nat) -> Seq<Rect>
    decreases i,
{
    if i == 0 {
        orig
    } else {
        pass_step(pass_upto(orig, (i - 1) as nat), i - 1)
    }
}

/// One full merge pass: every index takes its step, then the absorbed
/// rectangles are dropped.
pub open spec fn merge_pass(rects: Seq<Rect>) -> Seq<Rect> {
    pass_upto(rects, rects.len()).filter(|r: Rect| !r.merged)
}

/// The reduction: a fixed number of merge passes.
pub open spec fn reduce_model(rects: Seq<Rect>, passes: nat) -> Seq<Rect>
    decreases passes,
{
    if passes == 0 {
        rects
    } else {
        merge_pass(reduce_model(rects, (passes - 1) as nat))
    }
}

proof fn lemma_scan_merge_len(rects: Seq<Rect>, i: int, j: nat)
    requires
        0 <= i < rects.len(),
    ensures
        scan_merge(rects, i, j).len() == rects.len(),
    decreases rects.len() - j,
{
    if j < rects.len() && !(!rects[j as int].merged && rects[i].spec_can_merge(rects[j as int])) {
        lemma_scan_merge_len(rects, i, (j + 1) as nat);
    }
}

proof fn lemma_pass_upto_len(orig: Seq<Rect>, i: nat)
    ensures
        pass_upto(orig, i).len() == orig.len(),
    decreases i,
{
    if i > 0 {
        lemma_pass_upto_len(orig, (i - 1) as nat);
        let prev = pass_upto(orig, (i - 1) as nat);
        if 0 <= i - 1 < prev.len() && !prev[i - 1].merged {
            lemma_scan_merge_len(prev, i - 1, i);
        }
    }
}

/// A merge pass never increases the number of rectangles.
pub proof fn lemma_merge_pass_len(rects: Seq<Rect>)
    ensures
        merge_pass(rects).len() <= rects.len(),
{
    lemma_pass_upto_len(rects, rects.len());
    pass_upto(rects, rects.len()).lemma_filter_len(|r: Rect| !r.merged);
}

/// The reducer never increases the number of rectangles.
pub proof fn lemma_reduce_len(rects: Seq<Rect>, passes: nat)
    ensures
        reduce_model(rects, passes).len() <= rects.len(),
    decreases passes,
{
    if passes > 0 {
        lemma_reduce_len(rects, (passes - 1) as nat);
        lemma_merge_pass_len(reduce_model(rects, (passes - 1) as nat));
    }
}

/// When no free partner exists at or after `j`, the scan changes nothing.
proof fn lemma_scan_merge_none(rects: Seq<Rect>, i: int, j: nat)
    requires
        0 <= i < rects.len(),
        forall|k: int|
            j <= k < rects.len() ==> ((#[trigger] rects[k]).merged || !rects[i].spec_can_merge(
                rects[k],
            )),
    ensures
        scan_merge(rects, i, j) == rects,
    decreases rects.len() - j,
{
    if j < rects.len() {
        lemma_scan_merge_none(rects, i, (j + 1) as nat);
    }
}

/// When `jm` is the first free partner at or after `j`, the scan absorbs
/// exactly it.
proof fn lemma_scan_merge_first(rects: Seq<Rect>, i: int, j: nat, jm: int)
    requires
        0 <= i < rects.len(),
        i < j <= jm < rects.len(),
        forall|k: int|
            j <= k < jm ==> ((#[trigger] rects[k]).merged || !rects[i].spec_can_merge(rects[k])),
        !rects[jm].merged,
        rects[i].spec_can_merge(rects[jm]),
    ensures
        scan_merge(rects, i, j) == rects.update(jm, mark_merged(rects[jm])).update(
            i,
            rects[i].spec_merge(rects[jm]),
        ),
    decreases jm - j,
{
    if j < jm {
        lemma_scan_merge_first(rects, i, (j + 1) as nat, jm);
    }
}

/// The union of two merge-compatible collision rectangles is again a
/// collision rectangle: inside the upscaled grid, with consistent fields.
pub proof fn lemma_merge_shape_wf(a: Rect, b: Rect)
    requires
        shape_wf(a),
        shape_wf(b),
        a.spec_can_merge(b),
    ensures
        shape_wf(a.spec_merge(b)),
{
}

proof fn lemma_scan_merge_grows(rects: Seq<Rect>, i: int, j: nat)
    requires
        0 <= i < rects.len(),
        forall|k: int| 0 <= k < rects.len() ==> shape_wf(#[trigger] rects[k]),
    ensures
        scan_merge(rects, i, j).len() == rects.len(),
        forall|k: int| 0 <= k < rects.len() ==> shape_wf(#[trigger] scan_merge(rects, i, j)[k]),
        forall|k: int|
            0 <= k < rects.len() ==> (#[trigger] scan_merge(rects, i, j)[k]).spec_area()
                >= rects[k].spec_area(),
    decreases rects.len() - j,
{
    lemma_scan_merge_len(rects, i, j);
    if j >= rects.len() {
    } else if !rects[j as int].merged && rects[i].spec_can_merge(rects[j as int]) {
        crate::geometry::lemma_merge_area(rects[i], rects[j as int]);
        lemma_merge_shape_wf(rects[i], rects[j as int]);
    } else {
        lemma_scan_merge_grows(rects, i, (j + 1) as nat);
    }
}

/// Across the steps of a pass, the rectangle at each position only grows:
/// a rectangle is only ever replaced by its union with another, so the
/// reducer never produces a rectangle smaller than the one it replaces.
pub proof fn lemma_pass_never_shrinks(orig: Seq<Rect>, i: nat)
    requires
        i <= orig.len(),
        forall|k: int| 0 <= k < orig.len() ==> shape_wf(#[trigger] orig[k]),
    ensures
        pass_upto(orig, i).len() == orig.len(),
        forall|k: int| 0 <= k < orig.len() ==> shape_wf(#[trigger] pass_upto(orig, i)[k]),
        forall|k: int|
            0 <= k < orig.len() ==> (#[trigger] pass_upto(orig, i)[k]).spec_area()
                >= orig[k].spec_area(),
    decreases i,
{
    if i > 0 {
        lemma_pass_never_shrinks(orig, (i - 1) as nat);
        let prev = pass_upto(orig, (i - 1) as nat);
        if 0 <= i - 1 < prev.len() && !prev[i - 1].merged {
            lemma_scan_merge_grows(prev, i - 1, i);
        }
    }
}

/// One greedy merge pass over the list: each still-free rectangle absorbs
/// the first still-free rectangle it can merge with, and the absorbed
/// rectangles are dropped at the end.
pub fn merge_rects(rects: &mut Vec<Rect>)
    requires
        forall|k: int| 0 <= k < old(rects)@.len() ==> shape_wf(#[trigger] old(rects)@[k]),
    ensures
        final(rects)@ == merge_pass(old(rects)@),
        final(rects)@.len() <= old(rects)@.len(),
        forall|k: int| 0 <= k < final(rects)@.len() ==> shape_wf(#[trigger] final(rects)@[k]),
{
    let ghost orig = rects@;
    let n = rects.len();
    let mut i: usize = 0;
    while i < n
        invariant
            0 <= i <= n,
            n == orig.len(),
            rects@.len() == n,
            rects@ == pass_upto(orig, i as nat),
            forall|k: int| 0 <= k < rects@.len() ==> shape_wf(#[trigger] rects@[k]),
        decreases n - i,
    {
        let ghost cur = rects@;
        if !rects[i].merged {
            let mut j: usize = i + 1;
            let mut done = false;
            while j < n
                invariant
                    0 <= i < n,
                    i + 1 <= j <= n,
                    n == cur.len(),
                    rects@.len() == n,
                    !cur[i as int].merged,
                    forall|k: int| 0 <= k < cur.len() ==> shape_wf(#[trigger] cur[k]),
                    forall|k: int| 0 <= k < rects@.len() ==> shape_wf(#[trigger] rects@[k]),
                    !done ==> rects@ == cur,
                    !done ==> forall|k: int|
                        i < k < j ==> ((#[trigger] cur[k]).merged || !cur[i as int].spec_can_merge(
                            cur[k],
                        )),
                    done ==> rects@ == scan_merge(cur, i as int, (i + 1) as nat),
                decreases n - j,
            {
                if !done && !rects[j].merged {
                    let ri = rects[i];
                    let rj = rects[j];
                    if ri.can_merge(&rj) {
                        rects[j].merged = true;
                        let mut merged_rect = ri;
                        merged_rect.merge(&rj);
                        rects[i] = merged_rect;
                        done = true;
                        proof {
                            lemma_scan_merge_first(cur, i as int, (i + 1) as nat, j as int);
                            assert(rects@ =~= cur.update(j as int, mark_merged(cur[j as int])).update(
                                i as int,
                                cur[i as int].spec_merge(cur[j as int]),
                            ));
                        }
                    }
                }
                j = j + 1;
            }
            proof {
                if !done {
                    lemma_scan_merge_none(cur, i as int, (i + 1) as nat);
                }
                assert(rects@ == pass_step(cur, i as int));
            }
        } else {
            proof {
                assert(rects@ == pass_step(cur, i as int));
            }
        }
        i = i + 1;
    }
    // drop the absorbed rectangles
    let ghost scanned = rects@;
    let mut kept: Vec<Rect> = Vec::new();
    let mut k: usize = 0;
    while k < n
        invariant
            0 <= k <= n,
            n == scanned.len(),
            rects@ == scanned,
            kept@ == scanned.take(k as int).filter(|r: Rect| !r.merged),
            forall|m: int| 0 <= m < scanned.len() ==> shape_wf(#[trigger] scanned[m]),
            forall|m: int| 0 <= m < kept@.len() ==> shape_wf(#[trigger] kept@[m]),
        decreases n - k,
    {
        proof {
            assert(scanned.take(k as int + 1).drop_last() =~= scanned.take(k as int));
            assert(scanned.take(k as int + 1).last() == scanned[k as int]);
            reveal(Seq::filter);
        }
        let r = rects[k];
        if !r.merged {
            kept.push(r);
        }
        k = k + 1;
    }
    proof {
        assert(scanned.take(n as int) =~= scanned);
        assert(kept@ == merge_pass(orig));
        lemma_merge_pass_len(orig);
    }
    *rects = kept;
}

} // verus!
