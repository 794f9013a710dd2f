//! What dropping frames leaves alone.

use vstd::prelude::*;

use crate::coverage::{look, shown};
use crate::document::{lemma_total_delay_nonnegative, total_delay, DocView};
use crate::model::{FrameView, Overlay};
use crate::retain::{
    all_kept, count_kept, kept_before, lemma_count_kept, lemma_retained_len, remapped,
    remapped_all, retained,
};

verus! {

/// Whether every survivor has room for the delays it takes over.
pub open spec fn delays_fit(frames: Seq<FrameView>, keep: Seq<bool>) -> bool
    decreases frames.len(),
{
    if frames.len() == 0 {
        true
    } else {
        let before = retained(frames.drop_last(), keep.drop_last());
        let frame = frames.last();
        &&& delays_fit(frames.drop_last(), keep.drop_last())
        &&& if before.len() == 0 {
            keep.last() ==> total_delay(frames) <= u16::MAX
        } else {
            !keep.last() ==> before.last().delay_cs + frame.delay_cs <= u16::MAX
        }
    }
}

/// Dropping frames preserves the total duration, as long as a frame survives
/// and every survivor has room for the delays it takes over.
pub proof fn law_retain_preserves_duration(frames: Seq<FrameView>, keep: Seq<bool>)
    requires
        frames.len() == keep.len(),
        count_kept(keep) > 0,
        delays_fit(frames, keep),
    ensures
        total_delay(retained(frames, keep)) == total_delay(frames),
    decreases frames.len(),
{
    let before = retained(frames.drop_last(), keep.drop_last());
    let after = retained(frames, keep);
    lemma_retained_len(frames.drop_last(), keep.drop_last());
    lemma_total_delay_nonnegative(frames.drop_last());
    if keep.last() {
        assert(after.drop_last() =~= before);
        if before.len() > 0 {
            law_retain_preserves_duration(frames.drop_last(), keep.drop_last());
        } else {
            assert(total_delay(before) == 0);
        }
    } else {
        law_retain_preserves_duration(frames.drop_last(), keep.drop_last());
        assert(after.drop_last() =~= before.drop_last());
    }
}

/// Dropping frames never makes the document longer.
pub proof fn law_retain_never_lengthens(frames: Seq<FrameView>, keep: Seq<bool>)
    requires
        frames.len() == keep.len(),
    ensures
        total_delay(retained(frames, keep)) <= total_delay(frames),
    decreases frames.len(),
{
    if frames.len() > 0 {
        let before = retained(frames.drop_last(), keep.drop_last());
        let after = retained(frames, keep);
        law_retain_never_lengthens(frames.drop_last(), keep.drop_last());
        lemma_total_delay_nonnegative(frames.drop_last());
        if keep.last() {
            assert(after.drop_last() =~= before);
        } else if before.len() > 0 {
            assert(after.drop_last() =~= before.drop_last());
        }
    }
}

/// Counting further never counts fewer, and at most one more a step.
proof fn lemma_count_kept_step(keep: Seq<bool>, i: int)
    requires
        0 <= i < keep.len(),
    ensures
        count_kept(keep.take(i + 1)) == count_kept(keep.take(i)) + if keep[i] {
            1nat
        } else {
            0nat
        },
{
    assert(keep.take(i + 1).drop_last() =~= keep.take(i));
}

proof fn lemma_count_kept_grows(keep: Seq<bool>, i: int, j: int)
    requires
        0 <= i <= j <= keep.len(),
    ensures
        count_kept(keep.take(i)) <= count_kept(keep.take(j)),
    decreases j - i,
{
    if i < j {
        lemma_count_kept_grows(keep, i, j - 1);
        lemma_count_kept_step(keep, j - 1);
    }
}

/// The survivors keep their order and everything but their delay: the frame
/// at `i`, if it stays, stands where its new index says.
pub proof fn law_survivors_keep_their_place(frames: Seq<FrameView>, keep: Seq<bool>, i: int)
    requires
        frames.len() == keep.len(),
        0 <= i < frames.len(),
        keep[i],
    ensures
        kept_before(keep, i) < retained(frames, keep).len(),
        ({
            let kept = retained(frames, keep)[kept_before(keep, i) as int];
            kept == frames[i].with_delay(kept.delay_cs) && kept.delay_cs >= frames[i].delay_cs
        }),
    decreases frames.len(),
{
    let (f, k) = (frames.drop_last(), keep.drop_last());
    lemma_retained_len(f, k);
    lemma_retained_len(frames, keep);
    lemma_total_delay_nonnegative(f);
    if i < frames.len() - 1 {
        assert(k.take(i) =~= keep.take(i));
        law_survivors_keep_their_place(f, k, i);
    } else {
        assert(keep.take(i) =~= k);
    }
}

/// Where an index lands says on which side of a surviving frame it was.
proof fn lemma_kept_before_order(keep: Seq<bool>, i: int, e: int)
    requires
        0 <= i < keep.len(),
        keep[i],
        0 <= e,
    ensures
        e <= i <==> kept_before(keep, e) <= kept_before(keep, i),
{
    let e = if e < keep.len() {
        e
    } else {
        keep.len() as int
    };
    if e <= i {
        lemma_count_kept_grows(keep, e, i);
    } else {
        lemma_count_kept_step(keep, i);
        lemma_count_kept_grows(keep, i + 1, e);
    }
}

/// A surviving frame shows the overlays it showed, in the order it showed
/// them.
pub proof fn law_survivors_keep_their_overlays(overlays: Seq<Overlay>, keep: Seq<bool>, i: int)
    requires
        0 <= i < keep.len() <= usize::MAX,
        keep[i],
    ensures
        shown(remapped_all(overlays, keep), kept_before(keep, i) as int) == shown(overlays, i),
    decreases overlays.len(),
{
    if overlays.len() > 0 {
        let o = overlays.last();
        let r = remapped(o, keep);
        law_survivors_keep_their_overlays(overlays.drop_last(), keep, i);
        lemma_kept_before_order(keep, i, o.range.start as int);
        lemma_kept_before_order(keep, i, o.range.end as int);
        lemma_kept_before_bound(keep, o.range.start as int);
        lemma_kept_before_bound(keep, o.range.end as int);
        assert(o.covers(i) == r.covers(kept_before(keep, i) as int));
        let below = remapped_all(overlays.drop_last(), keep);
        if r.range.start < r.range.end {
            assert(below.push(r).drop_last() =~= below);
            assert(look(r) == look(o));
        }
    }
}

proof fn lemma_kept_before_bound(keep: Seq<bool>, i: int)
    requires
        0 <= i,
    ensures
        kept_before(keep, i) <= count_kept(keep) <= keep.len(),
{
    let e = if i < keep.len() {
        i
    } else {
        keep.len() as int
    };
    lemma_count_kept_grows(keep, e, keep.len() as int);
    assert(keep.take(keep.len() as int) =~= keep);
    lemma_count_kept(keep);
}

/// What is left of the overlays came from the overlays, in their order, and
/// lies on frames that are left.
proof fn lemma_remapped_all(overlays: Seq<Overlay>, keep: Seq<bool>) -> (from: Seq<int>)
    requires
        keep.len() <= usize::MAX,
    ensures
        from.len() == remapped_all(overlays, keep).len(),
        forall|k: int|
            0 <= k < from.len() ==> 0 <= #[trigger] from[k] < overlays.len() && remapped_all(
                overlays,
                keep,
            )[k] == remapped(overlays[from[k]], keep),
        forall|k: int, l: int| 0 <= k < l < from.len() ==> from[k] < from[l],
        forall|k: int|
            0 <= k < from.len() ==> (#[trigger] remapped_all(overlays, keep)[k]).range.start
                < remapped_all(overlays, keep)[k].range.end <= count_kept(keep),
    decreases overlays.len(),
{
    if overlays.len() == 0 {
        seq![]
    } else {
        let below = lemma_remapped_all(overlays.drop_last(), keep);
        let top = remapped(overlays.last(), keep);
        lemma_kept_before_bound(keep, overlays.last().range.end as int);
        if top.range.start < top.range.end {
            below.push(overlays.len() - 1)
        } else {
            below
        }
    }
}

/// Dropping frames keeps a sound document sound: ids stay unique and below
/// the next one, and ranges stay inside the frame list with a frame each.
pub proof fn law_retain_keeps_soundness(doc: DocView, keep: Seq<bool>)
    requires
        doc.frames.len() == keep.len() <= usize::MAX,
        doc.ids_sound(),
        doc.ranges_sound(),
    ensures
        doc.retain(keep).ids_sound(),
        doc.retain(keep).ranges_sound(),
{
    if !all_kept(keep) {
        let from = lemma_remapped_all(doc.overlays, keep);
        lemma_retained_len(doc.frames, keep);
        let after = doc.retain(keep).overlays;
        assert forall|k: int, l: int| 0 <= k < l < after.len() implies (#[trigger] after[k]).id != (
        #[trigger] after[l]).id by {
            assert(from[k] < from[l]);
            assert(doc.overlays[from[k]].id != doc.overlays[from[l]].id);
        }
        assert forall|k: int| 0 <= k < after.len() implies (#[trigger] after[k]).id.0
            < doc.next_id by {
            assert(doc.overlays[from[k]].id.0 < doc.next_id);
        }
    }
}

/// Dropping every Nth frame never drops the first.
pub proof fn law_drop_every_nth_keeps_the_first(doc: DocView, n: int)
    requires
        n >= 2,
        doc.frames.len() > 0,
    ensures
        ({
            let after = doc.without(|i: int| (i + 1) % n == 0);
            after.frames.len() > 0 && after.frames[0] == doc.frames[0].with_delay(
                after.frames[0].delay_cs,
            )
        }),
{
    let keep = Seq::new(doc.frames.len(), |i: int| !((i + 1) % n == 0));
    assert(keep =~= Seq::new(doc.frames.len(), |i: int| !(|i: int| (i + 1) % n == 0)(i)));
    assert(1int % n == 1) by (nonlinear_arith)
        requires
            n >= 2,
    ;
    assert(keep[0]);
    law_survivors_keep_their_place(doc.frames, keep, 0);
    assert(keep.take(0) =~= Seq::<bool>::empty());
}

} // verus!
