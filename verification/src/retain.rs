//! Dropping frames. Pure list logic: delays move onto the survivors, overlay
//! ranges onto the new indices.

use std::ops::Range;

use vstd::prelude::*;

use crate::document::{total_delay, views, DocView, Document};
use crate::model::{Frame, FrameView, Overlay};
use crate::scope::{marks, picks};

verus! {

/// A delay as a frame can hold it.
pub open spec fn saturated(delay: int) -> u16 {
    if delay > u16::MAX {
        u16::MAX
    } else {
        delay as u16
    }
}

/// The frames that stay. A dropped frame's delay goes onto the last frame
/// kept before it, or, while nothing is kept yet, forward onto the first one
/// that is.
pub open spec fn retained(frames: Seq<FrameView>, keep: Seq<bool>) -> Seq<FrameView>
    decreases frames.len(),
{
    if frames.len() == 0 {
        seq![]
    } else {
        let before = retained(frames.drop_last(), keep.drop_last());
        let frame = frames.last();
        if keep.last() {
            let carried = if before.len() == 0 {
                total_delay(frames.drop_last())
            } else {
                0
            };
            before.push(frame.with_delay(saturated(frame.delay_cs + carried)))
        } else if before.len() > 0 {
            before.drop_last().push(
                before.last().with_delay(saturated(before.last().delay_cs + frame.delay_cs)),
            )
        } else {
            before
        }
    }
}

/// How many flags are set.
pub open spec fn count_kept(keep: Seq<bool>) -> nat
    decreases keep.len(),
{
    if keep.len() == 0 {
        0
    } else {
        count_kept(keep.drop_last()) + if keep.last() {
            1nat
        } else {
            0nat
        }
    }
}

/// The new index of what was at `i`: how many kept frames precede it.
pub open spec fn kept_before(keep: Seq<bool>, i: int) -> nat {
    count_kept(keep.take(if i < keep.len() {
        i
    } else {
        keep.len() as int
    }))
}

/// An overlay moved onto the new indices.
pub open spec fn remapped(o: Overlay, keep: Seq<bool>) -> Overlay {
    o.on(
        Range {
            start: kept_before(keep, o.range.start as int) as usize,
            end: kept_before(keep, o.range.end as int) as usize,
        },
    )
}

/// The overlays on the new indices, less those left with no frame.
pub open spec fn remapped_all(overlays: Seq<Overlay>, keep: Seq<bool>) -> Seq<Overlay>
    decreases overlays.len(),
{
    if overlays.len() == 0 {
        seq![]
    } else {
        let below = remapped_all(overlays.drop_last(), keep);
        let top = remapped(overlays.last(), keep);
        if top.range.start < top.range.end {
            below.push(top)
        } else {
            below
        }
    }
}

/// Every flag is set.
pub open spec fn all_kept(keep: Seq<bool>) -> bool {
    forall|i: int| 0 <= i < keep.len() ==> #[trigger] keep[i]
}

impl DocView {
    /// The document with only the frames flagged in `keep`; as it was if they
    /// all are.
    pub open spec fn retain(self, keep: Seq<bool>) -> DocView {
        if all_kept(keep) {
            self
        } else {
            DocView {
                frames: retained(self.frames, keep),
                overlays: remapped_all(self.overlays, keep),
                next_id: self.next_id,
            }
        }
    }

    /// The document without the frames that satisfy `doomed`.
    pub open spec fn without(self, doomed: spec_fn(int) -> bool) -> DocView {
        self.retain(Seq::new(self.frames.len(), |i: int| !doomed(i)))
    }
}

/// At most every flag is set.
pub proof fn lemma_count_kept(keep: Seq<bool>)
    ensures
        count_kept(keep) <= keep.len(),
        all_kept(keep) <==> count_kept(keep) == keep.len(),
    decreases keep.len(),
{
    if keep.len() > 0 {
        lemma_count_kept(keep.drop_last());
        if all_kept(keep) {
            assert(keep[keep.len() - 1]);
            assert forall|i: int| 0 <= i < keep.drop_last().len() implies keep.drop_last()[i] by {
                assert(keep[i]);
            }
        }
        if all_kept(keep.drop_last()) && keep.last() {
            assert forall|i: int| 0 <= i < keep.len() implies #[trigger] keep[i] by {
                if i < keep.len() - 1 {
                    assert(keep.drop_last()[i]);
                }
            }
        }
    }
}

/// As many frames stay as are flagged.
pub proof fn lemma_retained_len(frames: Seq<FrameView>, keep: Seq<bool>)
    requires
        frames.len() == keep.len(),
    ensures
        retained(frames, keep).len() == count_kept(keep),
    decreases frames.len(),
{
    if frames.len() > 0 {
        lemma_retained_len(frames.drop_last(), keep.drop_last());
    }
}

impl Document {
    /// Keep the frames flagged in `keep`, moving each dropped frame's delay
    /// onto the previous surviving frame so total duration is preserved, and
    /// remapping overlay ranges onto the new indices.
    pub fn retain_frames(&mut self, keep: &Vec<bool>)
        requires
            keep@.len() == old(self).frames@.len(),
        ensures
            final(self)@ == old(self)@.retain(keep@),
    {
        let n: usize = self.frames.len();
        let ghost old_frames = self@.frames;
        let ghost flags = keep@;
        let mut kept: Vec<usize> = Vec::new();
        kept.push(0);
        let mut frames: Vec<Frame> = Vec::new();
        let mut carry: u16 = 0;
        let mut count: usize = 0;
        let mut i: usize = 0;
        assert(flags.take(0) =~= Seq::<bool>::empty());
        assert(old_frames.take(0) =~= Seq::<FrameView>::empty());
        assert(views(frames@) =~= Seq::<FrameView>::empty());
        while i < n
            invariant
                i <= n,
                n == self.frames@.len(),
                n == keep@.len(),
                old_frames == self@.frames,
                flags == keep@,
                kept@.len() == i + 1,
                forall|k: int|
                    0 <= k <= i ==> #[trigger] kept@[k] == count_kept(flags.take(k)),
                count == count_kept(flags.take(i as int)),
                count <= i,
                views(frames@) == retained(old_frames.take(i as int), flags.take(i as int)),
                frames@.len() == 0 ==> carry == saturated(total_delay(old_frames.take(i as int))),
                frames@.len() > 0 ==> carry == 0,
            decreases n - i,
        {
            let ghost before = frames@;
            proof {
                assert(flags.take(i + 1).drop_last() =~= flags.take(i as int));
                assert(old_frames.take(i + 1).drop_last() =~= old_frames.take(i as int));
                assert(old_frames.take(i + 1).last() == self.frames@[i as int]@);
                crate::document::lemma_total_delay_nonnegative(old_frames.take(i as int));
            }
            let delay: u16 = self.frames[i].delay_cs;
            if keep[i] {
                let mut frame = self.frames[i].clone();
                frame.delay_cs = saturating_sum(delay, carry);
                carry = 0;
                frames.push(frame);
                count = count + 1;
                assert(views(frames@) =~= views(before).push(frame@));
            } else if frames.len() > 0 {
                // Predecessor absorbs the delay; without this the result plays fast.
                let last: usize = frames.len() - 1;
                frames[last].delay_cs = saturating_sum(frames[last].delay_cs, delay);
                assert(views(frames@) =~= views(before).drop_last().push(frames@[last as int]@));
            } else {
                // Nothing kept yet, so the delay rolls forward instead.
                carry = saturating_sum(carry, delay);
            }
            kept.push(count);
            i = i + 1;
        }
        assert(flags.take(n as int) =~= flags);
        assert(old_frames.take(n as int) =~= old_frames);
        proof {
            lemma_count_kept(flags);
        }
        if count == n {
            return ;
        }
        self.frames = frames;
        let mut overlays: Vec<Overlay> = Vec::new();
        let mut j: usize = 0;
        while j < self.overlays.len()
            invariant
                j <= self.overlays@.len(),
                n == flags.len(),
                kept@.len() == n + 1,
                forall|k: int|
                    0 <= k <= n ==> #[trigger] kept@[k] == count_kept(flags.take(k)),
                overlays@ == remapped_all(self.overlays@.take(j as int), flags),
            decreases self.overlays@.len() - j,
        {
            assert(self.overlays@.take(j + 1).drop_last() =~= self.overlays@.take(j as int));
            let mut o = self.overlays[j].clone();
            let (start, end) = (o.range.start, o.range.end);
            let first: usize = kept[if start < n { start } else { n }];
            let past: usize = kept[if end < n { end } else { n }];
            o.range = first..past;
            assert(o == remapped(self.overlays@[j as int], flags));
            if first < past {
                overlays.push(o);
            }
            j = j + 1;
        }
        assert(self.overlays@.take(j as int) =~= self.overlays@);
        self.overlays = overlays;
    }

    pub fn delete_frames(&mut self, range: Range<usize>)
        ensures
            final(self)@ == old(self)@.without(|i: int| range.start <= i < range.end),
    {
        let n: usize = self.frames.len();
        let mut keep: Vec<bool> = Vec::new();
        let mut i: usize = 0;
        while i < n
            invariant
                i <= n,
                keep@.len() == i,
                forall|k: int| 0 <= k < i ==> #[trigger] keep@[k] == !(range.start <= k < range.end),
            decreases n - i,
        {
            keep.push(!(range.start <= i && i < range.end));
            i = i + 1;
        }
        assert(keep@ =~= Seq::new(
            old(self)@.frames.len(),
            |i: int| !(|i: int| range.start <= i < range.end)(i),
        ));
        self.retain_frames(&keep);
    }

    /// Delete an arbitrary set of frames. Ctrl+click in the strip picks frames
    /// one at a time, so what comes back need not be a run.
    pub fn delete_frames_at(&mut self, frames: &Vec<usize>)
        ensures
            final(self)@ == old(self)@.without(|i: int| picks(frames@, i)),
    {
        let doomed = marks(frames, self.frames.len());
        let keep = flipped(&doomed);
        assert(keep@ =~= Seq::new(
            old(self)@.frames.len(),
            |i: int| !(|i: int| picks(frames@, i))(i),
        ));
        self.retain_frames(&keep);
    }

    /// Delete every Nth frame, preserving total duration. Frame 0 always stays.
    pub fn drop_every_nth(&mut self, n: usize)
        ensures
            final(self)@ == if n < 2 {
                old(self)@
            } else {
                old(self)@.without(|i: int| (i + 1) % (n as int) == 0)
            },
    {
        if n < 2 {
            return ;
        }
        let count: usize = self.frames.len();
        let mut keep: Vec<bool> = Vec::new();
        let mut i: usize = 0;
        while i < count
            invariant
                i <= count,
                n >= 2,
                keep@.len() == i,
                forall|k: int| 0 <= k < i ==> #[trigger] keep@[k] == !((k + 1) % (n as int) == 0),
            decreases count - i,
        {
            keep.push((i + 1) % n != 0);
            i = i + 1;
        }
        assert(keep@ =~= Seq::new(
            old(self)@.frames.len(),
            |i: int| !(|i: int| (i + 1) % (n as int) == 0)(i),
        ));
        self.retain_frames(&keep);
    }
}

/// Every flag the other way.
fn flipped(flags: &Vec<bool>) -> (r: Vec<bool>)
    ensures
        r@.len() == flags@.len(),
        forall|i: int| 0 <= i < flags@.len() ==> #[trigger] r@[i] == !flags@[i],
{
    let mut r: Vec<bool> = Vec::new();
    let mut i: usize = 0;
    while i < flags.len()
        invariant
            i <= flags@.len(),
            r@.len() == i,
            forall|k: int| 0 <= k < i ==> #[trigger] r@[k] == !flags@[k],
        decreases flags@.len() - i,
    {
        r.push(!flags[i]);
        i = i + 1;
    }
    r
}

fn saturating_sum(a: u16, b: u16) -> (r: u16)
    ensures
        r == saturated(a + b),
{
    if a > u16::MAX - b {
        u16::MAX
    } else {
        a + b
    }
}

} // verus!
