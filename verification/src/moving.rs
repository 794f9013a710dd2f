//! Moving a frame to another place, with the overlays that lie on it.

use std::ops::Range;

use vstd::prelude::*;

use crate::arrange::parted;
use crate::document::{views, DocView, Document};
use crate::merge::coalesced;
use crate::model::{Overlay, OverlayId};

verus! {

/// A sequence with the item at `from` taken out and put back in at `to`.
pub open spec fn relocated<A>(s: Seq<A>, from: int, to: int) -> Seq<A> {
    s.remove(from).insert(to, s[from])
}

/// Where the item at `i` stands after `relocated`.
pub open spec fn place_after(i: int, from: int, to: int) -> int {
    if i == from {
        to
    } else {
        let out = if i > from {
            i - 1
        } else {
            i
        };
        if out >= to {
            out + 1
        } else {
            out
        }
    }
}

/// A range after frame `from` was taken out.
pub open spec fn closed_up(range: Range<usize>, from: int) -> Range<usize> {
    Range {
        start: if range.start > from {
            (range.start - 1) as usize
        } else {
            range.start
        },
        end: if range.end > from {
            (range.end - 1) as usize
        } else {
            range.end
        },
    }
}

/// An overlay after frame `from` was taken out and put back in at `to`, as
/// if it were a frame of no overlay's.
pub open spec fn shifted(o: Overlay, from: int, to: int) -> Overlay {
    parted(o.on(closed_up(o.range, from)), to, 1)
}

/// Whether the overlay lies on frame `from` and on no other, so that nothing
/// of it stays behind.
pub open spec fn goes_along(o: Overlay, from: int, to: int) -> bool {
    let s = shifted(o, from, to);
    o.covers(from) && s.range.start >= s.range.end
}

/// Whether the overlay lies on frame `from` and on others too, and what stays
/// of it does not take the frame in again at `to`.
pub open spec fn splits_off(o: Overlay, from: int, to: int) -> bool {
    o.covers(from) && !goes_along(o, from, to) && !shifted(o, from, to).covers(to)
}

/// The one frame at `at`.
pub open spec fn only(at: int) -> Range<usize> {
    Range { start: at as usize, end: (at + 1) as usize }
}

/// The overlay in its place after the move: along with the frame if nothing
/// of it stays behind.
pub open spec fn settled(o: Overlay, from: int, to: int) -> Overlay {
    if goes_along(o, from, to) {
        shifted(o, from, to).on(only(to))
    } else {
        shifted(o, from, to)
    }
}

/// The copies that go along with the frame, one for each overlay that splits
/// off, under ids from `next_id` up.
pub open spec fn copies(overlays: Seq<Overlay>, from: int, to: int, next_id: int) -> Seq<Overlay>
    decreases overlays.len(),
{
    if overlays.len() == 0 {
        seq![]
    } else {
        let below = copies(overlays.drop_last(), from, to, next_id);
        let top = overlays.last();
        if splits_off(top, from, to) {
            below.push(
                Overlay {
                    id: OverlayId((next_id + below.len()) as u32),
                    range: only(to),
                    ..shifted(top, from, to)
                },
            )
        } else {
            below
        }
    }
}

pub proof fn lemma_copies_len(overlays: Seq<Overlay>, from: int, to: int, next_id: int)
    ensures
        copies(overlays, from, to, next_id).len() <= overlays.len(),
    decreases overlays.len(),
{
    if overlays.len() > 0 {
        lemma_copies_len(overlays.drop_last(), from, to, next_id);
    }
}

impl DocView {
    /// Whether a frame can go from `from` to `to` and would not just stay.
    pub open spec fn can_move(self, from: int, to: int) -> bool {
        0 <= from < self.frames.len() && 0 <= to < self.frames.len() && from != to
    }

    /// The overlays after the move, before touching pieces fold together.
    pub open spec fn carried_overlays(self, from: int, to: int) -> Seq<Overlay> {
        self.overlays.map_values(|o: Overlay| settled(o, from, to)) + copies(
            self.overlays,
            from,
            to,
            self.next_id as int,
        )
    }

    /// The document with the frame at `from` moved to `to`.
    pub open spec fn frame_moved(self, from: int, to: int) -> DocView {
        if self.can_move(from, to) {
            DocView {
                frames: relocated(self.frames, from, to),
                overlays: coalesced(self.carried_overlays(from, to), 0),
                next_id: (self.next_id + copies(
                    self.overlays,
                    from,
                    to,
                    self.next_id as int,
                ).len()) as u32,
            }
        } else {
            self
        }
    }
}

impl Document {
    /// Reorder: pull the frame at `from` out and reinsert it at `to`. Whatever
    /// overlay(s) covered that frame come along with it: if the whole overlay
    /// moved (nothing was left behind), it just relocates; if only part of a
    /// wider overlay covered `from`, that part splits off into a fresh
    /// overlay parked at the new slot while the rest stays put and closes
    /// the gap, the same way `delete_frames_at` already shifts survivors —
    /// unless the new slot lies inside that rest, which then covers the frame
    /// as it is. `coalesce_overlays` re-merges adjacent identical pieces afterwards, so
    /// a whole selection sharing one overlay comes back out as the one
    /// overlay it started as once a multi-frame drag finishes.
    pub fn move_frame(&mut self, from: usize, to: usize)
        requires
            old(self)@.ids_sound(),
            old(self)@.ranges_fit(1),
            old(self)@.next_id + old(self)@.overlays.len() <= u32::MAX,
        ensures
            final(self)@ == old(self)@.frame_moved(from as int, to as int),
    {
        let n: usize = self.frames.len();
        if from >= n || to >= n || from == to {
            return ;
        }
        let frame = self.frames.remove(from);
        self.frames.insert(to, frame);
        assert(views(self.frames@) =~= relocated(old(self)@.frames, from as int, to as int));
        let count: usize = self.overlays.len();
        let ghost before = old(self)@.overlays;
        let ghost first_id = old(self).next_id as int;
        let mut along: Vec<Overlay> = Vec::new();
        let mut i: usize = 0;
        assert(before.take(0) =~= Seq::<Overlay>::empty());
        while i < count
            invariant
                i <= count,
                to < n,
                count == self.overlays@.len(),
                count == before.len(),
                before == old(self)@.overlays,
                first_id == old(self).next_id,
                old(self)@.ranges_fit(1),
                old(self).next_id + count <= u32::MAX,
                self.frames@ == relocated(old(self).frames@, from as int, to as int),
                along@ == copies(before.take(i as int), from as int, to as int, first_id),
                along@.len() <= i,
                self.next_id == first_id + along@.len(),
                forall|k: int|
                    0 <= k < i ==> #[trigger] self.overlays@[k] == settled(
                        before[k],
                        from as int,
                        to as int,
                    ),
                forall|k: int| i <= k < count ==> #[trigger] self.overlays@[k] == before[k],
            decreases count - i,
        {
            assert(before.take(i + 1).drop_last() =~= before.take(i as int));
            assert(self.overlays@[i as int] == before[i as int]);
            let (start, end) = (self.overlays[i].range.start, self.overlays[i].range.end);
            let carried = start <= from && from < end;
            let start: usize = if start > from {
                start - 1
            } else {
                start
            };
            let end: usize = if end > from {
                end - 1
            } else {
                end
            };
            // Reinsertion here moves an *existing* frame back in, not a fresh
            // duplicate, so — unlike `insert_frame_at` — a range that merely
            // touches `to` must not grow to swallow it; only the carried
            // overlays below get to cover the reinserted frame's new slot.
            let start: usize = if start >= to {
                start + 1
            } else {
                start
            };
            let end: usize = if end > to {
                end + 1
            } else {
                end
            };
            self.overlays[i].range = start..end;
            if carried {
                if start >= end {
                    // Nothing of it was left behind: the whole overlay relocates.
                    self.overlays[i].range = to..to + 1;
                } else if !(start <= to && to < end) {
                    let mut copy = self.overlays[i].clone();
                    copy.id = OverlayId(self.next_id);
                    copy.range = to..to + 1;
                    self.next_id = self.next_id + 1;
                    along.push(copy);
                }
            }
            i = i + 1;
        }
        assert(before.take(count as int) =~= before);
        self.overlays.append(&mut along);
        assert(self.overlays@ =~= old(self)@.carried_overlays(from as int, to as int));
        self.coalesce_overlays();
    }
}

} // verus!
