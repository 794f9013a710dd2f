//! Putting frames in and moving them about, and the overlays with them.

use std::ops::Range;

use vstd::prelude::*;

use crate::document::{find_id, lemma_find_id, views, DocView, Document};
use crate::model::{Frame, FrameView, Overlay, OverlayId};
use crate::scope::{marks, picks};

verus! {

/// An overlay whose ends move up by `added` where they are at or past `at`.
pub open spec fn pushed(o: Overlay, at: int, added: int) -> Overlay {
    o.on(
        Range {
            start: (if o.range.start >= at {
                o.range.start + added
            } else {
                o.range.start as int
            }) as usize,
            end: (if o.range.end >= at {
                o.range.end + added
            } else {
                o.range.end as int
            }) as usize,
        },
    )
}

/// An overlay round a run of `added` frames that is not its own, put in at
/// `at`: one that starts there moves past the run, one that ends there stays.
pub open spec fn parted(o: Overlay, at: int, added: int) -> Overlay {
    o.on(
        Range {
            start: (if o.range.start >= at {
                o.range.start + added
            } else {
                o.range.start as int
            }) as usize,
            end: (if o.range.end > at {
                o.range.end + added
            } else {
                o.range.end as int
            }) as usize,
        },
    )
}

/// An index into `len` places, or the end of them.
pub open spec fn clamped(at: int, len: nat) -> int {
    if at < len {
        at
    } else {
        len as int
    }
}

/// A sequence with `run` put in at `at`.
pub open spec fn spliced<A>(s: Seq<A>, at: int, run: Seq<A>) -> Seq<A> {
    s.take(at) + run + s.skip(at)
}

impl DocView {
    /// No overlay's end overflows when it moves up by `added`.
    pub open spec fn ranges_fit(self, added: int) -> bool {
        forall|i: int|
            0 <= i < self.overlays.len() ==> (#[trigger] self.overlays[i]).range.start + added
                <= usize::MAX && self.overlays[i].range.end + added <= usize::MAX
    }

    /// The document with a run of its own kind of frames put in at `at`: the
    /// overlays around it grow over it.
    pub open spec fn with_run(self, at: int, run: Seq<FrameView>) -> DocView {
        let at = clamped(at, self.frames.len());
        DocView {
            frames: spliced(self.frames, at, run),
            overlays: self.overlays.map_values(|o: Overlay| pushed(o, at, run.len() as int)),
            next_id: self.next_id,
        }
    }

    /// The document with a run of foreign frames put in at `at`: only an
    /// overlay the run lands inside of spans it.
    pub open spec fn with_foreign_run(self, at: int, run: Seq<FrameView>) -> DocView {
        let at = clamped(at, self.frames.len());
        if run.len() == 0 {
            self
        } else {
            DocView {
                frames: spliced(self.frames, at, run),
                overlays: self.overlays.map_values(|o: Overlay| parted(o, at, run.len() as int)),
                next_id: self.next_id,
            }
        }
    }

    /// The document with overlay `id` directly above or below `other`.
    pub open spec fn restacked(self, id: OverlayId, other: OverlayId, above: bool) -> DocView {
        let from = find_id(self.overlays, id, 0);
        let rest = self.overlays.remove(from);
        let target = find_id(rest, other, 0);
        if id == other || from == self.overlays.len() || target == rest.len() {
            self
        } else {
            DocView {
                overlays: rest.insert(
                    if above {
                        target + 1
                    } else {
                        target
                    },
                    self.overlays[from],
                ),
                ..self
            }
        }
    }
}

/// The items of `run` put into `list` at `at`.
fn splice_in<T>(list: &mut Vec<T>, at: usize, run: Vec<T>)
    requires
        at <= old(list)@.len(),
    ensures
        final(list)@ == spliced(old(list)@, at as int, run@),
{
    let ghost items = run@;
    let mut run = run;
    let mut tail = list.split_off(at);
    list.append(&mut run);
    list.append(&mut tail);
    assert(list@ =~= spliced(old(list)@, at as int, items));
}

/// A delay as a frame can hold it: at least a hundredth of a second, and no
/// more than sixteen bits of them.
pub open spec fn storable_delay(cs: u32) -> u16 {
    if cs < 1 {
        1
    } else if cs > u16::MAX {
        u16::MAX
    } else {
        cs as u16
    }
}

impl Document {
    /// Splice `frame` into the timeline at `at`, shifting every overlay range
    /// at or after it forward by one — the same bookkeeping a duplicate does
    /// for the copy it inserts.
    pub fn insert_frame_at(&mut self, at: usize, frame: Frame)
        requires
            old(self)@.ranges_fit(1),
        ensures
            final(self)@ == old(self)@.with_run(at as int, seq![frame@]),
    {
        let mut run: Vec<Frame> = Vec::new();
        run.push(frame);
        assert(views(run@) =~= seq![frame@]);
        self.insert_frames_at(at, run);
    }

    /// Freeze-frame: the copy lands directly after the source and inherits the
    /// overlays that cover it.
    pub fn duplicate_frame(&mut self, index: usize)
        requires
            old(self)@.ranges_fit(1),
        ensures
            final(self)@ == if index < old(self)@.frames.len() {
                old(self)@.with_run(index + 1, seq![old(self)@.frames[index as int]])
            } else {
                old(self)@
            },
    {
        if index < self.frames.len() {
            let frame = self.frames[index].clone();
            self.insert_frame_at(index + 1, frame);
        }
    }

    /// Splice a run of frames in at `at`, keeping their order. Paste: the
    /// clipboard's frames land together, and — like `duplicate_frame` — they
    /// inherit the overlays that cover the slot they go into.
    pub fn insert_frames_at(&mut self, at: usize, frames: Vec<Frame>)
        requires
            old(self)@.ranges_fit(frames@.len() as int),
        ensures
            final(self)@ == old(self)@.with_run(at as int, views(frames@)),
    {
        let at: usize = if at < self.frames.len() {
            at
        } else {
            self.frames.len()
        };
        let added: usize = frames.len();
        splice_in(&mut self.frames, at, frames);
        assert(views(self.frames@) =~= spliced(old(self)@.frames, at as int, views(frames@)));
        let ghost before = self.overlays@;
        let mut i: usize = 0;
        while i < self.overlays.len()
            invariant
                i <= self.overlays@.len(),
                self.overlays@.len() == before.len(),
                old(self)@.ranges_fit(added as int),
                before == old(self)@.overlays,
                self.frames@ == spliced(old(self).frames@, at as int, frames@),
                self.next_id == old(self).next_id,
                forall|k: int|
                    0 <= k < i ==> #[trigger] self.overlays@[k] == pushed(
                        before[k],
                        at as int,
                        added as int,
                    ),
                forall|k: int| i <= k < before.len() ==> #[trigger] self.overlays@[k] == before[k],
            decreases self.overlays@.len() - i,
        {
            let (start, end) = (self.overlays[i].range.start, self.overlays[i].range.end);
            assert(before[i as int] == self.overlays@[i as int]);
            let start: usize = if start >= at {
                start + added
            } else {
                start
            };
            let end: usize = if end >= at {
                end + added
            } else {
                end
            };
            self.overlays[i].range = start..end;
            i = i + 1;
        }
        assert(self.overlays@ =~= before.map_values(
            |o: Overlay| pushed(o, at as int, views(frames@).len() as int),
        ));
    }

    /// Splice frames from another file in at `at` without letting the
    /// overlays around the seam grow over them: an imported clip arrives with
    /// no captions on it, and inheriting the one that happened to end where it
    /// landed would paint somebody else's text on it. `insert_frames_at` is
    /// the other rule, for a duplicate or a paste of the document's own
    /// frames. An overlay the run lands *inside* still spans it, the same way
    /// `move_frame` leaves a frame dropped into the middle of a band covered.
    pub fn insert_foreign_frames_at(&mut self, at: usize, frames: Vec<Frame>)
        requires
            old(self)@.ranges_fit(frames@.len() as int),
        ensures
            final(self)@ == old(self)@.with_foreign_run(at as int, views(frames@)),
    {
        let at: usize = if at < self.frames.len() {
            at
        } else {
            self.frames.len()
        };
        let added: usize = frames.len();
        if added == 0 {
            return ;
        }
        splice_in(&mut self.frames, at, frames);
        assert(views(self.frames@) =~= spliced(old(self)@.frames, at as int, views(frames@)));
        let ghost before = self.overlays@;
        let mut i: usize = 0;
        while i < self.overlays.len()
            invariant
                i <= self.overlays@.len(),
                self.overlays@.len() == before.len(),
                old(self)@.ranges_fit(added as int),
                before == old(self)@.overlays,
                self.frames@ == spliced(old(self).frames@, at as int, frames@),
                self.next_id == old(self).next_id,
                forall|k: int|
                    0 <= k < i ==> #[trigger] self.overlays@[k] == parted(
                        before[k],
                        at as int,
                        added as int,
                    ),
                forall|k: int| i <= k < before.len() ==> #[trigger] self.overlays@[k] == before[k],
            decreases self.overlays@.len() - i,
        {
            let (start, end) = (self.overlays[i].range.start, self.overlays[i].range.end);
            assert(before[i as int] == self.overlays@[i as int]);
            let start: usize = if start >= at {
                start + added
            } else {
                start
            };
            let end: usize = if end > at {
                end + added
            } else {
                end
            };
            self.overlays[i].range = start..end;
            i = i + 1;
        }
        assert(self.overlays@ =~= before.map_values(
            |o: Overlay| parted(o, at as int, views(frames@).len() as int),
        ));
    }

    /// Move `id` directly above or below `other` in the z-order, leaving
    /// every other overlay's relative order alone. Restacking is a step next
    /// to a *named* neighbour rather than a swap with the adjacent list
    /// entry, because the layer list shows only the overlays on the frame on
    /// screen: the entry beside `id` in `self.overlays` may not be one of
    /// them, and swapping with it would move nothing the user can see.
    pub fn restack_overlay(&mut self, id: OverlayId, other: OverlayId, above: bool)
        ensures
            final(self)@ == old(self)@.restacked(id, other, above),
            final(self).frames@ == old(self).frames@,
    {
        if id == other {
            return ;
        }
        proof {
            lemma_find_id(self@.overlays, id, 0);
        }
        let from = match self.position(id) {
            Some(i) => i,
            None => {
                return ;
            },
        };
        let overlay = self.overlays.remove(from);
        proof {
            lemma_find_id(self@.overlays, other, 0);
        }
        let target = match self.position(other) {
            Some(i) => i,
            None => {
                self.overlays.insert(from, overlay);
                assert(self.overlays@ =~= old(self).overlays@);
                return ;
            },
        };
        assert(target < self.overlays.len());
        let at: usize = if above {
            target + 1
        } else {
            target
        };
        self.overlays.insert(at, overlay);
    }

    /// Play the frames of `range` backwards. A range past the end changes
    /// nothing.
    pub fn reverse_frames(&mut self, range: Range<usize>)
        requires
            range.end <= old(self)@.frames.len() ==> range.start <= range.end,
        ensures
            final(self)@ == if range.end <= old(self)@.frames.len() {
                DocView { frames: reversed(old(self)@.frames, range), ..old(self)@ }
            } else {
                old(self)@
            },
    {
        if range.end > self.frames.len() {
            return ;
        }
        let mut tail = self.frames.split_off(range.end);
        let mut middle = self.frames.split_off(range.start);
        let ghost run = middle@;
        while middle.len() > 0
            invariant
                range.start <= range.end <= old(self).frames@.len(),
                run == old(self).frames@.subrange(range.start as int, range.end as int),
                middle@ == run.take(middle@.len() as int),
                middle@.len() <= run.len(),
                self.frames@.len() == range.start + (run.len() - middle@.len()),
                self.overlays@ == old(self).overlays@,
                self.next_id == old(self).next_id,
                forall|k: int|
                    0 <= k < range.start ==> #[trigger] self.frames@[k] == old(self).frames@[k],
                forall|k: int|
                    range.start <= k < self.frames@.len() ==> #[trigger] self.frames@[k]
                        == run[run.len() - 1 - (k - range.start)],
            decreases middle@.len(),
        {
            let last = middle.pop();
            match last {
                Some(frame) => self.frames.push(frame),
                None => {},
            }
        }
        self.frames.append(&mut tail);
        assert(views(self.frames@) =~= reversed(old(self)@.frames, range));
    }

    /// Set the delay of the frames of `range`; a range that is not one of the
    /// frame list changes nothing.
    pub fn set_delay(&mut self, range: Range<usize>, delay_cs: u16)
        ensures
            final(self)@ == if range.start <= range.end <= old(self)@.frames.len() {
                old(self)@.delayed(|i: int| range.start <= i < range.end, delay_cs)
            } else {
                old(self)@
            },
    {
        if range.start > range.end || range.end > self.frames.len() {
            return ;
        }
        let mut i: usize = range.start;
        while i < range.end
            invariant
                range.start <= i <= range.end <= self.frames@.len(),
                self.frames@.len() == old(self).frames@.len(),
                self.overlays@ == old(self).overlays@,
                self.next_id == old(self).next_id,
                forall|k: int|
                    0 <= k < self.frames@.len() ==> (#[trigger] self.frames@[k])@ == if range.start
                        <= k < i {
                        old(self).frames@[k]@.with_delay(delay_cs)
                    } else {
                        old(self).frames@[k]@
                    },
            decreases range.end - i,
        {
            self.frames[i].delay_cs = delay_cs;
            i = i + 1;
        }
        assert(self@.frames =~= old(self)@.delayed(
            |i: int| range.start <= i < range.end,
            delay_cs,
        ).frames);
    }

    /// Rescale every delay, the export dialog's speed setting. `scaled` is what
    /// each comes to, rounded; it is brought to where a delay can be.
    pub fn scale_delays(&mut self, scaled: &Vec<u32>)
        requires
            scaled@.len() == old(self)@.frames.len(),
        ensures
            final(self)@ == (DocView {
                frames: Seq::new(
                    old(self)@.frames.len(),
                    |i: int| old(self)@.frames[i].with_delay(storable_delay(scaled@[i])),
                ),
                ..old(self)@
            }),
    {
        let ghost before = self@.frames;
        let mut i: usize = 0;
        while i < self.frames.len()
            invariant
                i <= self.frames@.len() == before.len(),
                scaled@.len() == before.len(),
                self.overlays@ == old(self).overlays@,
                self.next_id == old(self).next_id,
                forall|k: int|
                    0 <= k < i ==> (#[trigger] self.frames@[k])@ == before[k].with_delay(
                        storable_delay(scaled@[k]),
                    ),
                forall|k: int| i <= k < before.len() ==> (#[trigger] self.frames@[k])@ == before[k],
            decreases self.frames@.len() - i,
        {
            let delay: u16 = if scaled[i] < 1 {
                1
            } else if scaled[i] > 0xffff {
                0xffff
            } else {
                scaled[i] as u16
            };
            self.frames[i].delay_cs = delay;
            i = i + 1;
        }
        assert(self@.frames =~= Seq::new(
            before.len(),
            |i: int| before[i].with_delay(storable_delay(scaled@[i])),
        ));
    }

    /// Set delay on an arbitrary set of frames. Ctrl+click in the strip picks
    /// frames one at a time, so a scoped edit need not be a run — same shape
    /// as `delete_frames_at`.
    pub fn set_delay_at(&mut self, frames: &Vec<usize>, delay_cs: u16)
        ensures
            final(self)@ == old(self)@.delayed(|i: int| picks(frames@, i), delay_cs),
    {
        let picked = marks(frames, self.frames.len());
        let mut i: usize = 0;
        while i < self.frames.len()
            invariant
                i <= self.frames@.len(),
                self.frames@.len() == old(self).frames@.len(),
                picked@.len() == self.frames@.len(),
                self.overlays@ == old(self).overlays@,
                self.next_id == old(self).next_id,
                forall|k: int|
                    0 <= k < picked@.len() ==> #[trigger] picked@[k] == picks(frames@, k),
                forall|k: int|
                    0 <= k < self.frames@.len() ==> (#[trigger] self.frames@[k])@ == if k < i
                        && picks(frames@, k) {
                        old(self).frames@[k]@.with_delay(delay_cs)
                    } else {
                        old(self).frames@[k]@
                    },
            decreases self.frames@.len() - i,
        {
            if picked[i] {
                self.frames[i].delay_cs = delay_cs;
            }
            i = i + 1;
        }
        assert(self@.frames =~= old(self)@.delayed(
            |i: int| picks(frames@, i),
            delay_cs,
        ).frames);
    }
}

impl DocView {
    /// The document with the delay of the frames that satisfy `p` set.
    pub open spec fn delayed(self, p: spec_fn(int) -> bool, delay_cs: u16) -> DocView {
        DocView {
            frames: Seq::new(
                self.frames.len(),
                |i: int|
                    if p(i) {
                        self.frames[i].with_delay(delay_cs)
                    } else {
                        self.frames[i]
                    },
            ),
            ..self
        }
    }
}

/// A sequence with the items of `range` in the opposite order.
pub open spec fn reversed<A>(s: Seq<A>, range: Range<usize>) -> Seq<A> {
    Seq::new(
        s.len(),
        |i: int|
            if range.start <= i < range.end {
                s[range.start + range.end - 1 - i]
            } else {
                s[i]
            },
    )
}

/// Reversing a range twice gives back what was there.
pub proof fn law_reverse_twice<A>(s: Seq<A>, range: Range<usize>)
    requires
        range.start <= range.end <= s.len(),
    ensures
        reversed(reversed(s, range), range) == s,
{
    assert(reversed(reversed(s, range), range) =~= s);
}

} // verus!
