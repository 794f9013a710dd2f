//! Overlays over several runs of frames, and moving a whole set of frames.

use std::ops::Range;

use vstd::prelude::*;

use crate::arrange::spliced;
use crate::document::{find_id, lemma_find_id, new_overlay, DocView, Document};
use crate::merge::coalesced;
use crate::model::{Overlay, OverlayId, OverlayKind, Transform};
use crate::scope::{ascending, lemma_ascending, lemma_ascending_same, marked, marks, picks};

verus! {

/// The contiguous runs that a list of frames falls into.
pub open spec fn runs(frames: Seq<usize>) -> Seq<Range<usize>>
    decreases frames.len(),
{
    if frames.len() == 0 {
        seq![]
    } else {
        let before = runs(frames.drop_last());
        let last = frames.last();
        let end = (last + 1) as usize;
        if before.len() > 0 && before.last().end == last {
            before.drop_last().push(Range { start: before.last().start, end })
        } else {
            before.push(Range { start: last, end })
        }
    }
}

pub proof fn lemma_runs_len(frames: Seq<usize>)
    ensures
        runs(frames).len() <= frames.len(),
        frames.len() > 0 ==> runs(frames).len() > 0,
    decreases frames.len(),
{
    if frames.len() > 0 {
        lemma_runs_len(frames.drop_last());
    }
}

/// Whether one of the ranges holds frame `i`.
pub open spec fn in_runs(ranges: Seq<Range<usize>>, i: int) -> bool {
    exists|k: int| 0 <= k < ranges.len() && (#[trigger] ranges[k]).start <= i < ranges[k].end
}

/// The runs of frames in ascending order hold exactly those frames, each run
/// holds one at least, and between two runs there is a gap.
pub proof fn law_runs(frames: Seq<usize>)
    requires
        forall|a: int, b: int| 0 <= a < b < frames.len() ==> frames[a] < frames[b],
        forall|a: int| 0 <= a < frames.len() ==> #[trigger] frames[a] < usize::MAX,
    ensures
        forall|i: int| #[trigger] in_runs(runs(frames), i) <==> picks(frames, i),
        forall|k: int|
            0 <= k < runs(frames).len() ==> (#[trigger] runs(frames)[k]).start < runs(frames)[k].end,
        forall|k: int, l: int|
            0 <= k < l < runs(frames).len() ==> (#[trigger] runs(frames)[k]).end < (
            #[trigger] runs(frames)[l]).start,
        frames.len() > 0 ==> runs(frames).len() > 0 && runs(frames).last().end == frames.last() + 1,
    decreases frames.len(),
{
    if frames.len() > 0 {
        let head = frames.drop_last();
        let before = runs(head);
        let after = runs(frames);
        let last = frames.last();
        law_runs(head);
        let extends = before.len() > 0 && before.last().end == last;
        if head.len() > 0 {
            assert(head.last() == frames[frames.len() - 2]);
            assert(frames[frames.len() - 2] < frames[frames.len() - 1]);
        }
        assert forall|i: int| #[trigger] in_runs(after, i) <==> picks(frames, i) by {
            assert(in_runs(before, i) <==> picks(head, i));
            if in_runs(after, i) {
                let k = choose|k: int|
                    0 <= k < after.len() && (#[trigger] after[k]).start <= i < after[k].end;
                if i == last {
                    assert(frames[frames.len() - 1] == i);
                } else {
                    if k < after.len() - 1 {
                        assert(before[k] == after[k]);
                    } else if extends {
                        assert(before[k].start <= i < before[k].end);
                    }
                    assert(in_runs(before, i));
                    let w = choose|w: int| 0 <= w < head.len() && #[trigger] head[w] == i;
                    assert(frames[w] == i);
                }
            }
            if picks(frames, i) {
                let w = choose|w: int| 0 <= w < frames.len() && #[trigger] frames[w] == i;
                if w == frames.len() - 1 {
                    assert(after[after.len() - 1].start <= i < after[after.len() - 1].end);
                } else {
                    assert(head[w] == i);
                    assert(in_runs(before, i));
                    let k = choose|k: int|
                        0 <= k < before.len() && (#[trigger] before[k]).start <= i < before[k].end;
                    assert(after[k].start <= i < after[k].end);
                }
            }
        }
        assert forall|k: int, l: int| 0 <= k < l < after.len() implies (#[trigger] after[k]).end < (
        #[trigger] after[l]).start by {
            assert(after[k] == before[k]);
            if l < before.len() {
                assert(before[k].end < before[l].start);
            } else if k < before.len() - 1 {
                assert(before[k].end < before[before.len() - 1].start);
                assert(before[before.len() - 1].start < before[before.len() - 1].end);
            }
        }
    }
}

/// One overlay like `o` on each of the ranges, under ids from `next_id` up.
pub open spec fn on_each(o: Overlay, ranges: Seq<Range<usize>>, next_id: int) -> Seq<Overlay> {
    Seq::new(
        ranges.len(),
        |k: int| Overlay { id: OverlayId((next_id + k) as u32), range: ranges[k], ..o },
    )
}

impl DocView {
    /// The document with an overlay like `o` on top for each of the ranges.
    pub open spec fn with_overlays(self, o: Overlay, ranges: Seq<Range<usize>>) -> DocView {
        DocView {
            frames: self.frames,
            overlays: self.overlays + on_each(o, ranges, self.next_id as int),
            next_id: (self.next_id + ranges.len()) as u32,
        }
    }

    /// The frames among `frames` a copy of overlay `id` would land on: those
    /// of the document that it is not on yet.
    pub open spec fn copy_targets(self, id: OverlayId, frames: Seq<usize>) -> Seq<usize> {
        let source = self.overlays[find_id(self.overlays, id, 0)];
        ascending(self.frames.len(), |i: int| picks(frames, i) && !source.covers(i))
    }

    /// The document with overlay `id` on `targets` too: a piece for each run
    /// directly above it, and touching pieces folded.
    pub open spec fn copied_onto(self, id: OverlayId, targets: Seq<usize>) -> DocView {
        let at = find_id(self.overlays, id, 0);
        let pieces = on_each(self.overlays[at], runs(targets), self.next_id as int);
        DocView {
            frames: self.frames,
            overlays: coalesced(spliced(self.overlays, at + 1, pieces), 0),
            next_id: (self.next_id + pieces.len()) as u32,
        }
    }
}

/// The contiguous runs that a list of frames falls into.
fn runs_of(frames: &Vec<usize>) -> (r: Vec<Range<usize>>)
    requires
        forall|a: int| 0 <= a < frames@.len() ==> #[trigger] frames@[a] < usize::MAX,
    ensures
        r@ == runs(frames@),
{
    let mut r: Vec<Range<usize>> = Vec::new();
    let mut i: usize = 0;
    assert(frames@.take(0) =~= Seq::<usize>::empty());
    while i < frames.len()
        invariant
            i <= frames@.len(),
            forall|a: int| 0 <= a < frames@.len() ==> #[trigger] frames@[a] < usize::MAX,
            r@ == runs(frames@.take(i as int)),
        decreases frames@.len() - i,
    {
        assert(frames@.take(i + 1).drop_last() =~= frames@.take(i as int));
        let f: usize = frames[i];
        let touches = r.len() > 0 && r[r.len() - 1].end == f;
        if touches {
            let last: usize = r.len() - 1;
            let start: usize = r[last].start;
            r[last] = start..f + 1;
            assert(r@ =~= runs(frames@.take(i + 1)));
        } else {
            r.push(f..f + 1);
        }
        i = i + 1;
    }
    assert(frames@.take(i as int) =~= frames@);
    r
}

impl Document {
    /// One overlay over `frames`: a piece per contiguous run of them, because
    /// an overlay carries one contiguous range. Returns the pieces' ids.
    pub fn add_overlay_over(
        &mut self,
        name: String,
        kind: OverlayKind,
        transform: Transform,
        frames: &Vec<usize>,
    ) -> (ids: Vec<OverlayId>)
        requires
            forall|a: int| 0 <= a < frames@.len() ==> #[trigger] frames@[a] < usize::MAX,
            old(self).next_id + runs(frames@).len() <= u32::MAX,
        ensures
            final(self)@ == old(self)@.with_overlays(
                new_overlay(name, kind, transform, Range { start: 0, end: 0 }),
                runs(frames@),
            ),
            final(self).frames@ == old(self).frames@,
            ids@ == Seq::new(
                runs(frames@).len(),
                |k: int| OverlayId((old(self).next_id + k) as u32),
            ),
    {
        let ranges = runs_of(frames);
        let mut ids: Vec<OverlayId> = Vec::new();
        let ghost o = new_overlay(name, kind, transform, Range { start: 0, end: 0 });
        let mut i: usize = 0;
        assert(self.overlays@ =~= old(self).overlays@ + on_each(
            o,
            ranges@.take(0),
            old(self).next_id as int,
        ));
        while i < ranges.len()
            invariant
                i <= ranges@.len(),
                old(self).next_id + ranges@.len() <= u32::MAX,
                self.next_id == old(self).next_id + i,
                self.frames@ == old(self).frames@,
                o == new_overlay(name, kind, transform, Range { start: 0, end: 0 }),
                self.overlays@ == old(self).overlays@ + on_each(
                    o,
                    ranges@.take(i as int),
                    old(self).next_id as int,
                ),
                ids@ == Seq::new(i as nat, |k: int| OverlayId((old(self).next_id + k) as u32)),
            decreases ranges@.len() - i,
        {
            let range = ranges[i].start..ranges[i].end;
            let id = self.add_overlay(name.clone(), kind.clone(), transform, range);
            ids.push(id);
            i = i + 1;
            assert(self.overlays@ =~= old(self).overlays@ + on_each(
                o,
                ranges@.take(i as int),
                old(self).next_id as int,
            ));
            assert(ids@ =~= Seq::new(i as nat, |k: int| OverlayId((old(self).next_id + k) as u32)));
        }
        assert(ranges@.take(i as int) =~= ranges@);
        ids
    }

    /// Put one overlay on `frames` as well as the ones it already covers,
    /// splitting into a piece per contiguous run the way `add_overlay_over`
    /// does — an overlay carries one contiguous range, so a gappy selection
    /// cannot be one overlay. Frames the overlay already covers are left
    /// alone rather than stacked with a second copy of itself.
    ///
    /// The pieces go in directly above the source instead of on top of the
    /// list, so each one stacks against the overlays on its frames exactly as
    /// the source does on its own. A piece landing against the source's range
    /// folds back into it, and `coalesce_overlays` keeps the lower id — the
    /// source — so a selection open on it survives the copy.
    ///
    /// Returns the frames the copy landed on.
    pub fn copy_overlay_to(&mut self, id: OverlayId, frames: &Vec<usize>) -> (r: usize)
        requires
            old(self)@.ids_sound(),
            old(self).next_id + runs(old(self)@.copy_targets(id, frames@)).len() <= u32::MAX,
        ensures
            ({
                let doc = old(self)@;
                let targets = doc.copy_targets(id, frames@);
                if find_id(doc.overlays, id, 0) == doc.overlays.len() || targets.len() == 0 {
                    r == 0 && final(self)@ == doc
                } else {
                    r == targets.len() && final(self)@ == doc.copied_onto(id, targets)
                }
            }),
            final(self).frames@ == old(self).frames@,
    {
        let at = match self.position(id) {
            Some(i) => i,
            None => {
                return 0;
            },
        };
        proof {
            lemma_find_id(self@.overlays, id, 0);
        }
        let source = self.overlays[at].clone();
        let n: usize = self.frames.len();
        let mut flags = marks(frames, n);
        let mut i: usize = 0;
        while i < n
            invariant
                i <= n,
                flags@.len() == n,
                forall|k: int|
                    0 <= k < n ==> #[trigger] flags@[k] == (picks(frames@, k) && !(k < i
                        && source.covers(k))),
            decreases n - i,
        {
            if source.range.start <= i && i < source.range.end {
                flags[i] = false;
            }
            i = i + 1;
        }
        let targets = marked(&flags);
        proof {
            lemma_ascending(n as nat, |k: int| flags@[k]);
            lemma_ascending_same(
                n as nat,
                |k: int| flags@[k],
                |k: int| picks(frames@, k) && !source.covers(k),
            );
            assert(targets@ == self@.copy_targets(id, frames@));
        }
        if targets.len() == 0 {
            return 0;
        }
        let ranges = runs_of(&targets);
        let ghost all = ranges@;
        let ghost first_id = self.next_id as int;
        let ghost before = self.overlays@;
        let mut pieces: Vec<Overlay> = Vec::new();
        let mut k: usize = 0;
        while k < ranges.len()
            invariant
                k <= ranges@.len(),
                ranges@ == all,
                first_id == old(self).next_id,
                first_id + all.len() <= u32::MAX,
                self.next_id == first_id + k,
                self.overlays@ == before,
                self.frames@ == old(self).frames@,
                pieces@ == on_each(source, all.take(k as int), first_id),
            decreases ranges@.len() - k,
        {
            let mut piece = source.clone();
            piece.id = OverlayId(self.next_id);
            piece.range = ranges[k].start..ranges[k].end;
            self.next_id = self.next_id + 1;
            pieces.push(piece);
            k = k + 1;
            assert(pieces@ =~= on_each(source, all.take(k as int), first_id));
        }
        assert(all.take(k as int) =~= all);
        let ghost put = pieces@;
        assert(at < self.overlays.len());
        let mut tail = self.overlays.split_off(at + 1);
        self.overlays.append(&mut pieces);
        self.overlays.append(&mut tail);
        assert(self.overlays@ =~= spliced(before, at + 1, put));
        self.coalesce_overlays();
        targets.len()
    }
}

} // verus!
