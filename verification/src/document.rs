//! The document: frames, overlays bottom-to-top, and edits that split an
//! overlay around the frames they are about.

use std::ops::Range;

use vstd::prelude::*;

use crate::model::{
    same_frame, same_look, Frame, FrameView, Overlay, OverlayId, OverlayKind, Transform,
};
use crate::single::{Single, ONE_BITS};

verus! {

#[derive(Debug)]
pub struct Document {
    pub frames: Vec<Frame>,
    /// Bottom-to-top. List order *is* z-order; a separate `z` field would be a
    /// second copy of the same fact to keep in sync.
    pub overlays: Vec<Overlay>,
    /// The id the next new overlay gets.
    pub next_id: u32,
}

/// What a `Document` holds.
pub struct DocView {
    pub frames: Seq<FrameView>,
    pub overlays: Seq<Overlay>,
    pub next_id: u32,
}

/// What each of the frames holds.
pub open spec fn views(frames: Seq<Frame>) -> Seq<FrameView> {
    Seq::new(frames.len(), |i: int| frames[i]@)
}

/// The index of the first overlay with `id` at or after `from`, or the length
/// if there is none.
pub open spec fn find_id(overlays: Seq<Overlay>, id: OverlayId, from: int) -> int
    decreases overlays.len() - from,
{
    if from < 0 || from >= overlays.len() {
        overlays.len() as int
    } else if overlays[from].id == id {
        from
    } else {
        find_id(overlays, id, from + 1)
    }
}

/// `find_id` finds an overlay with the id, and the first one.
pub proof fn lemma_find_id(overlays: Seq<Overlay>, id: OverlayId, from: int)
    requires
        0 <= from <= overlays.len(),
    ensures
        from <= find_id(overlays, id, from) <= overlays.len(),
        find_id(overlays, id, from) < overlays.len() ==> overlays[find_id(overlays, id, from)].id
            == id,
        forall|i: int| from <= i < find_id(overlays, id, from) ==> #[trigger] overlays[i].id != id,
    decreases overlays.len() - from,
{
    if from < overlays.len() && overlays[from].id != id {
        lemma_find_id(overlays, id, from + 1);
    }
}

/// The total of the delays.
pub open spec fn total_delay(frames: Seq<FrameView>) -> int
    decreases frames.len(),
{
    if frames.len() == 0 {
        0
    } else {
        total_delay(frames.drop_last()) + frames.last().delay_cs
    }
}

/// A total is at least each of its prefixes, and never negative.
pub proof fn lemma_total_delay_prefix(frames: Seq<FrameView>, n: int)
    requires
        0 <= n <= frames.len(),
    ensures
        0 <= total_delay(frames.take(n)) <= total_delay(frames),
    decreases frames.len() - n,
{
    if n < frames.len() {
        lemma_total_delay_prefix(frames, n + 1);
        assert(frames.take(n + 1).drop_last() =~= frames.take(n));
        assert(frames.take(n + 1).last() == frames[n]);
        lemma_total_delay_nonnegative(frames.take(n));
    } else {
        assert(frames.take(n) =~= frames);
        lemma_total_delay_nonnegative(frames);
    }
}

pub proof fn lemma_total_delay_nonnegative(frames: Seq<FrameView>)
    ensures
        0 <= total_delay(frames),
    decreases frames.len(),
{
    if frames.len() > 0 {
        lemma_total_delay_nonnegative(frames.drop_last());
    }
}

impl View for Document {
    type V = DocView;

    open spec fn view(&self) -> DocView {
        DocView { frames: views(self.frames@), overlays: self.overlays@, next_id: self.next_id }
    }
}

impl DocView {
    /// No two overlays share an id, and no id is one still to be given out.
    pub open spec fn ids_sound(self) -> bool {
        &&& forall|i: int|
            0 <= i < self.overlays.len() ==> (#[trigger] self.overlays[i]).id.0 < self.next_id
        &&& forall|i: int, j: int|
            0 <= i < j < self.overlays.len() ==> (#[trigger] self.overlays[i]).id != (
            #[trigger] self.overlays[j]).id
    }

    /// Every overlay lies on a frame at least, and inside the frame list.
    pub open spec fn ranges_sound(self) -> bool {
        forall|i: int|
            0 <= i < self.overlays.len() ==> (#[trigger] self.overlays[i]).range.start
                < self.overlays[i].range.end <= self.frames.len()
    }

    /// Every frame is a whole frame.
    pub open spec fn frames_sound(self) -> bool {
        forall|i: int| 0 <= i < self.frames.len() ==> (#[trigger] self.frames[i]).wf()
    }

    /// Size of the canvas: that of the first frame.
    pub open spec fn size(self) -> (u32, u32) {
        if self.frames.len() == 0 {
            (0, 0)
        } else {
            (self.frames[0].pixels.width, self.frames[0].pixels.height)
        }
    }

    /// The document with one more overlay on top, under the next id.
    pub open spec fn with_overlay(self, overlay: Overlay) -> DocView {
        DocView {
            frames: self.frames,
            overlays: self.overlays.push(
                Overlay { id: OverlayId(self.next_id), ..overlay },
            ),
            next_id: (self.next_id + 1) as u32,
        }
    }

    /// The document with overlay `id` one step up or down in the z-order,
    /// where there is a step to go.
    pub open spec fn stepped_z(self, id: OverlayId, up: bool) -> DocView {
        let i = find_id(self.overlays, id, 0);
        let j = if up {
            i + 1
        } else {
            i - 1
        };
        if i < self.overlays.len() && 0 <= j < self.overlays.len() {
            DocView { overlays: swapped(self.overlays, i, j), ..self }
        } else {
            self
        }
    }

    /// What part of overlay `i`'s frames lies in `frames`.
    pub open spec fn edited_frames(self, i: int, frames: Range<usize>) -> Range<usize> {
        let full = self.overlays[i].range;
        Range {
            start: if full.start < frames.start {
                frames.start
            } else {
                full.start
            },
            end: if frames.end < full.end {
                frames.end
            } else {
                full.end
            },
        }
    }

    /// Whether `edit` is all of overlay `i`'s frames.
    pub open spec fn is_whole(self, i: int, edit: Range<usize>) -> bool {
        edit.start == self.overlays[i].range.start && edit.end == self.overlays[i].range.end
    }

    /// The overlay an edit of overlay `i` on the frames `edit` starts from:
    /// the overlay itself when that is all of it, else a piece of it under
    /// the next id.
    pub open spec fn piece(self, i: int, edit: Range<usize>) -> Overlay {
        let o = self.overlays[i];
        if self.is_whole(i, edit) {
            o
        } else {
            Overlay { id: OverlayId(self.next_id), range: edit, ..o }
        }
    }

    /// The document after overlay `i` was edited on the frames `edit`, the
    /// edit having made `edited` of its piece: what the edit leaves of the
    /// overlay stays as it was before and after the piece, and all of them
    /// take the overlay's place in the z-order.
    pub open spec fn split(self, i: int, edit: Range<usize>, edited: Overlay) -> DocView {
        let o = self.overlays[i];
        let before = Range { start: o.range.start, end: edit.start };
        let after = Range { start: edit.end, end: o.range.end };
        if self.is_whole(i, edit) {
            DocView { overlays: self.overlays.update(i, edited), ..self }
        } else if edit.start == o.range.start {
            DocView {
                overlays: self.overlays.update(i, o.on(after)).insert(i, edited),
                next_id: (self.next_id + 1) as u32,
                ..self
            }
        } else if edit.end == o.range.end {
            DocView {
                overlays: self.overlays.update(i, o.on(before)).insert(i + 1, edited),
                next_id: (self.next_id + 1) as u32,
                ..self
            }
        } else {
            let rest = Overlay { id: OverlayId((self.next_id + 1) as u32), range: after, ..o };
            DocView {
                overlays: self.overlays.update(i, o.on(before)).insert(i + 1, edited).insert(
                    i + 2,
                    rest,
                ),
                next_id: (self.next_id + 2) as u32,
                ..self
            }
        }
    }
}

/// The overlays painting on `frame`, by their place in the z-order.
pub open spec fn painting(overlays: Seq<Overlay>, frame: int) -> Seq<usize>
    decreases overlays.len(),
{
    if overlays.len() == 0 {
        seq![]
    } else {
        let below = painting(overlays.drop_last(), frame);
        let top = overlays.last();
        if !top.hidden && top.covers(frame) {
            below.push((overlays.len() - 1) as usize)
        } else {
            below
        }
    }
}

/// The overlay `add_overlay` makes, but for its id.
pub open spec fn new_overlay(
    name: String,
    kind: OverlayKind,
    transform: Transform,
    range: Range<usize>,
) -> Overlay {
    Overlay {
        id: OverlayId(0),
        name,
        kind,
        range,
        transform,
        opacity: Single { bits: ONE_BITS },
        hidden: false,
    }
}

/// A sequence with two of its elements exchanged.
pub open spec fn swapped<A>(s: Seq<A>, i: int, j: int) -> Seq<A> {
    s.update(i, s[j]).update(j, s[i])
}

impl Document {
    pub fn from_frames(frames: Vec<Frame>) -> (r: Document)
        ensures
            r@ == (DocView {
                frames: views(frames@),
                overlays: Seq::<Overlay>::empty(),
                next_id: 0,
            }),
            r.frames@ == frames@,
    {
        Document { frames, overlays: Vec::new(), next_id: 0 }
    }

    pub fn size(&self) -> (r: (u32, u32))
        ensures
            r == self@.size(),
    {
        if self.frames.len() == 0 {
            (0, 0)
        } else {
            (self.frames[0].pixels.width, self.frames[0].pixels.height)
        }
    }

    /// Whether the delays add up to no more than a counter holds.
    pub fn has_duration(&self) -> (r: bool)
        ensures
            r == (total_delay(self@.frames) <= u32::MAX),
    {
        let mut total: u32 = 0;
        let mut i: usize = 0;
        let ghost frames = self@.frames;
        while i < self.frames.len()
            invariant
                frames == self@.frames,
                i <= self.frames@.len(),
                total == total_delay(frames.take(i as int)),
            decreases self.frames@.len() - i,
        {
            proof {
                lemma_total_delay_prefix(frames, i + 1);
                assert(frames.take(i + 1).drop_last() =~= frames.take(i as int));
            }
            let delay: u32 = self.frames[i].delay_cs as u32;
            if total > u32::MAX - delay {
                return false;
            }
            total = total + delay;
            i = i + 1;
        }
        assert(frames.take(i as int) =~= frames);
        true
    }

    pub fn duration_cs(&self) -> (r: u32)
        requires
            total_delay(self@.frames) <= u32::MAX,
        ensures
            r == total_delay(self@.frames),
    {
        let mut total: u32 = 0;
        let mut i: usize = 0;
        let ghost frames = self@.frames;
        while i < self.frames.len()
            invariant
                frames == self@.frames,
                i <= self.frames@.len(),
                total == total_delay(frames.take(i as int)),
                total_delay(frames) <= u32::MAX,
            decreases self.frames@.len() - i,
        {
            proof {
                lemma_total_delay_prefix(frames, i + 1);
                assert(frames.take(i + 1).drop_last() =~= frames.take(i as int));
            }
            total = total + self.frames[i].delay_cs as u32;
            i = i + 1;
        }
        assert(frames.take(i as int) =~= frames);
        total
    }

    /// Re-checked per call, not an import flag: a frame saved back from an
    /// external editor can introduce alpha long after import. Cheap because
    /// each frame answered the question when it was built.
    pub fn has_alpha(&self) -> (r: bool)
        ensures
            r <==> (exists|i: int| 0 <= i < self@.frames.len() && !(#[trigger] self@.frames[i]).opaque)
                || (exists|i: int|
                0 <= i < self@.overlays.len() && (#[trigger] self@.overlays[i]).kind !is Shape),
    {
        let mut i: usize = 0;
        while i < self.frames.len()
            invariant
                i <= self.frames@.len(),
                forall|k: int| 0 <= k < i ==> (#[trigger] self@.frames[k]).opaque,
            decreases self.frames@.len() - i,
        {
            if !self.frames[i].opaque {
                assert(!self@.frames[i as int].opaque);
                return true;
            }
            i = i + 1;
        }
        let mut j: usize = 0;
        while j < self.overlays.len()
            invariant
                j <= self.overlays@.len(),
                forall|k: int| 0 <= k < j ==> (#[trigger] self@.overlays[k]).kind is Shape,
            decreases self.overlays@.len() - j,
        {
            match self.overlays[j].kind {
                OverlayKind::Shape(_) => {},
                _ => {
                    assert(self@.overlays[j as int].kind !is Shape);
                    return true;
                },
            }
            j = j + 1;
        }
        false
    }

    /// Where the overlay with `id` stands in the z-order.
    pub fn position(&self, id: OverlayId) -> (r: Option<usize>)
        ensures
            match r {
                Some(i) => i == find_id(self@.overlays, id, 0) && i < self@.overlays.len(),
                None => find_id(self@.overlays, id, 0) == self@.overlays.len(),
            },
    {
        let mut i: usize = 0;
        while i < self.overlays.len()
            invariant
                i <= self.overlays@.len(),
                find_id(self@.overlays, id, 0) == find_id(self@.overlays, id, i as int),
            decreases self.overlays@.len() - i,
        {
            if self.overlays[i].id == id {
                return Some(i);
            }
            i = i + 1;
        }
        None
    }

    pub fn overlay(&self, id: OverlayId) -> (r: Option<&Overlay>)
        ensures
            ({
                let i = find_id(self@.overlays, id, 0);
                match r {
                    Some(o) => i < self@.overlays.len() && *o == self@.overlays[i],
                    None => i == self@.overlays.len(),
                }
            }),
    {
        match self.position(id) {
            Some(i) => {
                proof {
                    lemma_find_id(self@.overlays, id, 0);
                }
                Some(&self.overlays[i])
            },
            None => None,
        }
    }

    pub fn overlay_mut(&mut self, id: OverlayId) -> (r: Option<&mut Overlay>)
        ensures
            ({
                let i = find_id(old(self)@.overlays, id, 0);
                match r {
                    Some(o) => {
                        &&& i < old(self)@.overlays.len()
                        &&& *o == old(self)@.overlays[i]
                        &&& final(self)@ == (DocView {
                            overlays: old(self)@.overlays.update(i, *final(o)),
                            ..old(self)@
                        })
                        &&& final(self).frames@ == old(self).frames@
                    },
                    None => i == old(self)@.overlays.len() && *final(self) == *old(self),
                }
            }),
    {
        match self.position(id) {
            Some(i) => {
                proof {
                    lemma_find_id(self@.overlays, id, 0);
                }
                Some(&mut self.overlays[i])
            },
            None => None,
        }
    }

    /// Overlays painting on `frame`, bottom-to-top, by their place in the
    /// z-order.
    pub fn overlays_on(&self, frame: usize) -> (r: Vec<usize>)
        ensures
            r@ == painting(self@.overlays, frame as int),
    {
        let mut r: Vec<usize> = Vec::new();
        let mut i: usize = 0;
        while i < self.overlays.len()
            invariant
                i <= self.overlays@.len(),
                r@ == painting(self.overlays@.take(i as int), frame as int),
            decreases self.overlays@.len() - i,
        {
            assert(self.overlays@.take(i + 1).drop_last() =~= self.overlays@.take(i as int));
            let o = &self.overlays[i];
            if !o.hidden && o.range.start <= frame && frame < o.range.end {
                r.push(i);
            }
            i = i + 1;
        }
        assert(self.overlays@.take(i as int) =~= self.overlays@);
        r
    }

    pub fn add_overlay(
        &mut self,
        name: String,
        kind: OverlayKind,
        transform: Transform,
        range: Range<usize>,
    ) -> (id: OverlayId)
        requires
            old(self).next_id < u32::MAX,
        ensures
            id == OverlayId(old(self).next_id),
            final(self)@ == old(self)@.with_overlay(new_overlay(name, kind, transform, range)),
            final(self).frames@ == old(self).frames@,
    {
        let id = OverlayId(self.next_id);
        self.next_id = self.next_id + 1;
        self.overlays.push(
            Overlay {
                id,
                name,
                kind,
                range,
                transform,
                opacity: Single { bits: ONE_BITS },
                hidden: false,
            },
        );
        id
    }

    pub fn remove_overlay(&mut self, id: OverlayId) -> (r: Option<Overlay>)
        ensures
            ({
                let i = find_id(old(self)@.overlays, id, 0);
                match r {
                    Some(o) => {
                        &&& i < old(self)@.overlays.len()
                        &&& o == old(self)@.overlays[i]
                        &&& final(self)@ == (DocView {
                            overlays: old(self)@.overlays.remove(i),
                            ..old(self)@
                        })
                        &&& final(self).frames@ == old(self).frames@
                    },
                    None => i == old(self)@.overlays.len() && *final(self) == *old(self),
                }
            }),
    {
        match self.position(id) {
            Some(i) => {
                proof {
                    lemma_find_id(self@.overlays, id, 0);
                }
                Some(self.overlays.remove(i))
            },
            None => None,
        }
    }

    /// Raise or lower one step in z-order.
    pub fn move_overlay_z(&mut self, id: OverlayId, up: bool)
        ensures
            final(self)@ == old(self)@.stepped_z(id, up),
            final(self).frames@ == old(self).frames@,
    {
        let i = match self.position(id) {
            Some(i) => i,
            None => {
                return ;
            },
        };
        proof {
            lemma_find_id(self@.overlays, id, 0);
        }
        if up {
            if i < self.overlays.len() - 1 {
                let o = self.overlays.remove(i);
                self.overlays.insert(i + 1, o);
                assert(self.overlays@ =~= swapped(old(self)@.overlays, i as int, i + 1));
            }
        } else if i > 0 {
            let o = self.overlays.remove(i);
            self.overlays.insert(i - 1, o);
            assert(self.overlays@ =~= swapped(old(self)@.overlays, i as int, i - 1));
        }
    }

    /// Apply `f` to the overlay on `frames` alone, splitting it around the
    /// rest of its range. An overlay carries one transform for its whole
    /// range, so an edit that covers only part of it has to cut it in two:
    /// the edited frames become their own overlay with its own transform, and
    /// the original keeps the rest. All pieces take the original's place in
    /// the z-order, so nothing under or over the overlay moves relative to
    /// them.
    ///
    /// Returns the id of the overlay the edit landed on — the original's when
    /// it covered everything, a new one otherwise — and how many frames the
    /// edit touched. An empty intersection changes nothing.
    pub fn edit_on_frames<F: FnOnce(&mut Overlay)>(
        &mut self,
        id: OverlayId,
        frames: Range<usize>,
        f: F,
    ) -> (r: (OverlayId, usize))
        requires
            forall|m: &mut Overlay| #[trigger] call_requires(f, (m,)),
            old(self).next_id + 2 <= u32::MAX,
        ensures
            ({
                let doc = old(self)@;
                let i = find_id(doc.overlays, id, 0);
                let edit = doc.edited_frames(i, frames);
                if i == doc.overlays.len() || edit.end <= edit.start {
                    final(self)@ == doc && r == (id, 0usize)
                } else {
                    exists|m: &mut Overlay| #[trigger]
                        call_ensures(f, (m,), ()) && *m == doc.piece(i, edit) && final(self)@
                            == doc.split(i, edit, *final(m)) && r.1 == edit.end - edit.start && r.0
                            == if doc.is_whole(i, edit) {
                            id
                        } else {
                            (*final(m)).id
                        }
                }
            }),
            final(self).frames@ == old(self).frames@,
    {
        let i = match self.position(id) {
            Some(i) => i,
            None => {
                return (id, 0);
            },
        };
        proof {
            lemma_find_id(self@.overlays, id, 0);
        }
        let full = self.overlays[i].range.start..self.overlays[i].range.end;
        let start: usize = if full.start < frames.start {
            frames.start
        } else {
            full.start
        };
        let end: usize = if frames.end < full.end {
            frames.end
        } else {
            full.end
        };
        if end <= start {
            return (id, 0);
        }
        if start == full.start && end == full.end {
            f(&mut self.overlays[i]);
            return (id, end - start);
        }
        let mut piece = self.overlays[i].clone();
        piece.id = OverlayId(self.next_id);
        self.next_id = self.next_id + 1;
        piece.range = start..end;
        f(&mut piece);
        let edited = piece.id;
        assert(i < self.overlays.len());
        if start == full.start {
            // The edit starts the range: the original keeps only the tail.
            self.overlays[i].range = end..full.end;
            self.overlays.insert(i, piece);
        } else {
            self.overlays[i].range = full.start..start;
            if end == full.end {
                self.overlays.insert(i + 1, piece);
            } else {
                // The edit sits in the middle: the right half is its own too.
                let mut rest = self.overlays[i].clone();
                rest.id = OverlayId(self.next_id);
                self.next_id = self.next_id + 1;
                rest.range = end..full.end;
                self.overlays.insert(i + 1, piece);
                assert(i + 1 < self.overlays.len());
                self.overlays.insert(i + 2, rest);
            }
        }
        (edited, end - start)
    }
}

impl Default for Document {
    /// No frames and no overlays.
    fn default() -> (r: Document)
        ensures
            r@ == (DocView { frames: seq![], overlays: seq![], next_id: 0 }),
    {
        let r = Document { frames: Vec::new(), overlays: Vec::new(), next_id: 0 };
        assert(r@.frames =~= seq![]);
        assert(r@.overlays =~= seq![]);
        r
    }
}

/// Two documents are the same: the same frames and the same overlays, in the
/// same order, and the same next id.
pub open spec fn same_document(a: Document, b: Document) -> bool {
    &&& a.frames@.len() == b.frames@.len()
    &&& forall|i: int|
        0 <= i < a.frames@.len() ==> same_frame(#[trigger] a.frames@[i]@, b.frames@[i]@)
    &&& a.overlays@.len() == b.overlays@.len()
    &&& forall|i: int|
        0 <= i < a.overlays@.len() ==> same_overlay(#[trigger] a.overlays@[i], b.overlays@[i])
    &&& a.next_id == b.next_id
}

/// Two overlays are the same one, on the same frames, drawing the same thing.
pub open spec fn same_overlay(a: Overlay, b: Overlay) -> bool {
    &&& a.id == b.id
    &&& a.range.start == b.range.start
    &&& a.range.end == b.range.end
    &&& same_look(a, b)
}

impl PartialEq for Document {
    fn eq(&self, other: &Document) -> (r: bool) {
        if self.frames.len() != other.frames.len() || self.overlays.len() != other.overlays.len()
            || self.next_id != other.next_id {
            return false;
        }
        let mut i: usize = 0;
        while i < self.frames.len()
            invariant
                i <= self.frames@.len() == other.frames@.len(),
                forall|k: int|
                    0 <= k < i ==> same_frame(#[trigger] self.frames@[k]@, other.frames@[k]@),
            decreases self.frames@.len() - i,
        {
            if self.frames[i] != other.frames[i] {
                assert(!same_frame(self.frames@[i as int]@, other.frames@[i as int]@));
                return false;
            }
            i = i + 1;
        }
        let mut j: usize = 0;
        while j < self.overlays.len()
            invariant
                j <= self.overlays@.len() == other.overlays@.len(),
                forall|k: int|
                    0 <= k < j ==> same_overlay(#[trigger] self.overlays@[k], other.overlays@[k]),
            decreases self.overlays@.len() - j,
        {
            if self.overlays[j] != other.overlays[j] {
                assert(!same_overlay(self.overlays@[j as int], other.overlays@[j as int]));
                return false;
            }
            j = j + 1;
        }
        true
    }
}

impl vstd::std_specs::cmp::PartialEqSpecImpl for Document {
    open spec fn obeys_eq_spec() -> bool {
        true
    }

    open spec fn eq_spec(&self, other: &Document) -> bool {
        same_document(*self, *other)
    }
}

} // verus!
