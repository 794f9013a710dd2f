//! What the overlays show on a frame, and what an edit leaves of it.

use std::ops::Range;

use vstd::prelude::*;

use crate::document::DocView;
use crate::model::{Overlay, OverlayId};

verus! {

/// An overlay without what says where it stands: no id, no frames.
pub open spec fn look(o: Overlay) -> Overlay {
    Overlay { id: OverlayId(0), range: Range { start: 0, end: 0 }, ..o }
}

/// What the overlays show on `frame`, bottom-to-top.
pub open spec fn shown(overlays: Seq<Overlay>, frame: int) -> Seq<Overlay>
    decreases overlays.len(),
{
    if overlays.len() == 0 {
        seq![]
    } else {
        let below = shown(overlays.drop_last(), frame);
        if overlays.last().covers(frame) {
            below.push(look(overlays.last()))
        } else {
            below
        }
    }
}

/// What two stacks show, one on the other, is what each shows.
pub proof fn lemma_shown_add(a: Seq<Overlay>, b: Seq<Overlay>, frame: int)
    ensures
        shown(a + b, frame) == shown(a, frame) + shown(b, frame),
    decreases b.len(),
{
    if b.len() == 0 {
        assert(a + b =~= a);
        assert(shown(a, frame) + shown(b, frame) =~= shown(a, frame));
    } else {
        assert((a + b).drop_last() =~= a + b.drop_last());
        lemma_shown_add(a, b.drop_last(), frame);
        assert(shown(a + b, frame) =~= shown(a, frame) + shown(b, frame));
    }
}

/// What one overlay shows.
pub proof fn lemma_shown_one(o: Overlay, frame: int)
    ensures
        shown(seq![o], frame) == if o.covers(frame) {
            seq![look(o)]
        } else {
            seq![]
        },
{
    assert(seq![o].drop_last() =~= Seq::<Overlay>::empty());
    assert(shown(seq![o].drop_last(), frame) =~= Seq::<Overlay>::empty());
    assert(Seq::<Overlay>::empty().push(look(o)) =~= seq![look(o)]);
}

/// A document's stack, taken apart at overlay `i`.
proof fn lemma_apart(overlays: Seq<Overlay>, i: int, middle: Seq<Overlay>, frame: int)
    requires
        0 <= i < overlays.len(),
    ensures
        shown(overlays.take(i) + middle + overlays.skip(i + 1), frame) == shown(
            overlays.take(i),
            frame,
        ) + shown(middle, frame) + shown(overlays.skip(i + 1), frame),
{
    lemma_shown_add(overlays.take(i), middle, frame);
    lemma_shown_add(overlays.take(i) + middle, overlays.skip(i + 1), frame);
}

/// The overlays that stand in overlay `i`'s place after a split.
pub open spec fn pieces(doc: DocView, i: int, edit: Range<usize>, edited: Overlay) -> Seq<Overlay> {
    let o = doc.overlays[i];
    let before = Range { start: o.range.start, end: edit.start };
    let after = Range { start: edit.end, end: o.range.end };
    let head = if edit.start == o.range.start {
        seq![]
    } else {
        seq![o.on(before)]
    };
    let tail = if edit.end == o.range.end {
        seq![]
    } else if edit.start == o.range.start {
        seq![o.on(after)]
    } else {
        seq![Overlay { id: OverlayId((doc.next_id + 1) as u32), range: after, ..o }]
    };
    head + seq![edited] + tail
}

/// A split puts the pieces where the overlay stood and moves nothing else.
pub proof fn lemma_split_pieces(doc: DocView, i: int, edit: Range<usize>, edited: Overlay)
    requires
        0 <= i < doc.overlays.len(),
    ensures
        doc.split(i, edit, edited).overlays == doc.overlays.take(i) + pieces(doc, i, edit, edited)
            + doc.overlays.skip(i + 1),
{
    assert(doc.split(i, edit, edited).overlays =~= doc.overlays.take(i) + pieces(
        doc,
        i,
        edit,
        edited,
    ) + doc.overlays.skip(i + 1));
}

/// An edit that leaves its piece on its frames changes nothing on any other
/// frame: each shows the same overlays in the same order as before. On the
/// edited frames only the overlay that was edited looks different, and it
/// keeps its place between the ones under and over it.
pub proof fn law_edit_stays_on_its_frames(
    doc: DocView,
    i: int,
    edit: Range<usize>,
    edited: Overlay,
    frame: int,
)
    requires
        0 <= i < doc.overlays.len(),
        doc.overlays[i].range.start <= edit.start < edit.end <= doc.overlays[i].range.end,
        edited.range == edit,
    ensures
        ({
            let under = shown(doc.overlays.take(i), frame);
            let over = shown(doc.overlays.skip(i + 1), frame);
            let after = shown(doc.split(i, edit, edited).overlays, frame);
            if edit.start <= frame < edit.end {
                &&& shown(doc.overlays, frame) == under + seq![look(doc.overlays[i])] + over
                &&& after == under + seq![look(edited)] + over
            } else {
                after == shown(doc.overlays, frame)
            }
        }),
{
    let o = doc.overlays[i];
    let middle = pieces(doc, i, edit, edited);
    lemma_split_pieces(doc, i, edit, edited);
    assert(doc.overlays =~= doc.overlays.take(i) + seq![o] + doc.overlays.skip(i + 1));
    lemma_apart(doc.overlays, i, seq![o], frame);
    lemma_apart(doc.overlays, i, middle, frame);
    lemma_shown_one(o, frame);
    lemma_shown_one(edited, frame);
    let head = if edit.start == o.range.start {
        seq![]
    } else {
        seq![o.on(Range { start: o.range.start, end: edit.start })]
    };
    let tail = middle.skip(head.len() as int + 1);
    assert(middle =~= head + seq![edited] + tail);
    lemma_shown_add(head, seq![edited], frame);
    lemma_shown_add(head + seq![edited], tail, frame);
    if head.len() > 0 {
        lemma_shown_one(head[0], frame);
        assert(head =~= seq![head[0]]);
    }
    if tail.len() > 0 {
        lemma_shown_one(tail[0], frame);
        assert(tail =~= seq![tail[0]]);
    }
    assert(shown(middle, frame) =~= if edit.start <= frame < edit.end {
        seq![look(edited)]
    } else if o.covers(frame) {
        seq![look(o)]
    } else {
        seq![]
    });
}

/// An edit that leaves its piece's id alone keeps ids unique and below the
/// next one to be given out.
pub proof fn law_edit_keeps_ids_sound(doc: DocView, i: int, edit: Range<usize>, edited: Overlay)
    requires
        0 <= i < doc.overlays.len(),
        doc.ids_sound(),
        doc.next_id + 2 <= u32::MAX,
        edited.id == doc.piece(i, edit).id,
    ensures
        doc.split(i, edit, edited).ids_sound(),
{
}

/// Adding an overlay keeps ids unique and below the next one to be given out.
pub proof fn law_add_keeps_ids_sound(doc: DocView, overlay: Overlay)
    requires
        doc.ids_sound(),
        doc.next_id < u32::MAX,
    ensures
        doc.with_overlay(overlay).ids_sound(),
{
}

} // verus!
