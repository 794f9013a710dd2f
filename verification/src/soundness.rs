//! What every edit keeps: no two overlays share an id, every overlay lies on
//! frames that exist, and every frame is a whole frame.

use std::ops::Range;

use vstd::prelude::*;

use crate::arrange::{clamped, pushed, reversed};
use crate::canvas::{scaled_overlays, with_frames, OverlayBox};
use crate::coverage::law_edit_keeps_ids_sound;
use crate::document::{find_id, lemma_find_id, DocView};
use crate::drag::{law_set_move_keeps_soundness, places};
use crate::group::on_each;
use crate::model::{FrameView, Overlay, OverlayId};
use crate::moving_laws::law_move_keeps_soundness;
use crate::retain::retained;
use crate::retain_laws::law_retain_keeps_soundness;

verus! {

/// Every one of the frames is a whole frame.
pub open spec fn whole(frames: Seq<FrameView>) -> bool {
    forall|i: int| 0 <= i < frames.len() ==> (#[trigger] frames[i]).wf()
}

impl DocView {
    /// No two overlays share an id, every overlay lies on frames that exist,
    /// and every frame is whole.
    pub open spec fn sound(self) -> bool {
        self.ids_sound() && self.ranges_sound() && self.frames_sound()
    }
}

/// Deleting frames keeps a document sound.
pub proof fn law_retain_keeps_sound(doc: DocView, keep: Seq<bool>)
    requires
        doc.sound(),
        doc.frames.len() == keep.len() <= usize::MAX,
    ensures
        doc.retain(keep).sound(),
        doc.retain(keep).frames.len() <= doc.frames.len(),
{
    law_retain_keeps_soundness(doc, keep);
    assert(whole(doc.frames));
    lemma_retained_whole(doc.frames, keep);
}

proof fn lemma_retained_whole(frames: Seq<FrameView>, keep: Seq<bool>)
    requires
        frames.len() == keep.len(),
        whole(frames),
    ensures
        whole(retained(frames, keep)),
        retained(frames, keep).len() <= frames.len(),
    decreases frames.len(),
{
    if frames.len() > 0 {
        assert(frames[frames.len() - 1].wf());
        assert(whole(frames.drop_last())) by {
            assert forall|i: int| 0 <= i < frames.len() - 1 implies (
            #[trigger] frames.drop_last()[i]).wf() by {
                assert(frames[i].wf());
            }
        }
        lemma_retained_whole(frames.drop_last(), keep.drop_last());
        let before = retained(frames.drop_last(), keep.drop_last());
        if before.len() > 0 {
            assert(before[before.len() - 1].wf());
        }
    }
}

/// Putting frames in keeps a document sound.
pub proof fn law_insert_keeps_sound(doc: DocView, at: int, run: Seq<FrameView>)
    requires
        doc.sound(),
        whole(run),
        0 <= at,
        doc.frames.len() + run.len() <= usize::MAX,
    ensures
        doc.with_run(at, run).sound(),
        doc.with_run(at, run).frames.len() == doc.frames.len() + run.len(),
        doc.ranges_fit(run.len() as int),
{
    let after = doc.with_run(at, run);
    let at = clamped(at, doc.frames.len());
    assert forall|i: int| 0 <= i < after.frames.len() implies (#[trigger] after.frames[i]).wf() by {
        if i < at {
            assert(after.frames[i] == doc.frames[i]);
        } else if i < at + run.len() {
            assert(after.frames[i] == run[i - at]);
        } else {
            assert(after.frames[i] == doc.frames[i - run.len()]);
        }
    }
    assert forall|i: int| 0 <= i < after.overlays.len() implies (
    #[trigger] after.overlays[i]).range.start < after.overlays[i].range.end <= after.frames.len() by {
        assert(after.overlays[i] == pushed(doc.overlays[i], at, run.len() as int));
    }
    assert forall|i: int| 0 <= i < after.overlays.len() implies (
    #[trigger] after.overlays[i]).id == doc.overlays[i].id by {
        assert(after.overlays[i] == pushed(doc.overlays[i], at, run.len() as int));
    }
}

/// Moving a frame keeps a document sound.
pub proof fn law_move_keeps_sound(doc: DocView, from: int, to: int)
    requires
        doc.sound(),
        doc.frames.len() < usize::MAX,
        doc.next_id + doc.overlays.len() <= u32::MAX,
    ensures
        doc.frame_moved(from, to).sound(),
        doc.frame_moved(from, to).frames.len() == doc.frames.len(),
{
    law_move_keeps_soundness(doc, from, to);
    lemma_moved_whole(doc, from, to);
}

proof fn lemma_moved_whole(doc: DocView, from: int, to: int)
    requires
        doc.frames_sound(),
    ensures
        doc.frame_moved(from, to).frames_sound(),
        doc.frame_moved(from, to).frames.len() == doc.frames.len(),
{
    if doc.can_move(from, to) {
        let after = doc.frame_moved(from, to).frames;
        assert forall|i: int| 0 <= i < after.len() implies (#[trigger] after[i]).wf() by {
            let rest = doc.frames.remove(from);
            if i < to {
                assert(after[i] == rest[i]);
                assert(rest[i] == doc.frames[if i < from {
                    i
                } else {
                    i + 1
                }]);
            } else if i > to {
                assert(after[i] == rest[i - 1]);
                assert(rest[i - 1] == doc.frames[if i - 1 < from {
                    i - 1
                } else {
                    i
                }]);
            } else {
                assert(after[i] == doc.frames[from]);
            }
        }
    }
}

/// Moving a set of frames keeps a document sound.
pub proof fn law_set_move_keeps_sound(doc: DocView, picked: Seq<usize>, to: int)
    requires
        doc.sound(),
        places(picked, doc.frames.len()),
        0 <= to,
        doc.frames.len() < usize::MAX,
        doc.next_id + (2 * picked.len() + 1) * doc.overlays.len() <= u32::MAX,
    ensures
        doc.set_moved(picked, to).sound(),
        doc.set_moved(picked, to).frames.len() == doc.frames.len(),
{
    law_set_move_keeps_soundness(doc, picked, to);
    lemma_hopped_whole(doc, picked, to, picked.len());
}

proof fn lemma_hopped_whole(doc: DocView, picked: Seq<usize>, to: int, t: nat)
    requires
        doc.frames_sound(),
    ensures
        doc.hopped(picked, to, t).frames_sound(),
    decreases t,
{
    if t > 0 {
        lemma_hopped_whole(doc, picked, to, (t - 1) as nat);
        let k = crate::drag::hop(picked, to, t - 1);
        lemma_moved_whole(doc.hopped(picked, to, (t - 1) as nat), picked[k] as int, to + k);
    }
}

/// Setting delays keeps a document sound.
pub proof fn law_delay_keeps_sound(doc: DocView, p: spec_fn(int) -> bool, delay_cs: u16)
    requires
        doc.sound(),
    ensures
        doc.delayed(p, delay_cs).sound(),
{
    let after = doc.delayed(p, delay_cs);
    assert forall|i: int| 0 <= i < after.frames.len() implies (#[trigger] after.frames[i]).wf() by {
        assert(doc.frames[i].wf());
    }
}

/// Reversing frames keeps a document sound.
pub proof fn law_reverse_keeps_sound(doc: DocView, range: Range<usize>)
    requires
        doc.sound(),
        range.start <= range.end <= doc.frames.len(),
    ensures
        (DocView { frames: reversed(doc.frames, range), ..doc }).sound(),
{
    let after = reversed(doc.frames, range);
    assert forall|i: int| 0 <= i < after.len() implies (#[trigger] after[i]).wf() by {
        if range.start <= i < range.end {
            assert(after[i] == doc.frames[range.start + range.end - 1 - i]);
        } else {
            assert(after[i] == doc.frames[i]);
        }
    }
}

/// Editing an overlay on some of its frames keeps a document sound.
pub proof fn law_edit_keeps_sound(doc: DocView, i: int, edit: Range<usize>, edited: Overlay)
    requires
        doc.sound(),
        0 <= i < doc.overlays.len(),
        doc.overlays[i].range.start <= edit.start < edit.end <= doc.overlays[i].range.end,
        doc.next_id + 2 <= u32::MAX,
        edited.id == doc.piece(i, edit).id,
        edited.range == edit,
    ensures
        doc.split(i, edit, edited).sound(),
        doc.split(i, edit, edited).frames == doc.frames,
{
    law_edit_keeps_ids_sound(doc, i, edit, edited);
    let after = doc.split(i, edit, edited);
    assert forall|j: int| 0 <= j < after.overlays.len() implies (
    #[trigger] after.overlays[j]).range.start < after.overlays[j].range.end
        <= after.frames.len() by {
        let o = doc.overlays[i];
        if doc.is_whole(i, edit) {
            assert(after.overlays[j] == if j == i {
                edited
            } else {
                doc.overlays[j]
            });
        } else if edit.start == o.range.start {
            if j < i {
                assert(after.overlays[j] == doc.overlays[j]);
            } else if j > i + 1 {
                assert(after.overlays[j] == doc.overlays[j - 1]);
            }
        } else if edit.end == o.range.end {
            if j < i {
                assert(after.overlays[j] == doc.overlays[j]);
            } else if j > i + 1 {
                assert(after.overlays[j] == doc.overlays[j - 1]);
            }
        } else {
            if j < i {
                assert(after.overlays[j] == doc.overlays[j]);
            } else if j > i + 2 {
                assert(after.overlays[j] == doc.overlays[j - 2]);
            }
        }
    }
}

/// Adding overlays keeps a document sound.
pub proof fn law_adding_keeps_sound(doc: DocView, o: Overlay, ranges: Seq<Range<usize>>)
    requires
        doc.sound(),
        doc.next_id + ranges.len() <= u32::MAX,
        forall|k: int|
            0 <= k < ranges.len() ==> (#[trigger] ranges[k]).start < ranges[k].end
                <= doc.frames.len(),
    ensures
        doc.with_overlays(o, ranges).sound(),
{
    let after = doc.with_overlays(o, ranges);
    let added = on_each(o, ranges, doc.next_id as int);
    let old_len = doc.overlays.len() as int;
    assert forall|i: int| 0 <= i < after.overlays.len() implies (
    #[trigger] after.overlays[i]).range.start < after.overlays[i].range.end <= after.frames.len()
        && after.overlays[i].id.0 < after.next_id by {
        if i < old_len {
            assert(after.overlays[i] == doc.overlays[i]);
        } else {
            assert(after.overlays[i] == added[i - old_len]);
            assert(ranges[i - old_len].start < ranges[i - old_len].end);
        }
    }
    assert forall|i: int, j: int| 0 <= i < j < after.overlays.len() implies (
    #[trigger] after.overlays[i]).id != (#[trigger] after.overlays[j]).id by {
        if j < old_len {
            assert(after.overlays[i] == doc.overlays[i]);
            assert(after.overlays[j] == doc.overlays[j]);
        } else {
            assert(after.overlays[j] == added[j - old_len]);
            if i < old_len {
                assert(after.overlays[i] == doc.overlays[i]);
            } else {
                assert(after.overlays[i] == added[i - old_len]);
            }
        }
    }
}

/// Removing an overlay keeps a document sound.
pub proof fn law_removing_keeps_sound(doc: DocView, i: int)
    requires
        doc.sound(),
        0 <= i < doc.overlays.len(),
    ensures
        (DocView { overlays: doc.overlays.remove(i), ..doc }).sound(),
{
    let after = doc.overlays.remove(i);
    assert forall|j: int| 0 <= j < after.len() implies #[trigger] after[j] == doc.overlays[if j < i {
        j
    } else {
        j + 1
    }] by {}
}

/// Restacking an overlay keeps a document sound.
pub proof fn law_restacking_keeps_sound(doc: DocView, id: OverlayId, other: OverlayId, above: bool)
    requires
        doc.sound(),
    ensures
        doc.restacked(id, other, above).sound(),
{
    let from = find_id(doc.overlays, id, 0);
    let rest = doc.overlays.remove(from);
    let target = find_id(rest, other, 0);
    lemma_find_id(doc.overlays, id, 0);
    if !(id == other || from == doc.overlays.len() || target == rest.len()) {
        lemma_find_id(rest, other, 0);
        law_removing_keeps_sound(doc, from);
        let at = if above {
            target + 1
        } else {
            target
        };
        let after = doc.restacked(id, other, above);
        let source = |j: int|
            if j == at {
                from
            } else {
                let k = if j < at {
                    j
                } else {
                    j - 1
                };
                if k < from {
                    k
                } else {
                    k + 1
                }
            };
        assert forall|j: int| 0 <= j < after.overlays.len() implies #[trigger] after.overlays[j]
            == doc.overlays[source(j)] && 0 <= source(j) < doc.overlays.len() by {}
        assert forall|i: int, j: int| 0 <= i < j < after.overlays.len() implies (
        #[trigger] after.overlays[i]).id != (#[trigger] after.overlays[j]).id by {
            assert(source(i) != source(j));
        }
    }
}

/// Changing what an overlay draws, and where, keeps a document sound.
pub proof fn law_redrawing_keeps_sound(doc: DocView, i: int, o: Overlay)
    requires
        doc.sound(),
        0 <= i < doc.overlays.len(),
        o.id == doc.overlays[i].id,
        o.range == doc.overlays[i].range,
    ensures
        (DocView { overlays: doc.overlays.update(i, o), ..doc }).sound(),
{
}

/// Moving and scaling the overlays keeps a document sound.
pub proof fn law_scaling_keeps_sound(doc: DocView, boxes: Seq<OverlayBox>)
    requires
        doc.sound(),
    ensures
        (DocView { overlays: scaled_overlays(doc.overlays, boxes), ..doc }).sound(),
{
    let after = scaled_overlays(doc.overlays, boxes);
    assert forall|i: int| 0 <= i < after.len() implies (#[trigger] after[i]).id
        == doc.overlays[i].id && after[i].range == doc.overlays[i].range by {}
}

/// Putting whole frames in the place of others keeps a document sound.
pub proof fn law_putting_keeps_sound(doc: DocView, list: Seq<(usize, FrameView)>)
    requires
        doc.sound(),
        forall|k: int| 0 <= k < list.len() ==> (#[trigger] list[k]).1.wf(),
    ensures
        (DocView { frames: with_frames(doc.frames, list), ..doc }).sound(),
        with_frames(doc.frames, list).len() == doc.frames.len(),
{
    assert(whole(doc.frames));
    lemma_put_whole(doc.frames, list);
}

proof fn lemma_put_whole(frames: Seq<FrameView>, list: Seq<(usize, FrameView)>)
    requires
        whole(frames),
        forall|k: int| 0 <= k < list.len() ==> (#[trigger] list[k]).1.wf(),
    ensures
        whole(with_frames(frames, list)),
        with_frames(frames, list).len() == frames.len(),
    decreases list.len(),
{
    if list.len() > 0 {
        assert forall|k: int| 0 <= k < list.len() - 1 implies (#[trigger] list.drop_last()[k]).1.wf() by {
            assert(list[k].1.wf());
        }
        assert(list[list.len() - 1].1.wf());
        lemma_put_whole(frames, list.drop_last());
    }
}

/// Frames put on the end keep a document sound.
pub proof fn law_appending_keeps_sound(doc: DocView, run: Seq<FrameView>)
    requires
        doc.sound(),
        whole(run),
    ensures
        (DocView { frames: doc.frames + run, ..doc }).sound(),
{
    let after = doc.frames + run;
    assert forall|i: int| 0 <= i < after.len() implies (#[trigger] after[i]).wf() by {
        if i >= doc.frames.len() {
            assert(after[i] == run[i - doc.frames.len()]);
        }
    }
}

} // verus!
