//! What every message keeps: the documents of the history stay sound, and what
//! is on screen and picked stays in the strip.

use vstd::prelude::*;

use crate::answers::{made_by, picked_after};
use crate::app::{duplicated, kept_sound, last_at_most, overlay_edited, Aid, AppView, EffectView};
use crate::arrange::reversed;
use crate::canvas::{below, sized};
use crate::document::{find_id, lemma_find_id, DocView};
use crate::drag::{items_at, law_set_lands_as_one_run, lemma_removed_all, places};
use crate::edits::{carried_to, with_text};
use crate::group::{law_runs, lemma_runs_len, runs};
use crate::history::{ChangeView, Step};
use crate::model::{FrameView, Overlay, OverlayId, Transform};
use crate::motion::{low_motion, scores};
use crate::msg::{FrameOp, Msg, OverlayProp, ScopeChoice, Tool};
use crate::scope::{lemma_ascending, picks};
use crate::selection::{
    count_below, law_the_rest_close_up, lemma_count_below, lemma_rising_from, lemma_same_set, rising,
    run, run_of,
};
use crate::soundness::{
    law_adding_keeps_sound, law_delay_keeps_sound, law_edit_keeps_sound, law_insert_keeps_sound,
    law_move_keeps_sound, law_redrawing_keeps_sound, law_removing_keeps_sound,
    law_restacking_keeps_sound, law_retain_keeps_sound, law_reverse_keeps_sound,
    law_set_move_keeps_sound, whole,
};

verus! {

/// There is room for the copies one frame's move makes.
pub proof fn lemma_room_for_one(app: AppView)
    requires
        app.wf(),
        app.roomy(),
    ensures
        app.doc().next_id + app.doc().overlays.len() <= u32::MAX,
        app.doc().ranges_fit(1),
        app.count() < usize::MAX,
{
    let (count, overlays) = (app.count(), app.doc().overlays.len());
    assert(overlays <= (2 * count + 1) * overlays) by (nonlinear_arith);
}

/// There is room for the copies the move of a set makes.
pub proof fn lemma_room_for_set(app: AppView, picked: nat)
    requires
        app.roomy(),
        picked <= app.count(),
    ensures
        app.doc().next_id + (2 * picked + 1) * app.doc().overlays.len() <= u32::MAX,
{
    let (count, overlays) = (app.count(), app.doc().overlays.len());
    assert((2 * picked + 1) * overlays <= (2 * count + 1) * overlays) by (nonlinear_arith)
        requires
            picked <= count,
    ;
}

/// Moving a set of frames moves no frame in or out.
pub proof fn lemma_set_move_keeps_count(app: AppView, picked: Seq<usize>, to: int)
    requires
        app.wf(),
        app.roomy(),
        0 <= to,
    ensures
        app.picked_moved(picked, to).count() == app.count(),
        app.doc().set_moved(app.doc().picked_frames(picked), to).sound(),
{
    let set = app.doc().picked_frames(picked);
    lemma_ascending(app.count(), |i: int| picks(picked, i));
    lemma_room_for_set(app, set.len());
    law_set_move_keeps_sound(app.doc(), set, to);
}

/// Putting an overlay in another box keeps the app sound.
pub proof fn lemma_placed_keeps_wf(app: AppView, id: OverlayId, t: Transform)
    requires
        app.wf(),
    ensures
        app.placed(id, t).wf(),
        app.placed(id, t).count() == app.count(),
        app.roomy() ==> app.placed(id, t).roomy(),
{
    let i = find_id(app.doc().overlays, id, 0);
    lemma_find_id(app.doc().overlays, id, 0);
    if i < app.doc().overlays.len() {
        law_redrawing_keeps_sound(
            app.doc(),
            i,
            Overlay { transform: t, ..app.doc().overlays[i] },
        );
    }
}


/// Keeping the indices below `n` keeps them in order.
pub proof fn lemma_below_rising(indices: Seq<usize>, n: nat)
    requires
        rising(indices),
    ensures
        rising(below(indices, n)),
        forall|k: int| 0 <= k < below(indices, n).len() ==> #[trigger] below(indices, n)[k] < n,
        forall|k: int|
            0 <= k < below(indices, n).len() ==> picks(
                indices,
                #[trigger] below(indices, n)[k] as int,
            ),
    decreases indices.len(),
{
    if indices.len() > 0 {
        let rest = indices.drop_last();
        let last = indices.last();
        assert(rising(rest)) by {
            assert forall|a: int, b: int| 0 <= a < b < rest.len() implies rest[a] < rest[b] by {
                assert(indices[a] < indices[b]);
            }
        }
        lemma_below_rising(rest, n);
        let before = below(rest, n);
        let after = below(indices, n);
        assert(indices[indices.len() - 1] == last);
        assert forall|k: int| 0 <= k < before.len() implies picks(
            indices,
            #[trigger] before[k] as int,
        ) && before[k] < last by {
            let j = choose|j: int| 0 <= j < rest.len() && #[trigger] rest[j] == before[k];
            assert(indices[j] == before[k]);
            assert(indices[j] < indices[indices.len() - 1]);
        }
        if last < n {
            assert(picks(indices, last as int));
            assert forall|a: int, b: int| 0 <= a < b < after.len() implies after[a] < after[b] by {
                if b < before.len() {
                    assert(before[a] < before[b]);
                } else {
                    assert(after[a] == before[a]);
                }
            }
            assert forall|k: int| 0 <= k < after.len() implies #[trigger] after[k] < n && picks(
                indices,
                after[k] as int,
            ) by {
                if k < before.len() {
                    assert(after[k] == before[k]);
                }
            }
        }
    }
}

/// Whatever follows an edit puts everything back in the strip.
pub proof fn lemma_settled_wf(app: AppView)
    requires
        app.history_sound(),
        whole(app.clipboard),
        rising(app.selection),
        app.keymap@.wf(),
    ensures
        app.settled().wf(),
{
    lemma_below_rising(app.selection, app.count());
}

/// An edit that leaves a sound document leaves a sound history.
pub proof fn lemma_edited_sound(app: AppView, label: Seq<char>, touched: int, doc: DocView)
    requires
        app.history_sound(),
        doc.sound(),
        doc.frames.len() <= usize::MAX,
    ensures
        app.edited(label, touched, doc).history_sound(),
{
    let after = app.edited(label, touched, doc);
    let step = Step {
        change: ChangeView { label, frames_touched: touched as usize },
        doc: app.doc(),
    };
    let pushed = app.editor.past.push(step);
    assert forall|i: int| 0 <= i < after.editor.past.len() implies kept_sound(
        (#[trigger] after.editor.past[i]).doc,
    ) by {
        let skipped = pushed.len() - after.editor.past.len();
        assert(after.editor.past[i] == pushed[i + skipped]);
    }
}

/// After an edit, settled: `done` is the state with the edited history and
/// whatever it shows and picks.
pub proof fn lemma_done(
    app: AppView,
    label: Seq<char>,
    touched: int,
    doc: DocView,
    done: AppView,
)
    requires
        app.wf(),
        doc.sound(),
        doc.frames.len() <= usize::MAX,
        done.editor == app.edited(label, touched, doc).editor,
        whole(done.clipboard),
        rising(done.selection),
        done.keymap@.wf(),
    ensures
        done.settled().wf(),
{
    lemma_edited_sound(app, label, touched, doc);
    lemma_settled_wf(done);
}

/// What the scope names is in order, and in the strip.
pub proof fn lemma_scope_frames(app: AppView)
    requires
        app.count() <= usize::MAX,
    ensures
        rising(app.scope_frames()),
        app.scope_frames().len() <= app.count(),
        forall|k: int|
            0 <= k < app.scope_frames().len() ==> #[trigger] app.scope_frames()[k] < app.count(),
{
    lemma_ascending(app.count(), |i: int| app.names(i));
}

proof fn lemma_duplicated(doc: DocView, picked: Seq<usize>)
    requires
        doc.sound(),
        doc.frames.len() + picked.len() <= usize::MAX,
    ensures
        duplicated(doc, picked).sound(),
        duplicated(doc, picked).frames.len() <= doc.frames.len() + picked.len(),
    decreases picked.len(),
{
    if picked.len() > 0 {
        let at = picked.last() as int;
        if at < doc.frames.len() {
            assert(whole(seq![doc.frames[at]]));
            law_insert_keeps_sound(doc, at + 1, seq![doc.frames[at]]);
            lemma_duplicated(doc.with_run(at + 1, seq![doc.frames[at]]), picked.drop_last());
        } else {
            lemma_duplicated(doc, picked.drop_last());
        }
    }
}

proof fn lemma_without_sound(doc: DocView, doomed: spec_fn(int) -> bool)
    requires
        doc.sound(),
        doc.frames.len() <= usize::MAX,
    ensures
        doc.without(doomed).sound(),
        doc.without(doomed).frames.len() <= doc.frames.len(),
{
    law_retain_keeps_sound(doc, Seq::new(doc.frames.len(), |i: int| !doomed(i)));
}

proof fn lemma_frames_done_wf(app: AppView, op: FrameOp, frames: Seq<usize>)
    requires
        app.wf(),
        app.roomy(),
        rising(frames),
        frames.len() <= app.count(),
        forall|k: int| 0 <= k < frames.len() ==> #[trigger] frames[k] < app.count(),
    ensures
        app.frames_done(op, frames).0.wf(),
{
    if app.count() > 0 && frames.len() > 0 {
        let doc = app.doc();
        lemma_without_sound(doc, |i: int| picks(frames, i));
        lemma_duplicated(doc, frames);
        let range = std::ops::Range { start: frames[0], end: (frames.last() + 1) as usize };
        lemma_rising_from(frames, 0, frames.len() - 1);
        assert(frames[frames.len() - 1] < app.count());
        law_reverse_keeps_sound(doc, range);
        let copied = items_at(doc.frames, frames);
        assert(whole(copied)) by {
            assert forall|k: int| 0 <= k < copied.len() implies (#[trigger] copied[k]).wf() by {
                assert(frames[k] < app.count());
            }
        }
        let after = match op {
            FrameOp::Delete => doc.without(|i: int| picks(frames, i)),
            FrameOp::Cut => doc.without(|i: int| picks(frames, i)),
            FrameOp::Duplicate => duplicated(doc, frames),
            FrameOp::Reverse => DocView { frames: reversed(doc.frames, range), ..doc },
        };
        let label = match op {
            FrameOp::Delete => "Frames deleted"@,
            FrameOp::Cut => "Frames cut"@,
            FrameOp::Duplicate => "Frames duplicated"@,
            FrameOp::Reverse => "Frames reversed"@,
        };
        let kept = if op == FrameOp::Cut {
            app.with_copied(frames)
        } else {
            app
        };
        let done = AppView {
            playhead: if op == FrameOp::Delete || op == FrameOp::Cut {
                frames[0]
            } else {
                app.playhead
            },
            selection: seq![],
            scope: if app.scope == ScopeChoice::Range {
                ScopeChoice::ThisFrame
            } else {
                app.scope
            },
            ..kept.edited(label, frames.len() as int, after)
        };
        lemma_done(app, label, frames.len() as int, after, done);
        assert(app.frames_done(op, frames).0 == done.settled());
    }
}

proof fn lemma_pasted_wf(app: AppView)
    requires
        app.wf(),
        app.roomy(),
        app.clipboard.len() > 0,
    ensures
        app.pasted().wf(),
{
    let n = app.clipboard.len() as int;
    let at = if app.count() == 0 {
        0
    } else {
        app.playhead + 1
    };
    law_insert_keeps_sound(app.doc(), at, app.clipboard);
    let after = app.doc().with_run(at, app.clipboard);
    let done = app.edited("Frames pasted"@, n, after);
    let shown = AppView { playhead: (at + n - 1) as usize, ..done };
    let picked = if n > 1 {
        AppView {
            selection: run_of(at, n),
            anchor: Some(at as usize),
            scope: ScopeChoice::Range,
            ..shown
        }
    } else {
        AppView { selection: seq![], scope: ScopeChoice::ThisFrame, ..shown }
    };
    assert(rising(picked.selection));
    lemma_done(app, "Frames pasted"@, n, after, picked);
}

proof fn lemma_picked_moved_wf(app: AppView, picked: Seq<usize>, to: int)
    requires
        app.wf(),
        app.roomy(),
        0 <= to,
        to + picked.len() <= usize::MAX,
    ensures
        app.picked_moved(picked, to).wf(),
{
    lemma_set_move_keeps_count(app, picked, to);
    let after = app.doc().set_moved(app.doc().picked_frames(picked), to);
    let moved = app.edited("Frames moved"@, picked.len() as int, after);
    let ridden = AppView {
        playhead: carried_to(picked, to, app.count() as int, app.playhead as int) as usize,
        ..moved
    };
    let followed = if picked.len() > 1 {
        AppView {
            selection: run_of(to, picked.len() as int),
            anchor: Some(to as usize),
            scope: ScopeChoice::Range,
            ..ridden
        }
    } else {
        ridden
    };
    assert(rising(followed.selection));
    lemma_done(app, "Frames moved"@, picked.len() as int, after, followed);
}

/// After a set of frames moved, the frame on screen is the one that was there.
pub proof fn law_the_playhead_rides_its_frame(app: AppView, picked: Seq<usize>, to: int)
    requires
        app.wf(),
        app.roomy(),
        app.count() > 0,
        picked.len() > 0,
        places(picked, app.count()),
        0 <= to,
        to + picked.len() <= app.count(),
    ensures
        ({
            let after = app.picked_moved(picked, to);
            &&& after.playhead < after.count()
            &&& after.doc().frames[after.playhead as int] == app.doc().frames[app.playhead as int]
        }),
{
    let (frames, p) = (app.doc().frames, app.playhead as int);
    let set = app.doc().picked_frames(picked);
    lemma_ascending(app.count(), |i: int| picks(picked, i));
    assert(rising(picked));
    assert forall|i: int| picks(set, i) == #[trigger] picks(picked, i) by {
        if picks(picked, i) {
            let k = choose|k: int| 0 <= k < picked.len() && #[trigger] picked[k] == i;
            assert(picked[k] < app.count());
            assert(set.contains(picked[k]));
            let j = choose|j: int| 0 <= j < set.len() && set[j] == picked[k];
            assert(set[j] == i);
        }
    }
    lemma_same_set(set, picked);
    law_set_lands_as_one_run(app.doc(), picked, to);
    lemma_set_move_keeps_count(app, picked, to);
    lemma_count_below(picked, p);
    let moved = app.doc().set_moved(picked, to).frames;
    if picks(picked, p) {
        let k = choose|k: int| 0 <= k < picked.len() && #[trigger] picked[k] == p;
        let n = count_below(picked, p) as int;
        if n < k {
            assert(picked[n] < picked[k]);
        }
        assert(k == n);
        lemma_removed_all(frames, picked);
        assert(moved[to + n] == items_at(frames, picked)[n]);
    } else {
        law_the_rest_close_up(frames, picked, p);
    }
}

proof fn lemma_move_set_wf(app: AppView, picked: Seq<usize>, gap: int)
    requires
        app.wf(),
        app.roomy(),
        rising(picked),
        0 <= gap,
        gap + picked.len() <= usize::MAX,
    ensures
        app.on_move_set(picked, gap).0.wf(),
{
    lemma_count_below(picked, gap);
    lemma_picked_moved_wf(app, picked, gap - count_below(picked, gap));
}

/// An edit that changes neither an overlay's id nor its frames keeps the app
/// sound.
pub proof fn lemma_overlay_changed_wf(
    app: AppView,
    label: Seq<char>,
    id: OverlayId,
    f: spec_fn(Overlay) -> Overlay,
)
    requires
        app.wf(),
        app.roomy(),
        app.reaches(id),
        forall|o: Overlay| (#[trigger] f(o)).id == o.id && f(o).range == o.range,
    ensures
        app.overlay_changed(label, id, f).wf(),
{
    let doc = app.doc();
    let i = find_id(doc.overlays, id, 0);
    let span = app.span_for(id);
    let edit = doc.edited_frames(i, span);
    lemma_find_id(doc.overlays, id, 0);
    let (after, landed) = overlay_edited(doc, id, span, f);
    let o = doc.overlays[i];
    assert(i < doc.overlays.len());
    assert(o.range.start < o.range.end <= doc.frames.len());
    assert(edit.start == span.start && edit.end == span.end);
    let piece = doc.piece(i, edit);
    assert(piece.range == edit) by {
        if doc.is_whole(i, edit) {
            assert(piece.range.start == edit.start && piece.range.end == edit.end);
        }
    }
    assert(f(piece).id == piece.id && f(piece).range == piece.range);
    law_edit_keeps_sound(doc, i, edit, f(piece));
    let done = AppView {
        selected_overlay: Some(landed),
        ..app.edited(label, span.end - span.start, after)
    };
    lemma_done(app, label, span.end - span.start, after, done);
}

proof fn lemma_overlay_added_wf(app: AppView, tool: Tool, o: Overlay)
    requires
        app.wf(),
        app.roomy(),
        app.scope_frames().len() > 0,
    ensures
        app.overlay_added(tool, o).0.wf(),
{
    let frames = app.scope_frames();
    let ranges = runs(frames);
    let doc = app.doc();
    lemma_scope_frames(app);
    lemma_runs_len(frames);
    law_runs(frames);
    assert(frames[frames.len() - 1] < app.count());
    assert forall|k: int| 0 <= k < ranges.len() implies (#[trigger] ranges[k]).start
        < ranges[k].end <= doc.frames.len() by {
        if k < ranges.len() - 1 {
            assert(ranges[k].end < ranges[ranges.len() - 1].start);
            assert(ranges[ranges.len() - 1].start < ranges[ranges.len() - 1].end);
        }
    }
    law_adding_keeps_sound(doc, o, ranges);
    let k = crate::answers::run_with(ranges, app.playhead as int, 0);
    let at = if k < ranges.len() {
        k
    } else {
        0
    };
    let after = doc.with_overlays(o, ranges);
    let done = AppView {
        selected_overlay: Some(OverlayId((doc.next_id + at) as u32)),
        ..app.edited(crate::answers::added_label(tool), frames.len() as int, after)
    };
    lemma_done(app, crate::answers::added_label(tool), frames.len() as int, after, done);
}

proof fn lemma_overlay_deleted_wf(app: AppView, id: OverlayId)
    requires
        app.wf(),
        app.roomy(),
    ensures
        app.overlay_deleted(id).0.wf(),
{
    let i = find_id(app.doc().overlays, id, 0);
    lemma_find_id(app.doc().overlays, id, 0);
    if i < app.doc().overlays.len() {
        let after = DocView { overlays: app.doc().overlays.remove(i), ..app.doc() };
        law_removing_keeps_sound(app.doc(), i);
        lemma_done(
            app,
            "Overlay deleted"@,
            app.width_of(id),
            after,
            app.edited("Overlay deleted"@, app.width_of(id), after),
        );
    }
}

proof fn lemma_restacked_wf(app: AppView, id: OverlayId, up: bool)
    requires
        app.wf(),
        app.roomy(),
    ensures
        app.restacked(id, up).wf(),
{
    match app.neighbour(id, up) {
        Some(other) => {
            law_restacking_keeps_sound(app.doc(), id, other, up);
            let after = app.doc().restacked(id, other, up);
            let done = AppView {
                selected_overlay: Some(id),
                ..app.edited("Overlay reordered"@, app.width_of(id), after)
            };
            lemma_done(app, "Overlay reordered"@, app.width_of(id), after, done);
        },
        None => {},
    }
}

proof fn lemma_delete_selection_wf(app: AppView)
    requires
        app.wf(),
        app.roomy(),
    ensures
        app.on_delete_selection().0.wf(),
{
    match app.selected_overlay {
        Some(id) => {
            lemma_overlay_deleted_wf(AppView { selected_overlay: None, ..app }, id);
        },
        None => {
            let picked = app.selection;
            let after = app.doc().without(|i: int| picks(picked, i));
            lemma_without_sound(app.doc(), |i: int| picks(picked, i));
            let edited = app.edited("Frames deleted"@, picked.len() as int, after);
            let done = AppView {
                selection: seq![],
                playhead: last_at_most(app.playhead as int, edited.count() as int) as usize,
                scope: ScopeChoice::ThisFrame,
                ..edited
            };
            lemma_done(app, "Frames deleted"@, picked.len() as int, after, done);
        },
    }
}

proof fn lemma_image_wf(
    app: AppView,
    at: int,
    delay: u16,
    img: Option<crate::raster::Raster>,
    frame: FrameView,
)
    requires
        app.wf(),
        app.roomy(),
        0 <= at <= app.count(),
        img matches Some(img) ==> frame == crate::work::image_frame(
            img@,
            app.doc().size(),
            delay,
            app.next_key,
        ) && frame.wf(),
    ensures
        app.on_image(at, delay, img).0.wf(),
{
    match img {
        Some(img) => {
            let run = seq![frame];
            assert(whole(run));
            law_insert_keeps_sound(app.doc(), at, run);
            let taken = AppView { next_key: crate::model::next_key(app.next_key), ..app };
            let after = app.doc().with_run(at, run);
            let done = AppView {
                playhead: at as usize,
                ..taken.edited("Frame added"@, 1, after)
            };
            lemma_done(taken, "Frame added"@, 1, after, done);
        },
        None => {},
    }
}

proof fn lemma_delays_wf(app: AppView, p: spec_fn(int) -> bool, cs: u16, touched: int)
    requires
        app.wf(),
        app.roomy(),
    ensures
        app.edited("Delay set"@, touched, app.doc().delayed(p, cs)).settled().wf(),
{
    let after = app.doc().delayed(p, cs);
    law_delay_keeps_sound(app.doc(), p, cs);
    lemma_done(app, "Delay set"@, touched, after, app.edited("Delay set"@, touched, after));
}

proof fn lemma_thinned_wf(app: AppView, doomed: spec_fn(int) -> bool, touched: int)
    requires
        app.wf(),
        app.roomy(),
    ensures
        (AppView {
            playhead: 0,
            ..app.edited("Frames removed"@, touched, app.doc().without(doomed))
        }).settled().wf(),
{
    let after = app.doc().without(doomed);
    lemma_without_sound(app.doc(), doomed);
    let done = AppView { playhead: 0, ..app.edited("Frames removed"@, touched, after) };
    lemma_done(app, "Frames removed"@, touched, after, done);
}

proof fn lemma_move_frame_wf(app: AppView, from: usize, to: usize)
    requires
        app.wf(),
        app.roomy(),
    ensures
        app.on_move_frame(from, to).0.wf(),
{
    lemma_room_for_one(app);
    law_move_keeps_sound(app.doc(), from as int, to as int);
    let after = app.doc().frame_moved(from as int, to as int);
    let done = AppView { playhead: to, ..app.edited("Frame moved"@, 1, after) };
    lemma_done(app, "Frame moved"@, 1, after, done);
}

proof fn lemma_history_wf(app: AppView)
    requires
        app.wf(),
        app.roomy(),
    ensures
        app.on_undo().wf(),
        app.on_redo().wf(),
{
    if app.editor.past.len() > 0 {
        let after = AppView { editor: app.editor.undone(), ..app };
        assert(kept_sound(app.editor.past[app.editor.past.len() - 1].doc));
        lemma_settled_wf(after);
    }
    if app.editor.future.len() > 0 {
        let after = AppView { editor: app.editor.redone(), ..app };
        assert(kept_sound(app.editor.future[app.editor.future.len() - 1].doc));
        lemma_settled_wf(after);
    }
}

proof fn lemma_toggle_wf(app: AppView, i: int)
    requires
        app.wf(),
        app.roomy(),
        0 <= i,
    ensures
        app.on_toggle(i).wf(),
        app.extended(i).wf(),
{
    let at = last_at_most(i, app.count() as int);
    let start = if app.selection.len() == 0 {
        seq![app.playhead]
    } else {
        app.selection
    };
    lemma_ascending(app.room() as nat, |k: int| picked_after(start, at, k));
}

proof fn lemma_copied_wf(app: AppView, frames: Seq<usize>)
    requires
        app.wf(),
        forall|k: int| 0 <= k < frames.len() ==> #[trigger] frames[k] < app.count(),
    ensures
        app.with_copied(frames).wf(),
{
    let copied = items_at(app.doc().frames, frames);
    assert forall|k: int| 0 <= k < copied.len() implies (#[trigger] copied[k]).wf() by {
        assert(frames[k] < app.count());
    }
}

proof fn lemma_sought_overlay_wf(app: AppView, id: OverlayId)
    requires
        app.wf(),
    ensures
        app.sought_overlay(id).wf(),
        app.roomy() ==> app.sought_overlay(id).roomy(),
{
}

proof fn lemma_set_prop_wf(app: AppView, prop: OverlayProp, resized: bool)
    requires
        app.wf(),
        app.roomy(),
    ensures
        app.on_set_prop(prop, resized).wf(),
{
    match app.selected_overlay {
        Some(id) => {
            lemma_sought_overlay_wf(app, id);
            let shown = app.sought_overlay(id);
            if shown.reaches(id) {
                lemma_overlay_changed_wf(
                    shown,
                    "Overlay restyled"@,
                    id,
                    |o: Overlay| Overlay { kind: prop.applied(o.kind), ..o },
                );
            }
        },
        None => {},
    }
}

proof fn lemma_edit_text_wf(app: AppView, text: String)
    requires
        app.wf(),
        app.roomy(),
    ensures
        app.on_edit_text(text).wf(),
{
    match app.selected_overlay {
        Some(id) => {
            if app.reaches(id) {
                lemma_overlay_changed_wf(
                    app,
                    "Text edited"@,
                    id,
                    |o: Overlay| with_text(o, text),
                );
            }
        },
        None => {},
    }
}

proof fn lemma_release_wf(app: AppView)
    requires
        app.wf(),
        app.roomy(),
    ensures
        app.on_release().0.wf(),
{
    let still = AppView { drag: None, ..app };
    match (app.drag, app.selected_overlay) {
        (Some(drag), Some(id)) => {
            if drag.moved && drag.mode != crate::app::DragMode::CropRect {
                lemma_placed_keeps_wf(still, id, drag.origin);
                let back = still.placed(id, drag.origin);
                if back.reaches(id) {
                    lemma_overlay_changed_wf(
                        back,
                        AppView::drag_label(drag.mode),
                        id,
                        |o: Overlay| Overlay { transform: drag.current, ..o },
                    );
                }
            }
        },
        _ => {},
    }
}

proof fn lemma_drag_wf(app: AppView, away: bool, dragged: Transform, crop: crate::app::CropBox)
    requires
        app.wf(),
        app.roomy(),
    ensures
        app.on_drag(away, dragged, crop).wf(),
{
    match (app.drag, app.selected_overlay) {
        (Some(drag), Some(id)) => {
            let after = AppView {
                drag: Some(crate::app::Drag { moved: true, current: dragged, ..drag }),
                rev: (app.rev + 1) as u64,
                ..app
            };
            lemma_placed_keeps_wf(after, id, dragged);
        },
        _ => {},
    }
}

#[verifier::rlimit(40)]
proof fn lemma_frame_edits_keep_sound(
    app: AppView,
    msg: Msg,
    aid: Aid,
    after: AppView,
    effect: EffectView,
)
    requires
        app.wf(),
        app.roomy(),
        app.fits(msg, aid),
        app.answered(msg, aid, after, effect),
        !app.blocked(msg),
        msg is FrameOp
            || msg is FrameCopy
            || msg is FramePaste
            || msg is MoveSelection
            || msg is MoveSelectionTo
            || msg is SetScopeDelay
            || msg is SetAllFramesDelay,
    ensures
        after.wf(),
{
    lemma_scope_frames(app);
    let frames = app.scope_frames();
    match msg {
        Msg::FrameOp(op) => {
            lemma_frames_done_wf(app, op, frames);
        },
        Msg::FrameCopy => {
            lemma_copied_wf(app, frames);
        },
        Msg::FramePaste => {
            if app.clipboard.len() > 0 {
                lemma_pasted_wf(app);
            }
        },
        Msg::MoveSelection { earlier } => {
            match crate::selection::nudge_gap(frames, earlier, app.count() as int) {
                Some(gap) => {
                    assert(frames[frames.len() - 1] < app.count());
                    lemma_move_set_wf(app, frames, gap);
                },
                None => {},
            }
        },
        Msg::MoveSelectionTo { from, gap } => {
            let picked = if app.selection.len() > 1 && picks(app.selection, from as int) {
                app.selection
            } else {
                seq![from]
            };
            if app.selection.len() > 0 {
                lemma_rising_from(app.selection, 0, app.selection.len() - 1);
                assert(app.selection[app.selection.len() - 1] < app.room());
            }
            lemma_move_set_wf(app, picked, gap as int);
        },
        Msg::SetScopeDelay(cs) => {
            lemma_delays_wf(
                app,
                |i: int| picks(frames, i),
                crate::answers::shown_delay(cs),
                frames.len() as int,
            );
        },
        Msg::SetAllFramesDelay(cs) => {
            let total = app.count();
            lemma_delays_wf(
                app,
                |i: int| 0 <= i < total,
                crate::answers::shown_delay(cs),
                total as int,
            );
        },
        _ => {},
    }
}

#[verifier::rlimit(40)]
proof fn lemma_thinning_keeps_sound(
    app: AppView,
    msg: Msg,
    aid: Aid,
    after: AppView,
    effect: EffectView,
)
    requires
        app.wf(),
        app.roomy(),
        app.fits(msg, aid),
        app.answered(msg, aid, after, effect),
        !app.blocked(msg),
        msg is DropEveryNth || msg is SmartDrop,
    ensures
        after.wf(),
{
    match msg {
        Msg::DropEveryNth(every) => {
            lemma_thinned_wf(
                app,
                |i: int| (i + 1) % (every as int) == 0,
                app.count() as int / every as int,
            );
        },
        Msg::SmartDrop(percent) => {
            let all = app.doc().frames;
            let touched = crate::answers::thinned(app.count(), percent);
            lemma_thinned_wf(app, |i: int| low_motion(scores(all), touched, i), touched);
        },
        _ => {},
    }
}

#[verifier::rlimit(40)]
proof fn lemma_splicing_keeps_sound(
    app: AppView,
    msg: Msg,
    aid: Aid,
    after: AppView,
    effect: EffectView,
)
    requires
        app.wf(),
        app.roomy(),
        app.fits(msg, aid),
        app.answered(msg, aid, after, effect),
        !app.blocked(msg),
        msg is InsertImageFrame || msg is AppendImageFrame || msg is MoveFrame,
        pictures_fit(app, msg),
    ensures
        after.wf(),
{
    match msg {
        Msg::InsertImageFrame(index, img) => {
            let (at, delay) = insert_spot(app, index as int);
            lemma_image_wf(app, at, delay, img, spliced_frame(app, delay, img));
        },
        Msg::AppendImageFrame(img) => {
            let (at, delay) = append_spot(app);
            lemma_image_wf(app, at, delay, img, spliced_frame(app, delay, img));
        },
        Msg::MoveFrame(from, to) => {
            lemma_move_frame_wf(app, from, to);
        },
        _ => {},
    }
}

#[verifier::rlimit(40)]
proof fn lemma_overlay_edits_keep_sound(
    app: AppView,
    msg: Msg,
    aid: Aid,
    after: AppView,
    effect: EffectView,
)
    requires
        app.wf(),
        app.roomy(),
        app.fits(msg, aid),
        app.answered(msg, aid, after, effect),
        !app.blocked(msg),
        msg is AddOverlay
            || msg is SelectOverlay
            || msg is EditText
            || msg is SetOverlayProp
            || msg is DeleteOverlay
            || msg is RestackOverlay
            || msg is DeleteSelection
            || msg is CanvasDrag
            || msg is CanvasRelease,
    ensures
        after.wf(),
{
    lemma_scope_frames(app);
    let frames = app.scope_frames();
    match msg {
        Msg::AddOverlay(tool) => {
            if frames.len() > 0 {
                let o = choose|o: Overlay|
                    made_by(tool, aid.spot, aid.size_px, o) && (after, effect)
                        == #[trigger] app.overlay_added(tool, o);
                lemma_overlay_added_wf(app, tool, o);
            }
        },
        Msg::SelectOverlay(id) => {
            match id {
                Some(id) => {
                    lemma_sought_overlay_wf(AppView { selected_overlay: Some(id), ..app }, id);
                },
                None => {},
            }
        },
        Msg::EditText(text) => {
            lemma_edit_text_wf(app, text);
        },
        Msg::SetOverlayProp(prop) => {
            lemma_set_prop_wf(app, prop, aid.resized);
        },
        Msg::DeleteOverlay(id) => {
            lemma_overlay_deleted_wf(app, id);
        },
        Msg::RestackOverlay { id, up } => {
            lemma_restacked_wf(app, id, up);
        },
        Msg::DeleteSelection => {
            lemma_delete_selection_wf(app);
        },
        Msg::CanvasDrag { .. } => {
            lemma_drag_wf(app, aid.away, aid.dragged, aid.crop);
        },
        Msg::CanvasRelease => {
            lemma_release_wf(app);
        },
        _ => {},
    }
}

proof fn lemma_press_wf(
    app: AppView,
    x: crate::single::Single,
    y: crate::single::Single,
    state: crate::chord::Mods,
    inside: Seq<bool>,
    grip: Option<usize>,
)
    requires
        app.wf(),
    ensures
        app.on_press(x, y, state, inside, grip).wf(),
{
}

#[verifier::rlimit(40)]
proof fn lemma_moves_keep_sound(
    app: AppView,
    msg: Msg,
    aid: Aid,
    after: AppView,
    effect: EffectView,
)
    requires
        app.wf(),
        app.roomy(),
        app.fits(msg, aid),
        app.answered(msg, aid, after, effect),
        !app.blocked(msg),
        msg is Undo
            || msg is Redo
            || msg is TogglePlay
            || msg is Tick
            || msg is Seek
            || msg is SeekKeepSelection
            || msg is ExtendSelection
            || msg is SetScope
            || msg is ToggleSelection
            || msg is SelectAllFrames,
    ensures
        after.wf(),
{
    match msg {
        Msg::Undo | Msg::Redo => {
            lemma_history_wf(app);
        },
        Msg::ExtendSelection(i) => {
            lemma_toggle_wf(app, i as int);
        },
        Msg::ToggleSelection(i) => {
            lemma_toggle_wf(app, i as int);
        },
        _ => {},
    }
}

#[verifier::rlimit(40)]
proof fn lemma_canvas_steps_keep_sound(
    app: AppView,
    msg: Msg,
    aid: Aid,
    after: AppView,
    effect: EffectView,
)
    requires
        app.wf(),
        app.roomy(),
        app.fits(msg, aid),
        app.answered(msg, aid, after, effect),
        !app.blocked(msg),
        msg is CanvasPress
            || msg is ToggleCropTool
            || msg is Escape
            || msg is ApplyCrop
            || msg is ApplyZoom
            || msg is ApplyZoomAll
            || msg is ApplyShrink
            || msg is CropAll
            || msg is Resize,
    ensures
        after.wf(),
{
    match msg {
        Msg::CanvasPress { x, y, state } => {
            lemma_press_wf(app, x, y, state, aid.inside@, aid.grip);
        },
        _ => {},
    }
}

#[verifier::rlimit(40)]
proof fn lemma_others_keep_sound(
    app: AppView,
    msg: Msg,
    aid: Aid,
    after: AppView,
    effect: EffectView,
)
    requires
        app.wf(),
        app.roomy(),
        app.fits(msg, aid),
        app.answered(msg, aid, after, effect),
        !app.blocked(msg),
        !(msg is FrameOp || msg is FrameCopy || msg is FramePaste || msg is MoveSelection
            || msg is MoveSelectionTo || msg is SetScopeDelay || msg is SetAllFramesDelay
            || msg is DropEveryNth || msg is SmartDrop || msg is InsertImageFrame
            || msg is AppendImageFrame || msg is MoveFrame || msg is AddOverlay
            || msg is SelectOverlay || msg is EditText || msg is SetOverlayProp
            || msg is DeleteOverlay || msg is RestackOverlay || msg is DeleteSelection
            || msg is CanvasDrag || msg is CanvasRelease || msg is Undo || msg is Redo
            || msg is TogglePlay || msg is Tick || msg is Seek || msg is SeekKeepSelection
            || msg is ExtendSelection || msg is SetScope || msg is ToggleSelection
            || msg is SelectAllFrames || msg is CanvasPress || msg is ToggleCropTool
            || msg is Escape || msg is ApplyCrop || msg is ApplyZoom || msg is ApplyZoomAll
            || msg is ApplyShrink || msg is CropAll || msg is Resize),
    ensures
        after.wf(),
{
}

/// Every message keeps the app sound: the documents of the history stay sound,
/// and the playhead, the selection and the anchor stay in the strip.
#[verifier::rlimit(60)]
pub proof fn law_messages_keep_the_app_sound(
    app: AppView,
    msg: Msg,
    aid: Aid,
    after: AppView,
    effect: EffectView,
)
    requires
        app.wf(),
        app.roomy(),
        app.fits(msg, aid),
        app.answered(msg, aid, after, effect),
        app.blocked(msg) || pictures_fit(app, msg),
    ensures
        after.wf(),
{
    if app.blocked(msg) {
        return ;
    }
    if msg is FrameOp
        || msg is FrameCopy
        || msg is FramePaste
        || msg is MoveSelection
        || msg is MoveSelectionTo
        || msg is SetScopeDelay
        || msg is SetAllFramesDelay {
        lemma_frame_edits_keep_sound(app, msg, aid, after, effect);
    } else if msg is DropEveryNth || msg is SmartDrop {
        lemma_thinning_keeps_sound(app, msg, aid, after, effect);
    } else if msg is InsertImageFrame || msg is AppendImageFrame || msg is MoveFrame {
        lemma_splicing_keeps_sound(app, msg, aid, after, effect);
    } else if msg is AddOverlay
        || msg is SelectOverlay
        || msg is EditText
        || msg is SetOverlayProp
        || msg is DeleteOverlay
        || msg is RestackOverlay
        || msg is DeleteSelection
        || msg is CanvasDrag
        || msg is CanvasRelease {
        lemma_overlay_edits_keep_sound(app, msg, aid, after, effect);
    } else if msg is Undo
        || msg is Redo
        || msg is TogglePlay
        || msg is Tick
        || msg is Seek
        || msg is SeekKeepSelection
        || msg is ExtendSelection
        || msg is SetScope
        || msg is ToggleSelection
        || msg is SelectAllFrames {
        lemma_moves_keep_sound(app, msg, aid, after, effect);
    } else if msg is CanvasPress
        || msg is ToggleCropTool
        || msg is Escape
        || msg is ApplyCrop
        || msg is ApplyZoom
        || msg is ApplyZoomAll
        || msg is ApplyShrink
        || msg is CropAll
        || msg is Resize {
        lemma_canvas_steps_keep_sound(app, msg, aid, after, effect);
    } else {
        lemma_others_keep_sound(app, msg, aid, after, effect);
    }
}

/// Where an image put in after frame `index` goes, and for how long.
pub open spec fn insert_spot(app: AppView, index: int) -> (int, u16) {
    if index < app.count() {
        (index + 1, app.doc().frames[index].delay_cs)
    } else {
        (app.count() as int, 10)
    }
}

/// Where an image put on the end goes, and for how long.
pub open spec fn append_spot(app: AppView) -> (int, u16) {
    (
        app.count() as int,
        if app.count() > 0 {
            app.doc().frames.last().delay_cs
        } else {
            10
        },
    )
}

/// The frame an image is put in as.
pub open spec fn spliced_frame(
    app: AppView,
    delay: u16,
    img: Option<crate::raster::Raster>,
) -> FrameView {
    crate::work::image_frame(img->Some_0@, app.doc().size(), delay, app.next_key)
}

/// A whole frame, as large as the canvas where there is one.
pub open spec fn on_canvas(app: AppView, frame: FrameView) -> bool {
    &&& frame.wf()
    &&& app.doc().size() != (0u32, 0u32) ==> sized(frame, app.doc().size().0, app.doc().size().1)
}

/// An image that comes with the message makes a whole frame, as large as the
/// canvas where there is one.
pub open spec fn pictures_fit(app: AppView, msg: Msg) -> bool {
    match msg {
        Msg::InsertImageFrame(index, Some(img)) => on_canvas(
            app,
            spliced_frame(app, insert_spot(app, index as int).1, Some(img)),
        ),
        Msg::AppendImageFrame(Some(img)) => on_canvas(
            app,
            spliced_frame(app, append_spot(app).1, Some(img)),
        ),
        _ => true,
    }
}

} // verus!
