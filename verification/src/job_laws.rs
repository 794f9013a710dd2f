//! What the window hands to its workers and does with what they hand back.

use vstd::prelude::*;

use crate::app::{Aid, AppView, EffectView};
use crate::canvas::{list_views, Rect};
use crate::cmd::{Cmd, ImportOutcome, WorkDone};
use crate::document::views;
use crate::edit_laws::chosen;
use crate::model::FrameView;
use crate::motion::{law_thinning_drops_what_moves_the_least, scores};
use crate::msg::{Msg, ScopeChoice};
use crate::picture_laws::law_frames_are_put_in_their_places;
use crate::work::{BusyKind, WorkView};

verus! {

/// A crop goes to the worker as the rectangle that was asked for, for every
/// frame, and the document waits. One that would cut nothing off is none.
pub proof fn law_a_crop_is_handed_on(
    app: AppView,
    rect: Rect,
    aid: Aid,
    after: AppView,
    effect: EffectView,
)
    requires
        app.wf(),
        ({
            let all = Msg::CropAll(rect.x, rect.y, rect.w, rect.h);
            ||| !app.blocked(all) && app.answered(all, aid, after, effect)
            ||| !app.blocked(Msg::ApplyCrop) && app.answered(Msg::ApplyCrop, aid, after, effect)
                && app.crop_rect is Some && aid.rect == Some(rect)
        }),
    ensures
        ({
            let (w, h) = app.doc().size();
            let cuts = w > 0 && h > 0 && (rect.x > 0 || rect.y > 0 || rect.w < w || rect.h < h);
            &&& after.editor == app.editor
            &&& cuts ==> effect == EffectView::Work(WorkView::Crop { rect })
            &&& cuts ==> after.busy is Some && after.busy->Some_0.total == Some(
                app.doc().frames.len() as usize,
            ) && !after.crop_tool
            &&& !cuts ==> effect == EffectView::Nothing && after.busy == app.busy
        }),
{
}

/// A zoom goes to the worker as the box that was drawn, for the chosen frames or
/// for all, and the box is used up.
pub proof fn law_a_zoom_is_handed_on(
    app: AppView,
    rect: Rect,
    all: bool,
    aid: Aid,
    after: AppView,
    effect: EffectView,
    i: usize,
)
    requires
        app.wf(),
        ({
            let msg = if all {
                Msg::ApplyZoomAll
            } else {
                Msg::ApplyZoom
            };
            !app.blocked(msg) && app.answered(msg, aid, after, effect)
        }),
        app.crop_rect is Some,
        aid.rect == Some(rect),
        i < app.doc().frames.len(),
        all || app.scope_frames().len() > 0,
    ensures
        ({
            &&& after.editor == app.editor
            &&& after.crop_rect is None && !after.crop_tool
            &&& effect matches EffectView::Work(WorkView::Zoom { frames, rect: part })
            &&& part == rect
            &&& frames.contains(i) <==> all || chosen(app, i as int)
            &&& after.busy is Some && after.busy->Some_0.total == Some(frames.len() as usize)
        }),
{
    crate::edit_laws::law_the_scope_is_what_was_chosen(app, i);
    if all {
        assert(app.zoomed(true)[i as int] == i);
    }
}

/// A shrink goes to the worker as the box that was drawn, for the chosen frames,
/// and the box is used up.
pub proof fn law_a_shrink_is_handed_on(
    app: AppView,
    rect: Rect,
    aid: Aid,
    after: AppView,
    effect: EffectView,
    i: usize,
)
    requires
        app.wf(),
        !app.blocked(Msg::ApplyShrink),
        app.answered(Msg::ApplyShrink, aid, after, effect),
        app.crop_rect is Some,
        aid.rect == Some(rect),
        i < app.doc().frames.len(),
    ensures
        ({
            &&& after.editor == app.editor
            &&& after.crop_rect is None && !after.crop_tool
            &&& effect matches EffectView::Work(WorkView::Shrink { frames, rect: part })
            &&& part == rect
            &&& frames.contains(i) <==> chosen(app, i as int)
            &&& after.busy is Some && after.busy->Some_0.total == Some(frames.len() as usize)
        }),
{
    crate::edit_laws::law_the_scope_is_what_was_chosen(app, i);
}

/// A resize goes to the worker as the size that was asked for, a pixel at least
/// each way, where all frames of that size fit into the memory that is allowed.
/// Otherwise it is refused, and no frame changes either way.
pub proof fn law_a_resize_is_handed_on(
    app: AppView,
    w: u32,
    h: u32,
    aid: Aid,
    after: AppView,
    effect: EffectView,
)
    requires
        app.wf(),
        !app.blocked(Msg::Resize(w, h)),
        app.answered(Msg::Resize(w, h), aid, after, effect),
        w > 0 && h > 0,
        app.doc().frames.len() > 0,
        app.doc().size() != (w, h),
        app.max_import_bytes <= usize::MAX,
    ensures
        ({
            let bytes = w * h * 4 * app.doc().frames.len();
            &&& after.editor == app.editor
            &&& bytes <= app.max_import_bytes ==> effect == EffectView::Work(WorkView::Resize(w, h))
            &&& bytes <= app.max_import_bytes ==> after.busy is Some
            &&& bytes > app.max_import_bytes ==> effect is Say && after == app
        }),
{
    let one = w * h * 4;
    let n = app.doc().frames.len();
    assert(one <= one * n) by (nonlinear_arith)
        requires
            n >= 1,
            one >= 0,
    ;
    assert(w * h * 4 * n == one * n);
}

/// The frames that a worker hands back stand at their places, the others stay,
/// and the window is free again. Undoing brings back what was there.
pub proof fn law_finished_work_is_put_in(app: AppView, work: WorkDone, i: int, k: int)
    requires
        0 <= i < app.doc().frames.len(),
        forall|a: int, b: int|
            0 <= a < b < work.frames@.len() ==> (#[trigger] work.frames@[a]).0 != (
            #[trigger] work.frames@[b]).0,
        0 <= k < work.frames@.len(),
    ensures
        ({
            let after = app.answered_cmd(Cmd::Worked(Ok(work))).0;
            let (was, now) = (app.doc().frames, after.doc().frames);
            &&& now.len() == was.len()
            &&& work.frames@[k].0 == i ==> now[i] == work.frames@[k].1@
            &&& (forall|a: int| 0 <= a < work.frames@.len() ==> (#[trigger] work.frames@[a]).0 != i)
                ==> now[i] == was[i]
            &&& after.busy is None
            &&& after.editor.past.last().doc == app.doc()
            &&& after.doc().overlays.len() == app.doc().overlays.len()
        }),
{
    let list = list_views(work.frames@);
    assert forall|a: int, b: int| 0 <= a < b < list.len() implies (#[trigger] list[a]).0 != (
    #[trigger] list[b]).0 by {
        assert(work.frames@[a].0 != work.frames@[b].0);
    }
    law_frames_are_put_in_their_places(app.doc().frames, list, i);
    assert(list[k] == (work.frames@[k].0, work.frames@[k].1@));
    if forall|a: int| 0 <= a < work.frames@.len() ==> (#[trigger] work.frames@[a]).0 != i {
        assert forall|a: int| 0 <= a < list.len() implies (#[trigger] list[a]).0 != i by {
            assert(work.frames@[a].0 != i);
        }
    }
}

/// Work that failed changes nothing, is spoken of, and leaves the window free.
pub proof fn law_failed_work_changes_nothing(app: AppView, cmd: Cmd)
    requires
        cmd matches Cmd::Worked(r) && r is Err,
    ensures
        app.answered_cmd(cmd).0.editor == app.editor,
        app.answered_cmd(cmd).0.busy is None,
        app.answered_cmd(cmd).1 is Say,
{
}

/// A file that is opened is the whole document, with no overlay and no history,
/// and its first frame is on screen.
pub proof fn law_an_opened_file_is_the_document(app: AppView, frames: Vec<crate::model::Frame>)
    requires
        !app.import_append,
    ensures
        ({
            let after = app.answered_cmd(Cmd::Imported(ImportOutcome::Loaded(frames))).0;
            &&& after.doc().frames.len() == frames@.len()
            &&& forall|i: int|
                0 <= i < frames@.len() ==> #[trigger] after.doc().frames[i] == frames@[i]@
            &&& after.doc().overlays.len() == 0
            &&& after.editor.past.len() == 0
            &&& after.editor.future.len() == 0
            &&& after.playhead == 0
            &&& after.selection.len() == 0
            &&& after.selected_overlay is None
            &&& after.scope == ScopeChoice::ThisFrame
            &&& after.busy is None
            &&& after.clipboard == app.clipboard
        }),
{
    assert(crate::canvas::below(Seq::<usize>::empty(), frames@.len()) =~= seq![]);
}

/// A file that is added stands behind the frames that were there, in order and
/// with its own delays; a frame that has the size of the canvas is as it was in
/// the file. Undoing takes it all out again.
pub proof fn law_an_added_file_comes_behind(app: AppView, frames: Vec<crate::model::Frame>, i: int, k: int)
    requires
        app.import_append,
        0 <= i < app.doc().frames.len(),
        0 <= k < frames@.len(),
    ensures
        ({
            let after = app.answered_cmd(Cmd::Imported(ImportOutcome::Loaded(frames))).0;
            let (was, now) = (app.doc().frames, after.doc().frames);
            &&& now.len() == was.len() + frames@.len()
            &&& now[i] == was[i]
            &&& now[was.len() + k].delay_cs == frames@[k]@.delay_cs
            &&& now[was.len() + k].detached == frames@[k]@.detached
            &&& (frames@[k]@.pixels.width, frames@[k]@.pixels.height) == (
                was[0].pixels.width,
                was[0].pixels.height,
            ) ==> now[was.len() + k] == frames@[k]@
            &&& after.doc().overlays == app.doc().overlays
            &&& after.editor.past.last().doc == app.doc()
            &&& after.busy is None
            &&& !after.import_append
        }),
{
    let run = views(frames@);
    lemma_fitted(run, app.doc().size(), app.next_key, k);
}

proof fn lemma_fitted(run: Seq<FrameView>, canvas: (u32, u32), key: u64, k: int)
    requires
        0 <= k < run.len(),
    ensures
        ({
            let out = crate::work::fitted_to(run, canvas, key).0;
            &&& out.len() == run.len()
            &&& out[k].delay_cs == run[k].delay_cs
            &&& out[k].detached == run[k].detached
            &&& (run[k].pixels.width, run[k].pixels.height) == canvas ==> out[k] == run[k]
        }),
    decreases run.len(),
{
    if k < run.len() - 1 {
        lemma_fitted(run.drop_last(), canvas, key, k);
    } else if run.len() > 1 {
        lemma_fitted(run.drop_last(), canvas, key, k - 1);
    } else {
        assert(crate::work::fitted_to(run.drop_last(), canvas, key).0 == run.drop_last());
    }
}

/// An estimate is kept with the revision it was made for, and a measurement that
/// came to nothing leaves the last one.
pub proof fn law_an_estimate_names_its_revision(app: AppView, rev: u64, bytes: usize)
    ensures
        ({
            let some = app.answered_cmd(Cmd::Estimated(rev, Some(bytes))).0;
            let none = app.answered_cmd(Cmd::Estimated(rev, None)).0;
            &&& some.estimate == Some((rev, bytes))
            &&& none.estimate == app.estimate
            &&& some.estimate_pending != Some(rev)
            &&& none.estimate_pending != Some(rev)
            &&& app.estimate_pending != Some(rev) ==> some.estimate_pending == app.estimate_pending
            &&& some.editor == app.editor
        }),
{
}

/// An estimate that is asked for is measured if the document is still the one it
/// was asked for.
pub proof fn law_a_stale_estimate_is_not_made(
    app: AppView,
    rev: u64,
    aid: Aid,
    after: AppView,
    effect: EffectView,
)
    requires
        !app.blocked(Msg::Estimate(rev)),
        app.answered(Msg::Estimate(rev), aid, after, effect),
        app.doc().frames.len() > 0,
    ensures
        effect is Measure <==> rev == app.rev,
        after == app,
{
}

proof fn lemma_thinned(
    app: AppView,
    count: int,
    aid: Aid,
    after: AppView,
    effect: EffectView,
    percent: usize,
)
    requires
        app.answered(Msg::SmartDrop(percent), aid, after, effect),
        !app.blocked(Msg::SmartDrop(percent)),
        count == crate::answers::thinned(app.doc().frames.len(), percent),
        0 <= count < app.doc().frames.len(),
    ensures
        after.doc().frames.len() == app.doc().frames.len() - count,
        after.doc().frames[0].pixels == app.doc().frames[0].pixels,
{
    let doc = app.doc();
    let kept = doc.without(|i: int| crate::motion::low_motion(scores(doc.frames), count, i));
    assert(kept.frames.len() == doc.frames.len() - count) by {
        law_thinning_drops_what_moves_the_least(doc, count);
    }
    assert(kept.frames[0].pixels == doc.frames[0].pixels) by {
        crate::motion::law_thinning_keeps_the_first_frame(doc, count);
    }
    if count != 0 {
        assert(after.doc() == kept);
    }
}

/// Thinning by a percentage takes out that share of the frames, rounded down and
/// at most nineteen in twenty, never the first, and those that move least.
pub proof fn law_thinning_takes_the_share(
    app: AppView,
    percent: usize,
    aid: Aid,
    after: AppView,
    effect: EffectView,
)
    requires
        app.wf(),
        !app.blocked(Msg::SmartDrop(percent)),
        app.answered(Msg::SmartDrop(percent), aid, after, effect),
        app.doc().frames.len() > 0,
    ensures
        ({
            let (was, now) = (app.doc().frames, after.doc().frames);
            let gone = was.len() - now.len();
            &&& percent <= 95 ==> 100 * gone <= was.len() * percent
            &&& percent <= 95 && gone + 1 < was.len() ==> was.len() * percent < 100 * (gone + 1)
            &&& percent > 95 ==> 100 * gone <= was.len() * 95
            &&& percent > 95 && gone + 1 < was.len() ==> was.len() * 95 < 100 * (gone + 1)
            &&& now.len() > 0
            &&& now[0].pixels == was[0].pixels
        }),
{
    let n = app.doc().frames.len() as int;
    let p = if percent < 95 {
        percent as int
    } else {
        95
    };
    assert(n * p >= 0) by (nonlinear_arith)
        requires
            n >= 0,
            p >= 0,
    ;
    assert(n * p <= 95 * n) by (nonlinear_arith)
        requires
            n >= 0,
            p <= 95,
    ;
    lemma_thinned(app, n * p / 100, aid, after, effect, percent);
    assert(percent <= 95 ==> app.doc().frames.len() * percent == n * p);
}

/// Work on the canvas takes each overlay into the box that was made for it; text
/// takes its size, and everything else about the overlay stays.
pub proof fn law_overlays_go_with_the_canvas(app: AppView, work: WorkDone, k: int)
    requires
        0 <= k < app.doc().overlays.len(),
    ensures
        ({
            let after = app.answered_cmd(Cmd::Worked(Ok(work))).0;
            let (was, now, room) = (
                app.doc().overlays[k],
                after.doc().overlays[k],
                work.boxes@[k],
            );
            &&& now.transform.x == room.x && now.transform.y == room.y
            &&& now.transform.w == room.w && now.transform.h == room.h
            &&& now.transform.angle == was.transform.angle
            &&& now.id == was.id && now.range == was.range && now.hidden == was.hidden
            &&& now.opacity == was.opacity && now.name == was.name
            &&& was.kind is Text ==> now.kind is Text && now.kind->Text_0.size_px == room.size_px
                && now.kind->Text_0.text == was.kind->Text_0.text && now.kind->Text_0.color
                == was.kind->Text_0.color && now.kind->Text_0.font == was.kind->Text_0.font
            &&& !(was.kind is Text) ==> now.kind == was.kind
        }),
{
}

/// The bar and the step of a job are named after it.
pub proof fn law_a_job_is_called_what_it_is(work: WorkView)
    ensures
        work is Resize ==> work.title() == "Resized"@ && work.bar() == BusyKind::Resize,
        work is Zoom ==> work.title() == "Zoomed"@ && work.bar() == BusyKind::Zoom,
        work is Crop ==> work.title() == "Cropped"@ && work.bar() == BusyKind::Crop,
        work is Shrink ==> work.title() == "Cropped"@ && work.bar() == BusyKind::Shrink,
{
}

} // verus!
