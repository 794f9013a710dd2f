//! What a long job that holds the app can count on until it is done.

use vstd::prelude::*;

use crate::app::{Aid, AppView, EffectView};
use crate::cmd::{Cmd, ImportOutcome};
use crate::model::Overlay;
use crate::msg::Msg;
use crate::work::BusyKind;

verus! {

/// A message that has to wait changes nothing and does nothing.
pub proof fn law_a_waiting_message_changes_nothing(
    app: AppView,
    msg: Msg,
    aid: Aid,
    after: AppView,
    effect: EffectView,
)
    requires
        app.blocked(msg),
        app.answered(msg, aid, after, effect),
    ensures
        after == app,
        effect == EffectView::Nothing,
{
}

proof fn lemma_overlay_edits_stand_still(
    app: AppView,
    msg: Msg,
    aid: Aid,
    after: AppView,
    effect: EffectView,
)
    requires
        app.busy is Some,
        app.busy->Some_0.kind != BusyKind::Import,
        app.answered(msg, aid, after, effect),
        !app.blocked(msg),
        msg is EditText || msg is SetOverlayProp || msg is CanvasRelease,
    ensures
        after.doc().frames == app.doc().frames,
        after.busy == app.busy,
{
}

proof fn lemma_overlay_lists_stand_still(
    app: AppView,
    msg: Msg,
    aid: Aid,
    after: AppView,
    effect: EffectView,
)
    requires
        app.busy is Some,
        app.busy->Some_0.kind != BusyKind::Import,
        app.answered(msg, aid, after, effect),
        !app.blocked(msg),
        msg is AddOverlay || msg is DeleteOverlay || msg is RestackOverlay
            || msg is DeleteSelection,
    ensures
        after.doc().frames == app.doc().frames,
        after.busy == app.busy,
{
    match msg {
        Msg::AddOverlay(tool) => {
            if app.scope_frames().len() > 0 {
                let o = choose|o: Overlay|
                    crate::answers::made_by(tool, aid.spot, aid.size_px, o) && (after, effect)
                        == #[trigger] app.overlay_added(tool, o);
                assert((after, effect) == app.overlay_added(tool, o));
            }
        },
        _ => {},
    }
}

proof fn lemma_others_stand_still(
    app: AppView,
    msg: Msg,
    aid: Aid,
    after: AppView,
    effect: EffectView,
)
    requires
        app.busy is Some,
        app.busy->Some_0.kind != BusyKind::Import,
        app.answered(msg, aid, after, effect),
        !app.blocked(msg),
        !(msg is EditText || msg is SetOverlayProp || msg is CanvasRelease),
        !(msg is AddOverlay || msg is DeleteOverlay || msg is RestackOverlay
            || msg is DeleteSelection),
    ensures
        after.doc().frames == app.doc().frames,
        after.busy == app.busy,
{
}

/// While frame work runs, no message moves, adds, removes or changes a frame,
/// and none clears or replaces the bar: the produced frames land by index on
/// the frames the work started from.
pub proof fn law_frames_stand_still_under_frame_work(
    app: AppView,
    msg: Msg,
    aid: Aid,
    after: AppView,
    effect: EffectView,
)
    requires
        app.busy is Some,
        app.busy->Some_0.kind != BusyKind::Import,
        app.answered(msg, aid, after, effect),
    ensures
        after.doc().frames == app.doc().frames,
        after.busy == app.busy,
{
    if !app.blocked(msg) {
        if msg is EditText || msg is SetOverlayProp || msg is CanvasRelease {
            lemma_overlay_edits_stand_still(app, msg, aid, after, effect);
        } else if msg is AddOverlay || msg is DeleteOverlay || msg is RestackOverlay
            || msg is DeleteSelection {
            lemma_overlay_lists_stand_still(app, msg, aid, after, effect);
        } else {
            lemma_others_stand_still(app, msg, aid, after, effect);
        }
    }
}

/// While an import runs, no message changes the document or its history, and
/// none clears or replaces the bar.
pub proof fn law_the_document_stands_still_under_an_import(
    app: AppView,
    msg: Msg,
    aid: Aid,
    after: AppView,
    effect: EffectView,
)
    requires
        app.busy is Some,
        app.busy->Some_0.kind == BusyKind::Import,
        app.answered(msg, aid, after, effect),
    ensures
        after.editor == app.editor,
        after.busy == app.busy,
{
}

/// Only the end of the job takes its bar down: progress, estimates and
/// exports leave it up.
pub proof fn law_the_bar_goes_with_the_job(app: AppView, cmd: Cmd)
    requires
        cmd is ImportProgress || cmd is WorkProgress || cmd is Estimated || cmd is Exported,
    ensures
        app.answered_cmd(cmd).0.busy is Some == app.busy is Some,
        app.answered_cmd(cmd).0.editor == app.editor,
{
}

/// An import that was cancelled, or failed, leaves the document as it was, and
/// the app free.
pub proof fn law_a_stopped_import_leaves_the_document(app: AppView, outcome: ImportOutcome)
    requires
        !(outcome is Loaded),
    ensures
        app.imported(outcome).0.editor == app.editor,
        app.imported(outcome).0.busy is None,
{
}

/// Whatever a job landed is one step of history: undoing it gives back the
/// document it started from.
pub proof fn law_landed_work_is_one_step(app: AppView, work: crate::cmd::WorkDone)
    ensures
        app.landed(work).0.editor.undone().doc == app.doc(),
{
    let after = app.landed(work).0;
    assert(after.editor.past.last().doc == app.doc());
}

} // verus!
