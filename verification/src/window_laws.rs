//! What the window's messages do to what it shows and to what was done.

use vstd::prelude::*;

use crate::app::{Aid, AppView, EffectView};
use crate::document::find_id;
use crate::edit_laws::chosen;
use crate::model::OverlayId;
use crate::msg::{Msg, ScopeChoice};

verus! {

/// Whether the document stands, or changed in one step that can be taken back.
pub open spec fn one_step(app: AppView, after: AppView) -> bool {
    after.doc() != app.doc() ==> after.editor.past.len() > 0 && after.editor.past.last().doc
        == app.doc() && after.editor.future.len() == 0
}

#[verifier::rlimit(40)]
proof fn lemma_overlay_step(app: AppView, msg: Msg, aid: Aid, after: AppView, effect: EffectView)
    requires
        app.answered(msg, aid, after, effect),
        msg is AddOverlay || msg is EditText || msg is SetOverlayProp || msg is DeleteOverlay
            || msg is RestackOverlay || msg is DeleteSelection,
    ensures
        one_step(app, after),
{
}

#[verifier::rlimit(40)]
proof fn lemma_frame_step(app: AppView, msg: Msg, aid: Aid, after: AppView, effect: EffectView)
    requires
        app.answered(msg, aid, after, effect),
        msg is FrameOp || msg is FramePaste || msg is SetScopeDelay || msg is SetAllFramesDelay
            || msg is InsertImageFrame || msg is AppendImageFrame,
    ensures
        one_step(app, after),
{
}

#[verifier::rlimit(40)]
proof fn lemma_moving_step(app: AppView, msg: Msg, aid: Aid, after: AppView, effect: EffectView)
    requires
        app.answered(msg, aid, after, effect),
        msg is MoveSelection || msg is MoveSelectionTo || msg is MoveFrame || msg is DropEveryNth
            || msg is SmartDrop,
    ensures
        one_step(app, after),
{
}

proof fn lemma_no_step(app: AppView, msg: Msg, aid: Aid, after: AppView, effect: EffectView)
    requires
        app.answered(msg, aid, after, effect),
        !(msg is Undo) && !(msg is Redo) && !(msg is CanvasDrag) && !(msg is CanvasRelease),
        !(msg is AddOverlay) && !(msg is EditText) && !(msg is SetOverlayProp)
            && !(msg is DeleteOverlay) && !(msg is RestackOverlay) && !(msg is DeleteSelection),
        !(msg is FrameOp) && !(msg is FramePaste) && !(msg is SetScopeDelay)
            && !(msg is SetAllFramesDelay) && !(msg is InsertImageFrame)
            && !(msg is AppendImageFrame),
        !(msg is MoveSelection) && !(msg is MoveSelectionTo) && !(msg is MoveFrame)
            && !(msg is DropEveryNth) && !(msg is SmartDrop),
    ensures
        after.doc() == app.doc(),
{
}

/// Whatever changes the document is one step that can be taken back, and after
/// it there is nothing to do again. Stepping through the steps and a drag under
/// way are no edits.
pub proof fn law_an_edit_is_one_step(
    app: AppView,
    msg: Msg,
    aid: Aid,
    after: AppView,
    effect: EffectView,
)
    requires
        app.answered(msg, aid, after, effect),
        !(msg is Undo) && !(msg is Redo) && !(msg is CanvasDrag) && !(msg is CanvasRelease),
        after.doc() != app.doc(),
    ensures
        after.editor.past.len() > 0,
        after.editor.past.last().doc == app.doc(),
        after.editor.future.len() == 0,
{
    if msg is AddOverlay || msg is EditText || msg is SetOverlayProp || msg is DeleteOverlay
        || msg is RestackOverlay || msg is DeleteSelection {
        lemma_overlay_step(app, msg, aid, after, effect);
    }
    if msg is FrameOp || msg is FramePaste || msg is SetScopeDelay || msg is SetAllFramesDelay
        || msg is InsertImageFrame || msg is AppendImageFrame {
        lemma_frame_step(app, msg, aid, after, effect);
    }
    if msg is MoveSelection || msg is MoveSelectionTo || msg is MoveFrame || msg is DropEveryNth
        || msg is SmartDrop {
        lemma_moving_step(app, msg, aid, after, effect);
    }
    if !(msg is AddOverlay || msg is EditText || msg is SetOverlayProp || msg is DeleteOverlay
        || msg is RestackOverlay || msg is DeleteSelection || msg is FrameOp || msg is FramePaste
        || msg is SetScopeDelay || msg is SetAllFramesDelay || msg is InsertImageFrame
        || msg is AppendImageFrame || msg is MoveSelection || msg is MoveSelectionTo
        || msg is MoveFrame || msg is DropEveryNth || msg is SmartDrop) {
        lemma_no_step(app, msg, aid, after, effect);
    }
}

/// Undo shows the document of the last step, and keeps the one that was there to
/// be done again.
pub proof fn law_undo_shows_the_step_before(
    app: AppView,
    aid: Aid,
    after: AppView,
    effect: EffectView,
)
    requires
        !app.blocked(Msg::Undo),
        app.answered(Msg::Undo, aid, after, effect),
    ensures
        app.editor.past.len() == 0 ==> after == app,
        app.editor.past.len() > 0 ==> {
            &&& after.doc() == app.editor.past.last().doc
            &&& after.editor.past == app.editor.past.drop_last()
            &&& after.editor.future.len() == app.editor.future.len() + 1
            &&& after.editor.future.last().doc == app.doc()
            &&& after.editor.future.drop_last() == app.editor.future
            &&& after.clipboard == app.clipboard
        },
{
    if app.editor.past.len() > 0 {
        assert(after.editor.future.drop_last() =~= app.editor.future);
    }
}

/// Redo does again what was last undone, and keeps the one that was there to be
/// undone.
pub proof fn law_redo_shows_the_step_after(
    app: AppView,
    aid: Aid,
    after: AppView,
    effect: EffectView,
)
    requires
        !app.blocked(Msg::Redo),
        app.answered(Msg::Redo, aid, after, effect),
    ensures
        app.editor.future.len() == 0 ==> after == app,
        app.editor.future.len() > 0 ==> {
            &&& after.doc() == app.editor.future.last().doc
            &&& after.editor.future == app.editor.future.drop_last()
            &&& after.editor.past.len() == app.editor.past.len() + 1
            &&& after.editor.past.last().doc == app.doc()
            &&& after.editor.past.drop_last() == app.editor.past
            &&& after.clipboard == app.clipboard
        },
{
    if app.editor.future.len() > 0 {
        assert(after.editor.past.drop_last() =~= app.editor.past);
    }
}

/// An edit that is undone and done again leaves the document as the edit made
/// it; the undo alone leaves it as it was.
pub proof fn law_an_edit_comes_back(
    app: AppView,
    msg: Msg,
    aid: Aid,
    after: AppView,
    effect: EffectView,
    undone: AppView,
    redone: AppView,
)
    requires
        app.answered(msg, aid, after, effect),
        !(msg is Undo) && !(msg is Redo) && !(msg is CanvasDrag) && !(msg is CanvasRelease),
        after.doc() != app.doc(),
        !after.blocked(Msg::Undo),
        after.answered(Msg::Undo, aid, undone, EffectView::Nothing),
        !undone.blocked(Msg::Redo),
        undone.answered(Msg::Redo, aid, redone, EffectView::Nothing),
    ensures
        undone.doc() == app.doc(),
        redone.doc() == after.doc(),
{
    law_an_edit_is_one_step(app, msg, aid, after, effect);
}

/// Looking around leaves the document and its history alone.
pub proof fn law_looking_changes_no_document(
    app: AppView,
    msg: Msg,
    aid: Aid,
    after: AppView,
    effect: EffectView,
)
    requires
        app.answered(msg, aid, after, effect),
        msg is Seek || msg is SeekKeepSelection || msg is ExtendSelection || msg is SetScope
            || msg is SelectOverlay || msg is SelectAllFrames || msg is ToggleSelection
            || msg is TogglePlay || msg is Tick || msg is ToggleCropTool || msg is Escape
            || msg is CanvasPress || msg is ToggleBandsExpanded || msg is FrameCopy
            || msg is Estimate || msg is Open || msg is Export || msg is SetKeymap
            || msg is StripZoom || msg is MoveFrameDialog || msg is DelayAllDialog
            || msg is CropAllDialog || msg is ImportMore || msg is Toast || msg is Notice,
    ensures
        after.editor == app.editor,
        after.next_key == app.next_key,
        after.rev == app.rev,
{
}

/// Playing starts where there is something to play, stops where it runs, and
/// waits on each frame for as long as the frame says, a hundredth at least.
pub proof fn law_playing_waits_for_the_frame(
    app: AppView,
    aid: Aid,
    after: AppView,
    effect: EffectView,
)
    requires
        app.wf(),
        !app.blocked(Msg::TogglePlay),
        app.answered(Msg::TogglePlay, aid, after, effect),
    ensures
        after.playing <==> !app.playing && app.doc().frames.len() >= 2,
        after == (AppView { playing: after.playing, ..app }),
        !after.playing ==> effect == EffectView::Nothing,
        after.playing ==> {
            let delay = app.doc().frames[app.playhead as int].delay_cs;
            effect == EffectView::Tick {
                ms: if delay == 0 {
                    10
                } else {
                    (10 * delay) as u64
                },
            }
        },
{
}

/// While it plays, each tick shows the next frame, and the first after the last.
pub proof fn law_a_tick_shows_the_next_frame(
    app: AppView,
    aid: Aid,
    after: AppView,
    effect: EffectView,
)
    requires
        app.wf(),
        !app.blocked(Msg::Tick),
        app.answered(Msg::Tick, aid, after, effect),
    ensures
        !app.playing || app.doc().frames.len() == 0 ==> after == app && effect
            == EffectView::Nothing,
        app.playing && app.playhead + 1 < app.doc().frames.len() ==> after.playhead == app.playhead
            + 1,
        app.playing && app.playhead + 1 == app.doc().frames.len() ==> after.playhead == 0,
        after == (AppView { playhead: after.playhead, ..app }),
        app.playing && app.doc().frames.len() > 0 ==> {
            let delay = app.doc().frames[after.playhead as int].delay_cs;
            effect == EffectView::Tick {
                ms: if delay == 0 {
                    10
                } else {
                    (10 * delay) as u64
                },
            }
        },
{
    let n = app.doc().frames.len() as int;
    if n > 0 {
        if app.playhead + 1 == n {
            assert((app.playhead + 1) % n == 0) by (nonlinear_arith)
                requires
                    app.playhead + 1 == n,
                    n > 0,
            ;
        } else {
            assert((app.playhead + 1) % n == app.playhead + 1) by (nonlinear_arith)
                requires
                    app.playhead + 1 < n,
            ;
        }
    }
}

/// Going to a frame shows it, or the last where there are fewer, and chooses it
/// alone.
pub proof fn law_seeking_chooses_one_frame(
    app: AppView,
    i: usize,
    aid: Aid,
    after: AppView,
    effect: EffectView,
    k: int,
)
    requires
        app.wf(),
        !app.blocked(Msg::Seek(i)),
        app.answered(Msg::Seek(i), aid, after, effect),
        0 < app.doc().frames.len(),
    ensures
        i < app.doc().frames.len() ==> after.playhead == i,
        i >= app.doc().frames.len() ==> after.playhead == app.doc().frames.len() - 1,
        chosen(after, k) <==> k == after.playhead,
        after == (AppView {
            playhead: after.playhead,
            selection: seq![],
            anchor: Some(after.playhead),
            scope: ScopeChoice::ThisFrame,
            ..app
        }),
{
}

/// Looking at another frame moves there and leaves the choice alone.
pub proof fn law_looking_keeps_the_choice(
    app: AppView,
    i: usize,
    aid: Aid,
    after: AppView,
    effect: EffectView,
)
    requires
        app.wf(),
        !app.blocked(Msg::SeekKeepSelection(i)),
        app.answered(Msg::SeekKeepSelection(i), aid, after, effect),
        0 < app.doc().frames.len(),
    ensures
        i < app.doc().frames.len() ==> after.playhead == i,
        i >= app.doc().frames.len() ==> after.playhead == app.doc().frames.len() - 1,
        after == (AppView { playhead: after.playhead, ..app }),
{
}

/// Extending chooses every frame from where the choice started to the frame that
/// was pointed at, whichever of the two comes first.
pub proof fn law_extending_chooses_a_run(
    app: AppView,
    i: usize,
    aid: Aid,
    after: AppView,
    effect: EffectView,
    k: int,
)
    requires
        app.wf(),
        !app.blocked(Msg::ExtendSelection(i)),
        app.answered(Msg::ExtendSelection(i), aid, after, effect),
        i < app.doc().frames.len(),
    ensures
        ({
            let start = match app.anchor {
                Some(a) => a as int,
                None => app.playhead as int,
            };
            &&& chosen(after, k) <==> start <= k <= i || i <= k <= start
            &&& after.anchor == Some(start as usize)
            &&& after.playhead == i
            &&& after == (AppView {
                playhead: after.playhead,
                selection: after.selection,
                anchor: after.anchor,
                scope: ScopeChoice::Range,
                ..app
            })
        }),
{
    let start = match app.anchor {
        Some(a) => a as int,
        None => app.playhead as int,
    };
    assert(after.selection == crate::selection::run(start, i as int));
    if start <= k <= i {
        assert(after.selection[k - start] == k);
    }
    if i <= k <= start {
        assert(after.selection[k - i] == k);
    }
}

/// Toggling takes the frame into the choice or out of it and leaves the choice
/// of every other frame alone. The first toggle goes from the frame on screen.
pub proof fn law_toggling_changes_one_frame(
    app: AppView,
    i: usize,
    aid: Aid,
    after: AppView,
    effect: EffectView,
    k: int,
)
    requires
        app.wf(),
        !app.blocked(Msg::ToggleSelection(i)),
        app.answered(Msg::ToggleSelection(i), aid, after, effect),
        i < app.doc().frames.len(),
        0 <= k < app.doc().frames.len(),
    ensures
        ({
            let was = if app.selection.len() == 0 {
                k == app.playhead
            } else {
                app.selection.contains(k as usize)
            };
            &&& k != i ==> (after.selection.contains(k as usize) <==> was)
            &&& k == i ==> (after.selection.contains(k as usize) <==> !was)
            &&& after.selection.len() > 0 ==> (chosen(after, k) <==> after.selection.contains(
                k as usize,
            ))
            &&& after.selection.len() == 0 ==> (chosen(after, k) <==> k == i)
            &&& after.playhead == i
            &&& after.anchor == Some(i)
            &&& after == (AppView {
                playhead: after.playhead,
                selection: after.selection,
                anchor: after.anchor,
                scope: after.scope,
                ..app
            })
        }),
{
    let start = if app.selection.len() == 0 {
        seq![app.playhead]
    } else {
        app.selection
    };
    let p = |a: int| crate::answers::picked_after(start, i as int, a);
    let now = crate::answers::toggled(start, i as int, app.room() as nat);
    assert(after.selection == now);
    crate::scope::lemma_ascending(app.room() as nat, p);
    let x = k as usize;
    if now.contains(x) {
        let a = choose|a: int| 0 <= a < now.len() && now[a] == x;
        assert(p(now[a] as int));
    }
    if p(k) {
        assert(now.contains(x));
    }
    if app.selection.len() == 0 {
        assert(start[0] == app.playhead);
        assert(crate::scope::picks(start, k) <==> k == app.playhead);
    } else {
        if app.selection.contains(x) {
            let a = choose|a: int| 0 <= a < app.selection.len() && app.selection[a] == x;
            assert(app.selection[a] == k);
        }
        if crate::scope::picks(start, k) {
            let a = choose|a: int| 0 <= a < start.len() && #[trigger] start[a] == k;
            assert(app.selection[a] == x);
        }
    }
    if now.contains(x) {
        let a = choose|a: int| 0 <= a < now.len() && now[a] == x;
        assert(after.selection[a] == k);
    }
    if exists|a: int| 0 <= a < after.selection.len() && #[trigger] after.selection[a] == k {
        let a = choose|a: int| 0 <= a < after.selection.len() && #[trigger] after.selection[a] == k;
        assert(after.selection[a] == x);
    }
}

/// Choosing all chooses every frame.
pub proof fn law_choosing_all(app: AppView, aid: Aid, after: AppView, effect: EffectView, k: int)
    requires
        !app.blocked(Msg::SelectAllFrames),
        app.answered(Msg::SelectAllFrames, aid, after, effect),
        0 <= k < app.doc().frames.len(),
    ensures
        chosen(after, k),
        after == (AppView { selection: seq![], scope: ScopeChoice::AllFrames, ..app }),
{
}

/// The scope becomes the one that was picked, unless it is the picked frames and
/// none are.
pub proof fn law_the_scope_is_picked(
    app: AppView,
    choice: ScopeChoice,
    aid: Aid,
    after: AppView,
    effect: EffectView,
)
    requires
        !app.blocked(Msg::SetScope(choice)),
        app.answered(Msg::SetScope(choice), aid, after, effect),
    ensures
        choice == ScopeChoice::Range && app.selection.len() == 0 ==> after == app,
        !(choice == ScopeChoice::Range && app.selection.len() == 0) ==> after.scope == choice,
        after == (AppView { scope: after.scope, ..app }),
{
}

/// Selecting an overlay selects it, and brings it on screen where it was not.
pub proof fn law_a_selected_overlay_comes_on_screen(
    app: AppView,
    id: OverlayId,
    aid: Aid,
    after: AppView,
    effect: EffectView,
    p: int,
)
    requires
        app.wf(),
        !app.blocked(Msg::SelectOverlay(Some(id))),
        app.answered(Msg::SelectOverlay(Some(id)), aid, after, effect),
        0 <= p < app.doc().overlays.len(),
        app.doc().overlays[p].id == id,
    ensures
        after.selected_overlay == Some(id),
        app.doc().overlays[p].covers(after.playhead as int),
        app.doc().overlays[p].covers(app.playhead as int) ==> after.playhead == app.playhead,
        after == (AppView { playhead: after.playhead, selected_overlay: Some(id), ..app }),
{
    crate::document::lemma_find_id(app.doc().overlays, id, 0);
    let i = find_id(app.doc().overlays, id, 0);
    if i != p {
        assert(i < p ==> app.doc().overlays[i].id != app.doc().overlays[p].id);
        assert(p < i ==> app.doc().overlays[p].id != id);
    }
}

/// The crop tool comes and goes with its box, and takes the selection with it
/// when it comes.
pub proof fn law_the_crop_tool_comes_and_goes(
    app: AppView,
    aid: Aid,
    after: AppView,
    effect: EffectView,
)
    requires
        !app.blocked(Msg::ToggleCropTool),
        app.answered(Msg::ToggleCropTool, aid, after, effect),
    ensures
        after.crop_tool != app.crop_tool,
        after.crop_rect is None,
        after.crop_tool ==> after.selected_overlay is None,
        !after.crop_tool ==> after.selected_overlay == app.selected_overlay,
        after == (AppView {
            crop_tool: after.crop_tool,
            crop_rect: None,
            selected_overlay: after.selected_overlay,
            ..app
        }),
{
}

/// Escape puts the crop tool away, or lets go of the selected overlay where it is
/// not out.
pub proof fn law_escape_leaves_one_thing(
    app: AppView,
    aid: Aid,
    after: AppView,
    effect: EffectView,
)
    requires
        !app.blocked(Msg::Escape),
        app.answered(Msg::Escape, aid, after, effect),
    ensures
        !after.crop_tool,
        app.crop_tool ==> after.crop_rect is None && after.selected_overlay
            == app.selected_overlay,
        !app.crop_tool ==> after.selected_overlay is None,
        after.scope == app.scope,
        after.selection == app.selection,
        after.playhead == app.playhead,
{
}

/// Whether a message left alone what is none of its business.
pub open spec fn minds_its_own(app: AppView, msg: Msg, after: AppView) -> bool {
    &&& !(msg is SetKeymap) ==> after.keymap == app.keymap
    &&& !(msg is TogglePlay) ==> after.playing == app.playing
    &&& !(msg is ToggleBandsExpanded) ==> after.bands_expanded == app.bands_expanded
    &&& after.max_import_bytes == app.max_import_bytes
    &&& after.estimate == app.estimate
    &&& after.estimate_pending == app.estimate_pending
    &&& !(msg is FrameCopy) && msg != Msg::FrameOp(crate::msg::FrameOp::Cut) ==> after.clipboard
        == app.clipboard
    &&& !(msg is InsertImageFrame) && !(msg is AppendImageFrame) ==> after.next_key == app.next_key
}

#[verifier::rlimit(40)]
proof fn lemma_overlay_minds(app: AppView, msg: Msg, aid: Aid, after: AppView, effect: EffectView)
    requires
        app.answered(msg, aid, after, effect),
        msg is AddOverlay || msg is EditText || msg is SetOverlayProp || msg is DeleteOverlay
            || msg is RestackOverlay || msg is DeleteSelection,
    ensures
        minds_its_own(app, msg, after),
{
}

#[verifier::rlimit(40)]
proof fn lemma_frame_minds(app: AppView, msg: Msg, aid: Aid, after: AppView, effect: EffectView)
    requires
        app.answered(msg, aid, after, effect),
        msg is FrameOp || msg is FramePaste || msg is SetScopeDelay || msg is SetAllFramesDelay
            || msg is InsertImageFrame || msg is AppendImageFrame,
    ensures
        minds_its_own(app, msg, after),
{
}

#[verifier::rlimit(40)]
proof fn lemma_moving_minds(app: AppView, msg: Msg, aid: Aid, after: AppView, effect: EffectView)
    requires
        app.answered(msg, aid, after, effect),
        msg is MoveSelection || msg is MoveSelectionTo || msg is MoveFrame || msg is DropEveryNth
            || msg is SmartDrop,
    ensures
        minds_its_own(app, msg, after),
{
}

#[verifier::rlimit(40)]
proof fn lemma_canvas_minds(app: AppView, msg: Msg, aid: Aid, after: AppView, effect: EffectView)
    requires
        app.answered(msg, aid, after, effect),
        msg is CanvasPress || msg is CanvasDrag || msg is CanvasRelease || msg is ApplyCrop
            || msg is ApplyZoom || msg is ApplyZoomAll || msg is ApplyShrink || msg is CropAll
            || msg is Resize,
    ensures
        minds_its_own(app, msg, after),
{
}

#[verifier::rlimit(40)]
proof fn lemma_other_minds(app: AppView, msg: Msg, aid: Aid, after: AppView, effect: EffectView)
    requires
        app.answered(msg, aid, after, effect),
        !(msg is AddOverlay) && !(msg is EditText) && !(msg is SetOverlayProp)
            && !(msg is DeleteOverlay) && !(msg is RestackOverlay) && !(msg is DeleteSelection),
        !(msg is FrameOp) && !(msg is FramePaste) && !(msg is SetScopeDelay)
            && !(msg is SetAllFramesDelay) && !(msg is InsertImageFrame)
            && !(msg is AppendImageFrame),
        !(msg is MoveSelection) && !(msg is MoveSelectionTo) && !(msg is MoveFrame)
            && !(msg is DropEveryNth) && !(msg is SmartDrop),
        !(msg is CanvasPress) && !(msg is CanvasDrag) && !(msg is CanvasRelease)
            && !(msg is ApplyCrop) && !(msg is ApplyZoom) && !(msg is ApplyZoomAll)
            && !(msg is ApplyShrink) && !(msg is CropAll) && !(msg is Resize),
    ensures
        minds_its_own(app, msg, after),
{
}

/// What is set elsewhere stays through every message but its own: the keys, the
/// running of the animation, the bands, the limit on memory, and the clipboard.
pub proof fn law_each_thing_has_its_message(
    app: AppView,
    msg: Msg,
    aid: Aid,
    after: AppView,
    effect: EffectView,
)
    requires
        app.answered(msg, aid, after, effect),
    ensures
        !(msg is SetKeymap) ==> after.keymap == app.keymap,
        !(msg is TogglePlay) ==> after.playing == app.playing,
        !(msg is ToggleBandsExpanded) ==> after.bands_expanded == app.bands_expanded,
        after.max_import_bytes == app.max_import_bytes,
        after.estimate == app.estimate,
        after.estimate_pending == app.estimate_pending,
        !(msg is FrameCopy) && msg != Msg::FrameOp(crate::msg::FrameOp::Cut) ==> after.clipboard
            == app.clipboard,
        !(msg is InsertImageFrame) && !(msg is AppendImageFrame) ==> after.next_key == app.next_key,
{
    if msg is AddOverlay || msg is EditText || msg is SetOverlayProp || msg is DeleteOverlay
        || msg is RestackOverlay || msg is DeleteSelection {
        lemma_overlay_minds(app, msg, aid, after, effect);
    } else if msg is FrameOp || msg is FramePaste || msg is SetScopeDelay
        || msg is SetAllFramesDelay || msg is InsertImageFrame || msg is AppendImageFrame {
        lemma_frame_minds(app, msg, aid, after, effect);
    } else if msg is MoveSelection || msg is MoveSelectionTo || msg is MoveFrame
        || msg is DropEveryNth || msg is SmartDrop {
        lemma_moving_minds(app, msg, aid, after, effect);
    } else if msg is CanvasPress || msg is CanvasDrag || msg is CanvasRelease || msg is ApplyCrop
        || msg is ApplyZoom || msg is ApplyZoomAll || msg is ApplyShrink || msg is CropAll
        || msg is Resize {
        lemma_canvas_minds(app, msg, aid, after, effect);
    } else {
        lemma_other_minds(app, msg, aid, after, effect);
    }
}

/// The keys become those that were set, and are to be saved. The bands fold and
/// unfold.
pub proof fn law_the_keys_are_set(app: AppView, msg: Msg, aid: Aid, after: AppView, effect: EffectView)
    requires
        !app.blocked(msg),
        app.answered(msg, aid, after, effect),
    ensures
        msg matches Msg::SetKeymap(map) ==> after == (AppView { keymap: map, ..app }) && effect
            == EffectView::SaveKeymap,
        msg is ToggleBandsExpanded ==> after == (AppView {
            bands_expanded: !app.bands_expanded,
            ..app
        }),
{
}

} // verus!
