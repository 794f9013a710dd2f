//! What the keys and the buttons of the window do.

use vstd::prelude::*;

use crate::actions::{action_at, Action, ACTION_COUNT};
use crate::app::{is_held, Aid, AppView, EffectView};
use crate::bindings::{Answer, BindingsView, Waiting};
use crate::chord::{normalized, ChordView, Mods};
use crate::cmd::Cmd;
use crate::edit_laws::{chosen, law_the_scope_is_what_was_chosen};
use crate::keymap::KeymapView;
use crate::msg::{answer, FrameOp, Msg, ScopeChoice, ZoomStep};
use crate::screen::{band_on, corner_octant, Band};
use crate::strip::in_selection;
use crate::text::has_prefix;
use crate::work::BusyKind;

verus! {

/// A chord fires on the same keys and no others. Shift counts with a letter or a
/// digit and with no other key.
pub proof fn law_a_chord_fires_on_its_own_keys(a: ChordView, b: ChordView)
    ensures
        a == b ==> a.fires(b),
        a.ctrl != b.ctrl ==> !a.fires(b),
        a.alt != b.alt ==> !a.fires(b),
        a.key != b.key ==> !a.fires(b),
        a.fires(b) == b.fires(a),
        ({
            let plain = a.key.len() == 1 && ('0' <= a.key[0] <= '9' || 'a' <= a.key[0] <= 'z' || 'A'
                <= a.key[0] <= 'Z');
            &&& plain && a.shift != b.shift ==> !a.fires(b)
            &&& !plain && b == (ChordView { shift: !a.shift, ..a }) ==> a.fires(b)
        }),
{
}

proof fn lemma_fired(k: KeymapView, chord: ChordView, n: nat, i: int)
    requires
        0 <= i < n,
    ensures
        k.fires_at(chord, i) ==> k.fired(chord, n).contains(action_at(i)),
        forall|a: int|
            0 <= a < k.fired(chord, n).len() ==> exists|j: int|
                0 <= j < n && #[trigger] k.fires_at(chord, j) && action_at(j) == (
                #[trigger] k.fired(chord, n)[a]),
    decreases n,
{
    let all = k.fired(chord, n);
    let before = k.fired(chord, (n - 1) as nat);
    if n > 1 {
        lemma_fired(
            k,
            chord,
            (n - 1) as nat,
            if i < n - 1 {
                i
            } else {
                0
            },
        );
    } else {
        assert(before.len() == 0);
    }
    if k.fires_at(chord, i) {
        if i < n - 1 {
            let a = choose|a: int| 0 <= a < before.len() && before[a] == action_at(i);
            assert(all[a] == action_at(i));
        } else {
            assert(all[all.len() - 1] == action_at(i));
        }
    }
    assert forall|a: int| 0 <= a < all.len() implies exists|j: int|
        0 <= j < n && #[trigger] k.fires_at(chord, j) && action_at(j) == (#[trigger] all[a]) by {
        if a < before.len() {
            assert(all[a] == before[a]);
            let j = choose|j: int|
                0 <= j < n - 1 && #[trigger] k.fires_at(chord, j) && action_at(j) == before[a];
            assert(k.fires_at(chord, j));
        } else {
            assert(k.fires_at(chord, n - 1));
        }
    }
}

/// A key press fires the actions that one of its chords is bound to, and only
/// those.
pub proof fn law_a_press_fires_what_is_bound(k: KeymapView, chord: ChordView, i: int, c: int)
    requires
        k.wf(),
        0 <= i < ACTION_COUNT,
    ensures
        0 <= c < k.binds[i].len() && k.binds[i][c].fires(chord) ==> k.fired(
            chord,
            ACTION_COUNT as nat,
        ).contains(action_at(i)),
        (forall|j: int, d: int|
            0 <= j < ACTION_COUNT && 0 <= d < k.binds[j].len() ==> !(
            #[trigger] k.binds[j][d]).fires(chord)) ==> k.fired(chord, ACTION_COUNT as nat).len()
            == 0,
{
    let all = k.fired(chord, ACTION_COUNT as nat);
    lemma_fired(k, chord, ACTION_COUNT as nat, i);
    if 0 <= c < k.binds[i].len() && k.binds[i][c].fires(chord) {
        assert(k.fires_at(chord, i));
    }
    if all.len() > 0 {
        let one = all[0];
        let j = choose|j: int|
            0 <= j < ACTION_COUNT && #[trigger] k.fires_at(chord, j) && action_at(j) == all[0];
        let d = choose|d: int| 0 <= d < k.binds[j].len() && (#[trigger] k.binds[j][d]).fires(chord);
        assert(k.binds[j][d].fires(chord));
    }
}

/// While a chord is awaited for an action, a press of a key that is no modifier
/// binds the action to that key and the modifiers that are down, and to nothing
/// else.
pub proof fn law_a_pressed_key_is_bound(
    b: BindingsView,
    action: Action,
    name: Seq<char>,
    state: Mods,
)
    requires
        b.map.wf(),
        b.waiting == Waiting::Chord(action),
        name != "Escape"@,
        !has_prefix(name, "Control"@),
        !has_prefix(name, "Shift"@),
        !has_prefix(name, "Alt"@),
        !has_prefix(name, "Meta"@),
    ensures
        ({
            let (after, answer) = b.pressed(Some(name), state);
            let chords = after.map.chords_of(action);
            &&& answer == Answer::Bound
            &&& after.waiting == Waiting::Nothing
            &&& chords.len() == 1
            &&& chords[0].ctrl == state.ctrl
            &&& chords[0].shift == state.shift
            &&& chords[0].alt == state.alt
            &&& chords[0].key == normalized(name)
        }),
{
    crate::actions::lemma_action_rank(action);
}

/// A modifier that is to be held is held while it is down, whatever else is.
/// None at all is never held.
pub proof fn law_a_modifier_is_held(wanted: Mods, state: Mods)
    ensures
        wanted == (Mods { ctrl: false, shift: false, alt: false }) ==> !is_held(wanted, state),
        wanted.ctrl && !state.ctrl ==> !is_held(wanted, state),
        wanted.shift && !state.shift ==> !is_held(wanted, state),
        wanted.alt && !state.alt ==> !is_held(wanted, state),
        wanted.ctrl || wanted.shift || wanted.alt ==> is_held(wanted, wanted) && is_held(
            wanted,
            Mods { ctrl: true, shift: true, alt: true },
        ),
{
}

/// Opposite corners show opposite arrows.
pub proof fn law_opposite_corners_point_apart(corner: int)
    requires
        0 <= corner < 4,
    ensures
        corner_octant(3 - corner) == (corner_octant(corner) + 4) % 8,
        corner_octant(corner) % 2 == 1,
{
}

/// Of the frames in the strip the one on screen is marked, and of the others
/// those that are chosen.
pub proof fn law_the_strip_marks_what_is_chosen(app: AppView, i: int)
    requires
        app.wf(),
        0 <= i < app.doc().frames.len(),
    ensures
        app.marks(i).playhead <==> i == app.playhead,
        app.marks(i).in_scope <==> chosen(app, i) && i != app.playhead,
        app.marks(i).selected <==> app.selection.contains(i as usize),
{
    law_the_scope_is_what_was_chosen(app, i as usize);
    if app.selection.contains(i as usize) {
        let k = choose|k: int| 0 <= k < app.selection.len() && app.selection[k] == i as usize;
        assert(app.selection[k] == i);
    }
    if crate::scope::picks(app.selection, i) {
        let k = choose|k: int| 0 <= k < app.selection.len() && #[trigger] app.selection[k] == i;
        assert(app.selection[k] == i as usize);
    }
}

/// A button that is offered does not wait, and there is something for it to do.
pub proof fn law_what_is_offered_can_be_done(app: AppView, crop_drawn: bool, op: FrameOp)
    ensures
        ({
            let c = app.controls(crop_drawn);
            &&& c.undo ==> !app.blocked(Msg::Undo) && app.editor.past.len() > 0
            &&& c.redo ==> !app.blocked(Msg::Redo) && app.editor.future.len() > 0
            &&& c.open ==> !app.blocked(Msg::Open)
            &&& c.export ==> !app.blocked(Msg::Export) && app.doc().frames.len() > 0
            &&& c.frames ==> !app.blocked(Msg::FrameOp(op)) && app.doc().frames.len() > 0
            &&& c.crop ==> !app.blocked(Msg::ApplyCrop) && !app.blocked(Msg::ApplyZoom)
                && !app.blocked(Msg::ApplyShrink)
            &&& c.empty <==> app.doc().frames.len() == 0
            &&& c.bar <==> app.busy is Some
            &&& c.cancel ==> c.bar
        }),
{
}

/// While nothing is under way, everything there is something to do for is
/// offered.
pub proof fn law_an_idle_window_offers_what_it_can(app: AppView, crop_drawn: bool)
    requires
        app.busy is None,
    ensures
        ({
            let c = app.controls(crop_drawn);
            &&& c.undo <==> app.editor.past.len() > 0
            &&& c.redo <==> app.editor.future.len() > 0
            &&& c.open
            &&& c.export <==> app.doc().frames.len() > 0
            &&& c.frames <==> app.doc().frames.len() > 0
            &&& c.tools <==> app.doc().frames.len() > 0
            &&& c.delay <==> app.doc().frames.len() > 0
            &&& c.crop <==> crop_drawn
            &&& !c.cancel
        }),
{
}

/// Progress is shown on the bar that is out, and changes nothing else.
pub proof fn law_progress_moves_the_bar(app: AppView, done: usize, total: usize)
    ensures
        ({
            let after = app.answered_cmd(Cmd::WorkProgress(done, total)).0;
            let import = app.answered_cmd(Cmd::ImportProgress(done, None)).0;
            &&& app.busy is None ==> after == app && import == app
            &&& app.busy is Some ==> {
                &&& after.busy matches Some(busy)
                &&& busy.kind == app.busy->Some_0.kind
                &&& busy.done == done
                &&& busy.total == Some(total)
                &&& import.busy is Some && import.busy->Some_0.total is None
                    && import.busy->Some_0.done == done
            }
            &&& after == (AppView { busy: after.busy, ..app })
        }),
{
}

/// No two keys do the same.
pub proof fn law_no_two_keys_do_the_same(a: Action, b: Action)
    requires
        a != b,
    ensures
        answer(a) != answer(b),
{
}

/// The keys for the steps go back and forth, the one for all frames chooses them
/// all, and those of the strip zoom the way they say.
pub proof fn law_the_keys_do_what_they_say(
    app: AppView,
    action: Action,
    aid: Aid,
    after: AppView,
    effect: EffectView,
)
    requires
        app.wf(),
        app.busy is None,
        answer(action) matches Some(msg) && app.answered(msg, aid, after, effect),
        app.doc().frames.len() > 1,
    ensures
        action == Action::Undo && app.editor.past.len() > 0 ==> after.doc()
            == app.editor.past.last().doc && after.editor.past.len() == app.editor.past.len() - 1,
        action == Action::Redo && app.editor.future.len() > 0 ==> after.doc()
            == app.editor.future.last().doc && after.editor.future.len() == app.editor.future.len()
            - 1,
        action == Action::PlayPause ==> after.playing != app.playing,
        action == Action::SelectAll ==> after.scope == ScopeChoice::AllFrames,
        action == Action::Export ==> effect == EffectView::ExportDialog,
        action == Action::Open ==> effect == EffectView::OpenDialog,
        action == Action::ToolCrop ==> after.crop_tool != app.crop_tool,
        action == Action::StripZoomIn ==> effect == EffectView::StripZoom(ZoomStep::In),
        action == Action::StripZoomOut ==> effect == EffectView::StripZoom(ZoomStep::Out),
        action == Action::FrameCopy && app.scope_frames().len() > 0 ==> effect is Copied
            && after.doc() == app.doc(),
        action == Action::FramePaste ==> after.doc().frames.len() == app.doc().frames.len()
            + app.clipboard.len(),
        action == Action::Delete && app.selected_overlay is None && app.selection.len() == 0 ==>
            after.doc() == app.doc(),
{
}

/// A dialog opens on what it is about: the frame that was asked for among all,
/// the delay of the first frame, the size of the canvas.
pub proof fn law_a_dialog_opens_on_its_subject(
    app: AppView,
    msg: Msg,
    aid: Aid,
    after: AppView,
    effect: EffectView,
)
    requires
        app.wf(),
        !app.blocked(msg),
        app.answered(msg, aid, after, effect),
        app.doc().frames.len() > 0,
    ensures
        msg is MoveFrameDialog && msg->MoveFrameDialog_0 < app.doc().frames.len() ==> effect
            == (EffectView::MoveFrameDialog {
            index: msg->MoveFrameDialog_0,
            count: app.doc().frames.len() as usize,
        }),
        msg is DelayAllDialog ==> effect == (EffectView::DelayAllDialog {
            count: app.doc().frames.len() as usize,
            delay_cs: app.doc().frames[0].delay_cs,
        }),
        msg is CropAllDialog && app.doc().frames[0].pixels.width > 0
            && app.doc().frames[0].pixels.height > 0 ==> effect == (EffectView::CropDialog {
            width: app.doc().frames[0].pixels.width,
            height: app.doc().frames[0].pixels.height,
        }),
{
}

/// Opening a file replaces the document when it is read, adding one adds to it;
/// with nothing to add to it is opened. Only an import can be stopped.
pub proof fn law_an_import_says_what_it_is_for(
    app: AppView,
    msg: Msg,
    aid: Aid,
    after: AppView,
    effect: EffectView,
)
    requires
        !app.blocked(msg),
        app.answered(msg, aid, after, effect),
    ensures
        msg is Load ==> !after.import_append && effect == EffectView::PlanImport
            && after.busy is Some,
        msg is LoadAppend && app.doc().frames.len() > 0 ==> after.import_append && effect
            == EffectView::PlanImport && after.busy is Some,
        msg is LoadAppend && app.doc().frames.len() == 0 ==> effect == EffectView::OpenInstead
            && after == app,
        msg is LoadConfirmed ==> after.import_append == app.import_append && effect
            == EffectView::StartLoad,
        msg is CancelImport ==> after == app && (effect == EffectView::StopImport <==> (
        app.busy is Some && app.busy->Some_0.kind == BusyKind::Import)),
{
}

/// A frame operation that goes over every frame is announced, so that it can be
/// taken back; one that goes over some is not.
pub proof fn law_a_sweeping_edit_is_announced(
    app: AppView,
    op: FrameOp,
    aid: Aid,
    after: AppView,
    effect: EffectView,
)
    requires
        app.wf(),
        !app.blocked(Msg::FrameOp(op)),
        app.answered(Msg::FrameOp(op), aid, after, effect),
        app.scope_frames().len() > 0,
    ensures
        effect is Toast <==> app.scope_frames().len() == app.doc().frames.len(),
{
    crate::scope::lemma_ascending(app.count(), |k: int| app.names(k));
}

/// A click on the band area finds the band that lies there, and none where none
/// does.
pub proof fn law_a_click_finds_the_band(bands: Seq<Band>, row: usize, frame: int, from: int)
    requires
        0 <= from <= bands.len(),
    ensures
        ({
            let k = band_on(bands, row, frame, from);
            &&& from <= k <= bands.len()
            &&& k < bands.len() ==> bands[k].row == row && bands[k].range.start <= frame && frame
                < bands[k].range.end
            &&& forall|a: int|
                from <= a < k ==> !((#[trigger] bands[a]).row == row && bands[a].range.start <= frame
                    && frame < bands[a].range.end)
        }),
    decreases bands.len() - from,
{
    if from < bands.len() && !(bands[from].row == row && bands[from].range.start <= frame && frame
        < bands[from].range.end) {
        law_a_click_finds_the_band(bands, row, frame, from + 1);
    }
}

/// A frame alone is no selection; in one of several each counts.
pub proof fn law_one_frame_is_no_selection(scope: Seq<usize>, frame: usize)
    ensures
        scope.len() == 1 ==> !in_selection(scope, frame),
        scope.len() > 1 ==> (in_selection(scope, frame) <==> exists|k: int|
            0 <= k < scope.len() && #[trigger] scope[k] == frame),
{
}

} // verus!
