//! What the pointer means on the frame strip.

use vstd::prelude::*;

use crate::chord::Mods;
use crate::msg::Msg;

verus! {

/// Whether a frame is one of several in scope.
pub open spec fn in_selection(scope: Seq<usize>, frame: usize) -> bool {
    scope.len() > 1 && scope.contains(frame)
}

/// Whether a press on the frame lands on the active selection.
pub fn on_selection(scope: &Vec<usize>, frame: usize) -> (r: bool)
    ensures
        r == in_selection(scope@, frame),
{
    if scope.len() <= 1 {
        return false;
    }
    let mut i: usize = 0;
    while i < scope.len()
        invariant
            scope@.len() > 1,
            i <= scope@.len(),
            forall|k: int| 0 <= k < i ==> #[trigger] scope@[k] != frame,
        decreases scope@.len() - i,
    {
        if scope[i] == frame {
            return true;
        }
        i = i + 1;
    }
    false
}

/// What a press on a thumbnail sends: Shift takes a run up to the frame, Ctrl
/// the one frame, anything else goes to it.
///
/// A press on a frame that is inside the active selection must not collapse
/// the selection on the spot: the click may be the start of a drag that moves
/// the whole selection, and the drop still needs to find it. Nothing is sent
/// then; a plain release — no drag — goes to the frame, which is what a click
/// means.
pub fn thumb_press(scope: &Vec<usize>, frame: usize, state: Mods) -> (r: Option<Msg>)
    ensures
        if state.shift {
            r == Some(Msg::ExtendSelection(frame))
        } else if state.ctrl {
            r == Some(Msg::ToggleSelection(frame))
        } else if in_selection(scope@, frame) {
            r is None
        } else {
            r == Some(Msg::Seek(frame))
        },
{
    if state.shift {
        Some(Msg::ExtendSelection(frame))
    } else if state.ctrl {
        Some(Msg::ToggleSelection(frame))
    } else if on_selection(scope, frame) {
        None
    } else {
        Some(Msg::Seek(frame))
    }
}

/// What a right-click on a thumbnail sends, and whether the menu it opens acts
/// on the whole selection. A right-click inside the active selection keeps it;
/// anywhere else it goes to the frame first, so that the menu acts on that
/// frame.
pub fn menu_press(scope: &Vec<usize>, frame: usize) -> (r: (Msg, bool))
    ensures
        r.1 == in_selection(scope@, frame),
        r.0 == if r.1 {
            Msg::SeekKeepSelection(frame)
        } else {
            Msg::Seek(frame)
        },
{
    if on_selection(scope, frame) {
        (Msg::SeekKeepSelection(frame), true)
    } else {
        (Msg::Seek(frame), false)
    }
}

/// Whether an armed press still goes to its frame when the button comes up:
/// not once it has become a drag.
pub fn thumb_release(armed: Option<usize>, dragged: bool) -> (r: Option<Msg>)
    ensures
        match r {
            Some(msg) => !dragged && armed is Some && msg == Msg::Seek(armed->0),
            None => dragged || armed is None,
        },
{
    match armed {
        Some(frame) => if dragged {
            None
        } else {
            Some(Msg::Seek(frame))
        },
        None => None,
    }
}

} // verus!
