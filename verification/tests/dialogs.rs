//! The shortcuts editor, the strip's pointer and the dialogs.

use gifkino::actions::{Action, Modal};
use gifkino::bindings::{Answer, Bindings, Waiting};
use gifkino::chord::Mods;
use gifkino::cmd::ImportOutcome;
use gifkino::dialogs::{
    crop_room, delay_title, import_sizes, size_label, typed_place, OptimizeDialog,
};
use gifkino::i18n::Catalog;
use gifkino::keymap::Keymap;
use gifkino::msg::Msg;
use gifkino::strip::{menu_press, on_selection, thumb_press, thumb_release};

const NONE: Mods = Mods {
    ctrl: false,
    shift: false,
    alt: false,
};

#[test]
fn a_row_waits_for_a_key_and_takes_it() {
    let catalog = Catalog::new();
    let mut b = Bindings::new(Keymap::default());
    assert_eq!(b.press(Some("q"), NONE), Answer::Pass, "nothing asked");
    assert_eq!(b.chord_label(&catalog, Action::Open), "Ctrl+O");

    b.ask(Waiting::Chord(Action::Open));
    assert_eq!(b.chord_label(&catalog, Action::Open), "Press a key…");
    assert_eq!(
        b.press(Some("Control_L"), NONE),
        Answer::Swallowed,
        "still pressing"
    );
    let ctrl = Mods { ctrl: true, ..NONE };
    assert_eq!(b.press(Some("q"), ctrl), Answer::Bound);
    assert_eq!(b.chord_label(&catalog, Action::Open), "Ctrl+Q");
    assert_eq!(b.waiting, Waiting::Nothing);

    b.unbind(Action::Open);
    assert_eq!(b.chord_label(&catalog, Action::Open), "Unassigned");
    b.reset();
    assert_eq!(b.map, Keymap::default());
}

#[test]
fn escape_withdraws_the_question() {
    let mut b = Bindings::new(Keymap::default());
    b.ask(Waiting::Chord(Action::Open));
    assert_eq!(b.press(Some("Escape"), NONE), Answer::GaveUp);
    b.ask(Waiting::Held(Modal::Rotate));
    assert_eq!(b.press(Some("Escape"), NONE), Answer::GaveUp);
    assert_eq!(b.map, Keymap::default());
}

#[test]
fn a_canvas_modifier_takes_only_modifiers() {
    let catalog = Catalog::new();
    let mut b = Bindings::new(Keymap::default());
    assert_eq!(b.mods_label(&catalog, Modal::Rotate), "Alt");
    b.ask(Waiting::Held(Modal::Rotate));
    assert_eq!(b.mods_label(&catalog, Modal::Rotate), "Hold a modifier…");
    assert_eq!(b.press(Some("x"), NONE), Answer::Swallowed);
    assert_eq!(b.press(None, NONE), Answer::Swallowed);
    assert_eq!(b.press(Some("Shift_L"), NONE), Answer::Bound);
    assert_eq!(b.mods_label(&catalog, Modal::Rotate), "Shift");
    b.unbind_mods(Modal::Rotate);
    assert_eq!(b.mods_label(&catalog, Modal::Rotate), "Unassigned");
}

#[test]
fn a_key_taken_twice_is_said_to_be() {
    let mut b = Bindings::new(Keymap::default());
    assert!(!b.clashes(Action::Open));
    b.ask(Waiting::Chord(Action::Open));
    let ctrl = Mods { ctrl: true, ..NONE };
    b.press(Some("z"), ctrl);
    assert!(b.clashes(Action::Open) && b.clashes(Action::Undo));
}

#[test]
fn a_press_inside_the_selection_waits_for_the_release() {
    let picked = vec![1, 2, 4];
    assert!(on_selection(&picked, 4) && !on_selection(&picked, 3));
    assert!(!on_selection(&vec![4], 4), "one frame is no selection");
    assert!(thumb_press(&picked, 2, NONE).is_none());
    assert!(matches!(
        thumb_press(&picked, 3, NONE),
        Some(Msg::Seek(3))
    ));
    let ctrl = Mods { ctrl: true, ..NONE };
    let shift = Mods {
        shift: true,
        ..ctrl
    };
    assert!(matches!(
        thumb_press(&picked, 2, ctrl),
        Some(Msg::ToggleSelection(2))
    ));
    assert!(matches!(
        thumb_press(&picked, 2, shift),
        Some(Msg::ExtendSelection(2))
    ));
    assert!(matches!(
        thumb_release(Some(2), false),
        Some(Msg::Seek(2))
    ));
    assert!(thumb_release(Some(2), true).is_none(), "it was a drag");
    assert!(thumb_release(None, false).is_none());
    assert!(matches!(
        menu_press(&picked, 2),
        (Msg::SeekKeepSelection(2), true)
    ));
    assert!(matches!(menu_press(&picked, 0), (Msg::Seek(0), false)));
}

#[test]
fn the_recommended_size_leads_and_is_not_repeated() {
    let catalog = Catalog::new();
    let sizes = import_sizes((1280, 720), &vec![(1280, 720), (960, 540), (640, 360)]);
    assert_eq!(sizes, vec![(1280, 720), (960, 540), (640, 360)]);
    assert_eq!(
        size_label(&catalog, sizes[0], true),
        "1280 × 720 (recommended)"
    );
    assert_eq!(size_label(&catalog, sizes[1], false), "960 × 540");
}

#[test]
fn dialogs_answer_within_their_bounds() {
    let catalog = Catalog::new();
    assert_eq!(typed_place(3, 5), 2);
    assert_eq!(typed_place(0, 5), 0);
    assert_eq!(typed_place(9, 5), 4);
    assert_eq!(crop_room(10, 3), 7);
    assert_eq!(crop_room(10, 10), 1);
    assert_eq!(delay_title(&catalog, &vec![4]), "Frame 5");
    assert_eq!(delay_title(&catalog, &vec![1, 4]), "2 selected frames");
    assert!(matches!(
        OptimizeDialog::Remove.message(3, 0),
        Msg::DropEveryNth(3)
    ));
    assert!(matches!(
        OptimizeDialog::Smart.message(30, 0),
        Msg::SmartDrop(30)
    ));
    assert!(matches!(
        OptimizeDialog::Resize.message(480, 270),
        Msg::Resize(480, 270)
    ));
    assert_eq!(OptimizeDialog::Smart.bounds(), (5, 90, 5));
    assert_eq!(OptimizeDialog::Resize.start(), 480);
}

#[test]
fn a_cancelled_import_is_cancelled_whatever_decoded() {
    assert!(matches!(
        ImportOutcome::of(true, Ok(Vec::new())),
        ImportOutcome::Cancelled
    ));
    assert!(matches!(
        ImportOutcome::of(true, Err("no".into())),
        ImportOutcome::Cancelled
    ));
    assert!(matches!(
        ImportOutcome::of(false, Ok(Vec::new())),
        ImportOutcome::Loaded(_)
    ));
    assert!(matches!(
        ImportOutcome::of(false, Err("no".into())),
        ImportOutcome::Failed(_)
    ));
}
