//! Chords, modifiers and the key map file.

use gifkino::actions::{actions, Action, Modal};
use gifkino::chord::{Chord, Mods};
use gifkino::keymap::{self, Keymap};
use gifkino::msg::{action_for_press, message_for, FrameOp, Msg, Tool, ZoomStep};

const NONE: Mods = Mods {
    ctrl: false,
    shift: false,
    alt: false,
};

#[test]
fn chords_round_trip_through_their_display_form() {
    for text in ["Ctrl+Z", "Ctrl+Shift+Z", "Space", "Delete", "T", "Ctrl+?"] {
        let chord = Chord::parse(text).expect(text);
        assert_eq!(
            Chord::parse(&chord.display()),
            Some(chord.clone()),
            "{text} -> {}",
            chord.display()
        );
    }
    // The file is hand-edited, so casing and spacing must not matter.
    assert_eq!(Chord::parse(" ctrl + z "), Chord::parse("Ctrl+Z"));
    assert_eq!(Chord::parse(""), None);
    assert_eq!(
        Chord::parse("Ctrl"),
        None,
        "a modifier alone is not a chord"
    );
}

#[test]
fn shift_is_part_of_a_letter_chord_and_not_of_a_symbol_one() {
    let undo = Chord::parse("Ctrl+Z").unwrap();
    let redo = Chord::parse("Ctrl+Shift+Z").unwrap();
    assert!(!undo.matches(&redo));
    assert!(undo.matches(&Chord::new(true, false, false, "z")));

    let help = Chord::parse("Ctrl+?").unwrap();
    assert!(help.matches(&Chord::new(true, true, false, "question")));
    assert_eq!(help.display(), "Ctrl+?", "no phantom Shift in the tooltip");
}

#[test]
fn the_defaults_are_the_shortcuts_that_were_hardcoded() {
    let map = Keymap::default();
    let fires = |ctrl, shift, key| map.actions_for(&Chord::new(ctrl, shift, false, key));
    assert_eq!(fires(true, false, "z"), vec![Action::Undo]);
    assert_eq!(fires(true, true, "z"), vec![Action::Redo]);
    assert_eq!(
        fires(true, false, "y"),
        vec![Action::Redo],
        "a second chord still redoes"
    );
    assert_eq!(fires(false, false, "space"), vec![Action::PlayPause]);
    assert_eq!(fires(false, false, "t"), vec![Action::ToolText]);
    // The clipboard keys everyone else uses, on frames.
    assert_eq!(fires(true, false, "x"), vec![Action::FrameCut]);
    assert_eq!(fires(true, false, "c"), vec![Action::FrameCopy]);
    assert_eq!(fires(true, false, "v"), vec![Action::FramePaste]);
    assert!(fires(false, false, "q").is_empty());
}

#[test]
fn a_rebind_moves_the_tooltip_with_it() {
    let mut map = Keymap::default();
    assert_eq!(map.tip("Undo", Action::Undo), "Undo (Ctrl+Z)");
    map.set(Action::Undo, vec![Chord::parse("Ctrl+Shift+U").unwrap()]);
    assert_eq!(map.tip("Undo", Action::Undo), "Undo (Ctrl+Shift+U)");
    // An action with no binding still gets a tooltip, just no hint.
    map.set(Action::Undo, Vec::new());
    assert_eq!(map.tip("Undo", Action::Undo), "Undo");
}

#[test]
fn duplicates_are_conflicts_unless_both_sides_are_tools() {
    let mut map = Keymap::default();
    assert!(map.conflicts().is_empty(), "{:?}", map.conflicts());

    map.set(Action::ToolRect, vec![Chord::parse("T").unwrap()]);
    assert_eq!(
        map.actions_for(&Chord::new(false, false, false, "t")),
        vec![Action::ToolText, Action::ToolRect]
    );
    assert!(map.conflicts().is_empty(), "tools may share a key");

    map.set(Action::Export, vec![Chord::parse("Ctrl+Z").unwrap()]);
    let conflicts = map.conflicts();
    assert!(
        conflicts.contains(&Action::Export) && conflicts.contains(&Action::Undo),
        "{conflicts:?}"
    );
}

#[test]
fn canvas_modifiers_default_to_impastos_and_round_trip() {
    let map = Keymap::default();
    assert_eq!(map.mods(Modal::Rotate), Mods { alt: true, ..NONE });
    assert_eq!(map.mods(Modal::Rotate).display(), "Alt");

    let alt_shift = Mods {
        alt: true,
        shift: true,
        ctrl: false,
    };
    assert!(
        map.mods(Modal::Rotate).held(alt_shift),
        "rotate and constrain at once"
    );
    assert!(!map.mods(Modal::Rotate).held(Mods {
        shift: true,
        ..NONE
    }));
    assert!(!NONE.held(alt_shift), "unbound is never held");

    let mut map = Keymap::default();
    map.set_mods(Modal::Rotate, Mods::parse("Ctrl+Shift"));
    let mut reloaded = Keymap::default();
    reloaded.apply(&map.to_text());
    assert_eq!(
        reloaded.mods(Modal::Rotate),
        Mods {
            ctrl: true,
            shift: true,
            alt: false
        }
    );
    assert_eq!(reloaded, map);

    // An empty right side unbinds, and a modal line is not an action line.
    let mut map = Keymap::default();
    map.apply("canvas-rotate =\n");
    assert!(map.mods(Modal::Rotate).is_empty());
}

#[test]
fn the_file_round_trips_and_survives_junk() {
    let mut map = Keymap::default();
    map.set(
        Action::FrameReverse,
        vec![Chord::parse("Ctrl+Alt+R").unwrap()],
    );
    let mut reloaded = Keymap::default();
    reloaded.apply(&map.to_text());
    assert_eq!(reloaded, map);

    let mut map = Keymap::default();
    map.apply("nonsense\n# undo = Ctrl+Q\nnot_an_action = Ctrl+Q\nundo =\n");
    assert!(
        map.chords(Action::Undo).is_empty(),
        "an empty right side unbinds"
    );
    assert_eq!(
        map.chords(Action::Redo).len(),
        2,
        "other actions are untouched"
    );
}

#[test]
fn every_action_has_a_name_of_its_own_that_finds_it() {
    let all = actions();
    for (i, action) in all.iter().enumerate() {
        let chars: Vec<char> = action.id().chars().collect();
        assert_eq!(Action::named(&chars), Some(*action));
        assert!(all[..i].iter().all(|other| other.id() != action.id()));
        assert!(!action.label().is_empty() && !action.group().is_empty());
    }
    assert!(Action::ToolCrop.is_tool() && !Action::Undo.is_tool());
}

#[test]
fn modifiers_read_back_from_what_they_show() {
    for (ctrl, shift, alt) in [(true, false, false), (true, true, false), (false, true, true)] {
        let mods = Mods { ctrl, shift, alt };
        assert_eq!(Mods::parse(&mods.display()), mods);
    }
}

#[test]
fn keys_fire_the_messages_of_their_actions() {
    assert!(matches!(message_for(Action::Undo), Msg::Undo));
    assert!(matches!(
        message_for(Action::ToolArrow),
        Msg::AddOverlay(Tool::Arrow)
    ));
    assert!(matches!(
        message_for(Action::FrameCut),
        Msg::FrameOp(FrameOp::Cut)
    ));
    assert!(matches!(
        message_for(Action::StripZoomReset),
        Msg::StripZoom(ZoomStep::Reset)
    ));
    match message_for(Action::ShowShortcuts) {
        Msg::Toast(text) => assert_eq!(text, ""),
        other => panic!("{other:?}"),
    }
}

#[test]
fn tools_that_share_a_key_take_turns() {
    let tools = vec![Action::ToolText, Action::ToolRect];
    let (first, cycle) = action_for_press(&tools, 0);
    assert_eq!((first, cycle), (Some(Action::ToolRect), 1));
    let (second, cycle) = action_for_press(&tools, cycle);
    assert_eq!((second, cycle), (Some(Action::ToolText), 0));
    assert_eq!(action_for_press(&Vec::new(), 7), (None, 7));
    assert_eq!(
        action_for_press(&vec![Action::Undo], 7),
        (Some(Action::Undo), 7)
    );
    assert_eq!(
        action_for_press(&tools, usize::MAX),
        (Some(Action::ToolText), 0)
    );
}

#[test]
fn the_bindings_lie_beside_the_settings() {
    assert_eq!(
        keymap::path(Some("/etc/xdg"), None).as_deref(),
        Some("/etc/xdg/gifkino/keybindings.conf")
    );
    assert_eq!(
        keymap::path(None, Some("/home/u")).as_deref(),
        Some("/home/u/.config/gifkino/keybindings.conf")
    );
    assert_eq!(keymap::path(None, None), None);
}

#[test]
fn every_action_is_labelled_as_the_shortcuts_window_shows_it() {
    let labels: Vec<&str> = actions().iter().map(|action| action.label()).collect();
    assert_eq!(
        labels,
        vec![
            "Open",
            "Export GIF",
            "Undo",
            "Redo",
            "Play/pause",
            "Select all frames",
            "Delete selection",
            "Keyboard shortcuts",
            "Text tool",
            "Rectangle tool",
            "Ellipse tool",
            "Arrow tool",
            "Crop tool",
            "Delete frames",
            "Duplicate frames",
            "Cut frames",
            "Copy frames",
            "Paste frames",
            "Reverse frames",
            "Zoom this frame",
            "Zoom in the frame strip",
            "Zoom out the frame strip",
            "Reset the frame strip zoom",
        ]
    );
}

#[test]
fn a_shift_that_does_not_count_is_not_shown() {
    let read = Chord::parse("Shift+Space").unwrap();
    assert!(read.shift && !read.shift_matters());
    assert_eq!(read.display(), "Space");
    let again = Chord::parse(&read.display()).unwrap();
    assert!(!again.shift);
    assert!(read.matches(&again) && again.matches(&read));
    let kept = Chord::parse("Shift+Q").unwrap();
    assert_eq!(Chord::parse(&kept.display()), Some(kept));
}

#[test]
fn a_file_read_and_written_binds_the_same_keys() {
    let mut map = Keymap::default();
    map.apply("undo = shift+?, Del\nredo =\nrotate = ctrl + alt\n");
    let mut again = Keymap::default();
    again.apply(&map.to_text());
    let undo: Vec<String> = again.chords(Action::Undo).iter().map(|c| c.display()).collect();
    assert_eq!(undo, vec!["?", "Delete"]);
    assert!(again.chords(Action::Redo).is_empty());
    assert_eq!(again.mods(Modal::Rotate), map.mods(Modal::Rotate));
    let mut third = Keymap::default();
    third.apply(&again.to_text());
    assert!(third == again);
}

#[test]
fn a_bare_modifier_is_no_chord() {
    for (name, held) in [
        ("Control_L", Mods { ctrl: true, ..NONE }),
        ("Shift_R", Mods { shift: true, ..NONE }),
        ("Alt_L", Mods { alt: true, ..NONE }),
        ("Meta_R", Mods { alt: true, ..NONE }),
    ] {
        assert_eq!(Mods::from_event(Some(name), NONE), Some(held), "{name}");
        assert_eq!(Chord::from_event(Some(name), NONE), None, "{name}");
    }
    assert_eq!(Mods::from_event(Some("z"), NONE), None);
    let ctrl = Mods { ctrl: true, ..NONE };
    assert_eq!(
        Chord::from_event(Some("Z"), ctrl),
        Some(Chord::new(true, false, false, "z"))
    );
    assert_eq!(Chord::from_event(None, ctrl), None);
}
