//! The keybinding editor, which is also the shortcuts window: one list that
//! both shows what a key does and lets it be changed.

use vstd::prelude::*;

use crate::actions::{lemma_action_rank, Action, Modal};
use crate::chord::{normalized, Chord, ChordView, Mods};
use crate::i18n::{t, translated, Catalog};
use crate::keymap::{chord_views, listed, Keymap, KeymapView};
use crate::text::{has_prefix, same_text, text_of};

verus! {

/// Which row is waiting for a key press, if any. Chords and canvas modifiers
/// capture the same way but read different halves of the event.
#[derive(Clone, Copy, PartialEq, Eq, Debug, Structural)]
pub enum Waiting {
    Nothing,
    Chord(Action),
    Held(Modal),
}

/// What a key press came to.
#[derive(Clone, Copy, PartialEq, Eq, Debug, Structural)]
pub enum Answer {
    /// Nothing was asked for: the key goes to whoever else wants it.
    Pass,
    /// No answer to the question, so swallowed rather than bound.
    Swallowed,
    /// Escape: the question is withdrawn.
    GaveUp,
    /// The key is bound, and the keymap is to be saved.
    Bound,
}

#[derive(Debug)]
pub struct Bindings {
    pub map: Keymap,
    pub waiting: Waiting,
}

/// What a `Bindings` holds.
pub struct BindingsView {
    pub map: KeymapView,
    pub waiting: Waiting,
}

impl View for Bindings {
    type V = BindingsView;

    open spec fn view(&self) -> BindingsView {
        BindingsView { map: self.map@, waiting: self.waiting }
    }
}

/// The modifiers down after a key press, if the key is one.
pub open spec fn mods_pressed(name: Option<Seq<char>>, state: Mods) -> Option<Mods> {
    match name {
        None => None,
        Some(name) => if has_prefix(name, "Control"@) {
            Some(Mods { ctrl: true, ..state })
        } else if has_prefix(name, "Shift"@) {
            Some(Mods { shift: true, ..state })
        } else if has_prefix(name, "Alt"@) || has_prefix(name, "Meta"@) {
            Some(Mods { alt: true, ..state })
        } else {
            None
        },
    }
}

/// The chord of a key press, unless the key is a bare modifier.
pub open spec fn chord_pressed(name: Option<Seq<char>>, state: Mods) -> Option<ChordView> {
    match name {
        None => None,
        Some(name) => if has_prefix(name, "Control"@) || has_prefix(name, "Shift"@) || has_prefix(
            name,
            "Alt"@,
        ) || has_prefix(name, "Meta"@) {
            None
        } else {
            Some(
                ChordView {
                    ctrl: state.ctrl,
                    shift: state.shift,
                    alt: state.alt,
                    key: normalized(name),
                },
            )
        },
    }
}

impl BindingsView {
    /// Nothing is waiting any more.
    pub open spec fn settled(self) -> BindingsView {
        BindingsView { waiting: Waiting::Nothing, ..self }
    }

    /// With these chords on an action.
    pub open spec fn bound(self, action: Action, chords: Seq<ChordView>) -> BindingsView {
        BindingsView {
            map: KeymapView { binds: self.map.binds.update(action.rank(), chords), ..self.map },
            ..self
        }
    }

    /// With this set of modifiers on a canvas drag.
    pub open spec fn held(self, modal: Modal, mods: Mods) -> BindingsView {
        BindingsView {
            map: KeymapView { modals: self.map.modals.update(modal.rank(), mods), ..self.map },
            ..self
        }
    }

    /// What a key press does, and what it came to.
    pub open spec fn pressed(self, name: Option<Seq<char>>, state: Mods) -> (BindingsView, Answer) {
        match self.waiting {
            Waiting::Nothing => (self, Answer::Pass),
            Waiting::Held(modal) => if name == Some("Escape"@) {
                (self.settled(), Answer::GaveUp)
            } else {
                match mods_pressed(name, state) {
                    Some(mods) => (self.held(modal, mods).settled(), Answer::Bound),
                    None => (self, Answer::Swallowed),
                }
            },
            Waiting::Chord(action) => if name == Some("Escape"@) {
                (self.settled(), Answer::GaveUp)
            } else {
                match chord_pressed(name, state) {
                    Some(chord) => (self.bound(action, seq![chord]).settled(), Answer::Bound),
                    None => (self, Answer::Swallowed),
                }
            },
        }
    }
}

/// A press is read as held modifiers or as a chord, never as both.
pub proof fn law_a_bare_modifier_is_no_chord(name: Option<Seq<char>>, state: Mods)
    ensures
        name is Some ==> (mods_pressed(name, state) is Some <==> chord_pressed(name, state) is None),
        name is None ==> mods_pressed(name, state) is None && chord_pressed(name, state) is None,
{
}

/// What a row's button says: that it is waiting, that nothing is bound, or
/// what is.
pub open spec fn row_text(
    catalog: Map<Seq<char>, Seq<char>>,
    waiting: bool,
    asking: Seq<char>,
    unbound: bool,
    shown: Seq<char>,
) -> Seq<char> {
    if waiting {
        translated(catalog, asking)
    } else if unbound {
        translated(catalog, "Unassigned"@)
    } else {
        shown
    }
}

impl Bindings {
    /// The editor opened on a keymap.
    pub fn new(map: Keymap) -> (r: Bindings)
        requires
            map@.wf(),
        ensures
            r@ == (BindingsView { map: map@, waiting: Waiting::Nothing }),
    {
        Bindings { map, waiting: Waiting::Nothing }
    }

    /// A row was clicked, and now waits for a key.
    pub fn ask(&mut self, row: Waiting)
        ensures
            final(self)@ == (BindingsView { waiting: row, ..old(self)@ }),
    {
        self.waiting = row;
    }

    /// Take an action's chords away.
    pub fn unbind(&mut self, action: Action)
        requires
            old(self)@.map.wf(),
        ensures
            final(self)@ == old(self)@.bound(action, seq![]),
            final(self)@.map.wf(),
    {
        let none: Vec<Chord> = Vec::new();
        assert(chord_views(none@) =~= seq![]);
        self.map.set(action, none);
    }

    /// Take a canvas modifier away.
    pub fn unbind_mods(&mut self, modal: Modal)
        requires
            old(self)@.map.wf(),
        ensures
            final(self)@ == old(self)@.held(modal, Mods::none()),
            final(self)@.map.wf(),
    {
        self.map.set_mods(modal, Mods { ctrl: false, shift: false, alt: false });
    }

    /// Back to the keymap the application ships with.
    pub fn reset(&mut self)
        ensures
            final(self)@ == (BindingsView { map: KeymapView::shipped(), ..old(self)@ }),
            final(self)@.map.wf(),
    {
        self.map = Keymap::default();
    }

    /// A key press, by the key's name and the modifiers down before it.
    pub fn press(&mut self, name: Option<&str>, state: Mods) -> (r: Answer)
        requires
            old(self)@.map.wf(),
        ensures
            (final(self)@, r) == old(self)@.pressed(
                match name {
                    Some(name) => Some(name@),
                    None => None,
                },
                state,
            ),
            final(self)@.map.wf(),
    {
        let escape = match name {
            Some(name) => same_text(name, "Escape"),
            None => false,
        };
        match self.waiting {
            Waiting::Nothing => Answer::Pass,
            Waiting::Held(modal) => {
                if escape {
                    self.waiting = Waiting::Nothing;
                    return Answer::GaveUp;
                }
                match Mods::from_event(name, state) {
                    Some(mods) => {
                        self.map.set_mods(modal, mods);
                        self.waiting = Waiting::Nothing;
                        Answer::Bound
                    },
                    None => Answer::Swallowed,
                }
            },
            Waiting::Chord(action) => {
                if escape {
                    self.waiting = Waiting::Nothing;
                    return Answer::GaveUp;
                }
                match Chord::from_event(name, state) {
                    Some(chord) => {
                        let mut chords: Vec<Chord> = Vec::new();
                        chords.push(chord);
                        assert(chord_views(chords@) =~= seq![chord@]);
                        self.map.set(action, chords);
                        self.waiting = Waiting::Nothing;
                        Answer::Bound
                    },
                    None => Answer::Swallowed,
                }
            },
        }
    }

    /// What an action's button says.
    pub fn chord_label(&self, catalog: &Catalog, action: Action) -> (r: String)
        requires
            catalog.wf(),
            self@.map.wf(),
        ensures
            r@ == row_text(
                catalog@,
                self@.waiting == Waiting::Chord(action),
                "Press a key…"@,
                self@.map.chords_of(action).len() == 0,
                listed(self@.map.chords_of(action)),
            ),
    {
        if self.waiting == Waiting::Chord(action) {
            return t(catalog, "Press a key…");
        }
        let chords = self.map.chords(action);
        assert(chord_views(chords@).len() == chords@.len());
        if chords.len() == 0 {
            t(catalog, "Unassigned")
        } else {
            text_of(&self.map.list(action.place()))
        }
    }

    /// What a canvas modifier's button says.
    pub fn mods_label(&self, catalog: &Catalog, modal: Modal) -> (r: String)
        requires
            catalog.wf(),
            self@.map.wf(),
        ensures
            r@ == row_text(
                catalog@,
                self@.waiting == Waiting::Held(modal),
                "Hold a modifier…"@,
                self@.map.modals[modal.rank()] == Mods::none(),
                self@.map.modals[modal.rank()].shown(),
            ),
    {
        if self.waiting == Waiting::Held(modal) {
            return t(catalog, "Hold a modifier…");
        }
        let mods = self.map.mods(modal);
        if mods.is_empty() {
            t(catalog, "Unassigned")
        } else {
            mods.display()
        }
    }

    /// Whether an action's row is to say that its key is taken.
    pub fn clashes(&self, action: Action) -> (r: bool)
        requires
            self@.map.wf(),
        ensures
            r == self@.map.clashes(action.rank()),
    {
        self.map.clash(action.place())
    }
}

/// Whatever was asked for, Escape binds nothing.
pub proof fn law_escape_binds_nothing(b: BindingsView, state: Mods)
    ensures
        b.pressed(Some("Escape"@), state).0.map == b.map,
        b.pressed(Some("Escape"@), state).1 != Answer::Bound,
        b.pressed(Some("Escape"@), state).0.waiting == Waiting::Nothing,
{
}

/// A key press changes the keymap only where a row was waiting, and then only
/// what that row shows.
pub proof fn law_a_press_binds_what_was_asked(
    b: BindingsView,
    name: Option<Seq<char>>,
    state: Mods,
    action: Action,
    modal: Modal,
)
    requires
        b.map.wf(),
    ensures
        ({
            let after = b.pressed(name, state).0.map;
            &&& b.waiting != Waiting::Chord(action) ==> after.chords_of(action)
                == b.map.chords_of(action)
            &&& b.waiting != Waiting::Held(modal) ==> after.modals[modal.rank()]
                == b.map.modals[modal.rank()]
        }),
{
    if let Waiting::Chord(asked) = b.waiting {
        if asked != action {
            lemma_action_rank(asked);
            lemma_action_rank(action);
        }
    }
}

} // verus!
