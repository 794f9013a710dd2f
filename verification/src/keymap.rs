//! Rebindable keyboard shortcuts.
//!
//! The file is a flat `action = chord` list beside the settings. The whole
//! keymap is two dozen lines of text that a user can read and a diff can show.
//! Import and export are a file copy.

use vstd::prelude::*;

use crate::actions::{action_at, modal_at, Action, Modal, ACTION_COUNT, MODAL_COUNT};
use crate::chord::{Chord, ChordView, Mods};
use crate::settings::{config_file, config_path, optional_text};
use crate::text::{
    chars_of, extend, key_value, key_value_of, lines, lines_of, split, split_on, text_of, texts,
};

verus! {

#[derive(Debug)]
pub struct Keymap {
    /// An action may have more than one chord; Ctrl+Y and Ctrl+Shift+Z both
    /// redo.
    /// One list for each action, in the actions' order.
    pub binds: Vec<Vec<Chord>>,
    /// Modifiers held during a canvas drag. One each, because "hold two
    /// different things to rotate" is not a thing anyone wants.
    pub modals: Vec<Mods>,
}

/// What a `Keymap` holds.
pub struct KeymapView {
    pub binds: Seq<Seq<ChordView>>,
    pub modals: Seq<Mods>,
}

/// What a list of chords holds.
pub open spec fn chord_views(chords: Seq<Chord>) -> Seq<ChordView> {
    Seq::new(chords.len(), |i: int| chords[i]@)
}

impl View for Keymap {
    type V = KeymapView;

    open spec fn view(&self) -> KeymapView {
        KeymapView {
            binds: Seq::new(self.binds@.len(), |i: int| chord_views(self.binds@[i]@)),
            modals: self.modals@,
        }
    }
}

/// The chords that texts name, those that name none left out.
pub open spec fn parsed_all(parts: Seq<Seq<char>>) -> Seq<ChordView>
    decreases parts.len(),
{
    if parts.len() == 0 {
        seq![]
    } else {
        match ChordView::parsed(parts[0]) {
            Some(chord) => seq![chord] + parsed_all(parts.skip(1)),
            None => parsed_all(parts.skip(1)),
        }
    }
}

/// The chords as the file lists them.
pub open spec fn listed(chords: Seq<ChordView>) -> Seq<char>
    decreases chords.len(),
{
    if chords.len() == 0 {
        seq![]
    } else if chords.len() == 1 {
        chords[0].shown()
    } else {
        chords[0].shown() + ", "@ + listed(chords.skip(1))
    }
}

/// Whether one of the chords is fired by pressing `chord`.
pub open spec fn any_fires(chords: Seq<ChordView>, chord: ChordView) -> bool {
    exists|i: int| 0 <= i < chords.len() && (#[trigger] chords[i]).fires(chord)
}

impl KeymapView {
    /// A list for each action and a set for each modifier.
    pub open spec fn wf(self) -> bool {
        self.binds.len() == ACTION_COUNT && self.modals.len() == MODAL_COUNT
    }

    /// After one line. One that names nothing known changes nothing.
    pub open spec fn applied_line(self, line: Seq<char>) -> KeymapView {
        match key_value(line) {
            Some((key, value)) => match Modal::named_from(key, 0) {
                Some(modal) => KeymapView {
                    modals: self.modals.update(modal.rank(), Mods::parsed(value)),
                    ..self
                },
                None => match Action::named_from(key, 0) {
                    Some(action) => KeymapView {
                        binds: self.binds.update(action.rank(), parsed_all(split(value, ','))),
                        ..self
                    },
                    None => self,
                },
            },
            None => self,
        }
    }

    /// After these lines.
    pub open spec fn applied(self, lines: Seq<Seq<char>>) -> KeymapView
        decreases lines.len(),
    {
        if lines.len() == 0 {
            self
        } else {
            self.applied_line(lines[0]).applied(lines.skip(1))
        }
    }

    /// The chords an action is bound to.
    pub open spec fn chords_of(self, action: Action) -> Seq<ChordView> {
        self.binds[action.rank()]
    }

    /// Whether pressing `chord` fires the action at place `i` of the list.
    pub open spec fn fires_at(self, chord: ChordView, i: int) -> bool {
        any_fires(self.binds[i], chord)
    }

    /// The actions below place `n` that pressing `chord` fires.
    pub open spec fn fired(self, chord: ChordView, n: nat) -> Seq<Action>
        decreases n,
    {
        if n == 0 {
            seq![]
        } else {
            let before = self.fired(chord, (n - 1) as nat);
            if self.fires_at(chord, n - 1) {
                before.push(action_at(n - 1))
            } else {
                before
            }
        }
    }

    /// Whether a chord of the action at `i` fires another action too, and the
    /// two are not both tools.
    pub open spec fn clashes(self, i: int) -> bool {
        exists|c: int, j: int|
            #![trigger self.binds[i][c], action_at(j)]
            0 <= c < self.binds[i].len() && 0 <= j < ACTION_COUNT && j != i && self.fires_at(
                self.binds[i][c],
                j,
            ) && !(action_at(i).tool() && action_at(j).tool())
    }

    /// The actions below place `n` that clash.
    pub open spec fn clashing(self, n: nat) -> Seq<Action>
        decreases n,
    {
        if n == 0 {
            seq![]
        } else {
            let before = self.clashing((n - 1) as nat);
            if self.clashes(n - 1) {
                before.push(action_at(n - 1))
            } else {
                before
            }
        }
    }

    /// The line of an action.
    pub open spec fn action_line(self, i: int) -> Seq<char> {
        action_at(i).id_text() + " = "@ + listed(self.binds[i])
    }

    /// The line of a held modifier.
    pub open spec fn modal_line(self, i: int) -> Seq<char> {
        modal_at(i).id_text() + " = "@ + self.modals[i].shown()
    }

    /// The lines of the actions from place `i` on.
    pub open spec fn action_lines(self, i: int) -> Seq<char>
        decreases ACTION_COUNT - i,
    {
        if i < 0 || i >= ACTION_COUNT {
            seq![]
        } else {
            self.action_line(i).push('\n') + self.action_lines(i + 1)
        }
    }

    /// The lines of the held modifiers from place `i` on.
    pub open spec fn modal_lines(self, i: int) -> Seq<char>
        decreases MODAL_COUNT - i,
    {
        if i < 0 || i >= MODAL_COUNT {
            seq![]
        } else {
            self.modal_line(i).push('\n') + self.modal_lines(i + 1)
        }
    }

    /// The keymap as a file.
    pub open spec fn text(self) -> Seq<char> {
        "# gifkino keybindings"@.push('\n')
            + "# One action per line. Separate alternatives with a comma;"@.push('\n')
            + "# leave the right side empty to unbind."@.push('\n') + seq!['\n']
            + self.action_lines(0) + seq!['\n']
            + "# Modifiers held while dragging an overlay on the canvas."@.push('\n')
            + self.modal_lines(0)
    }

    /// The keymap the application ships with.
    pub open spec fn shipped() -> KeymapView {
        KeymapView {
            binds: Seq::new(
                ACTION_COUNT as nat,
                |i: int| parsed_all(action_at(i).default_texts()),
            ),
            modals: seq![
                Mods { ctrl: false, shift: false, alt: true },
                Mods { ctrl: false, shift: true, alt: false },
                Mods { ctrl: true, shift: false, alt: false },
            ],
        }
    }
}

/// The chords that the parts name.
fn parse_parts(parts: &Vec<Vec<char>>) -> (r: Vec<Chord>)
    ensures
        chord_views(r@) == parsed_all(texts(parts@)),
{
    let ghost want = texts(parts@);
    let mut r: Vec<Chord> = Vec::new();
    let mut i: usize = 0;
    assert(want.skip(0) =~= want);
    assert(chord_views(r@) + parsed_all(want) =~= parsed_all(want));
    while i < parts.len()
        invariant
            i <= parts@.len(),
            want == texts(parts@),
            chord_views(r@) + parsed_all(want.skip(i as int)) == parsed_all(want),
        decreases parts@.len() - i,
    {
        let ghost before = r@;
        let ghost rest = want.skip(i as int);
        assert(rest[0] == parts@[i as int]@);
        assert(rest.skip(1) =~= want.skip(i + 1));
        match Chord::parse_chars(&parts[i]) {
            Some(chord) => {
                r.push(chord);
                assert(chord_views(r@) =~= chord_views(before).push(chord@));
            },
            None => {},
        }
        assert(chord_views(r@) + parsed_all(want.skip(i + 1)) =~= chord_views(before) + parsed_all(
            rest,
        ));
        i = i + 1;
    }
    assert(chord_views(r@) + parsed_all(want.skip(i as int)) =~= chord_views(r@));
    r
}

/// The characters of one text, of two and of three.
fn one(a: &str) -> (r: Vec<Vec<char>>)
    ensures
        texts(r@) == seq![a@],
{
    let mut r: Vec<Vec<char>> = Vec::new();
    r.push(chars_of(a));
    assert(texts(r@) =~= seq![a@]);
    r
}

fn two(a: &str, b: &str) -> (r: Vec<Vec<char>>)
    ensures
        texts(r@) == seq![a@, b@],
{
    let mut r = one(a);
    let ghost before = r@;
    r.push(chars_of(b));
    assert(texts(r@) =~= texts(before).push(b@));
    assert(texts(r@) =~= seq![a@, b@]);
    r
}

fn three(a: &str, b: &str, c: &str) -> (r: Vec<Vec<char>>)
    ensures
        texts(r@) == seq![a@, b@, c@],
{
    let mut r = two(a, b);
    let ghost before = r@;
    r.push(chars_of(c));
    assert(texts(r@) =~= texts(before).push(c@));
    assert(texts(r@) =~= seq![a@, b@, c@]);
    r
}

/// The chords an action ships bound to.
fn shipped_chords(action: Action) -> (r: Vec<Chord>)
    ensures
        chord_views(r@) == parsed_all(action.default_texts()),
{
    let parts = match action {
        Action::Open => one("Ctrl+O"),
        Action::Export => one("Ctrl+E"),
        Action::Undo => one("Ctrl+Z"),
        Action::Redo => two("Ctrl+Shift+Z", "Ctrl+Y"),
        Action::PlayPause => one("space"),
        Action::SelectAll => one("Ctrl+A"),
        Action::Delete => one("Delete"),
        Action::ShowShortcuts => one("Ctrl+?"),
        Action::ToolText => one("T"),
        Action::ToolRect => one("R"),
        Action::ToolEllipse => one("O"),
        Action::ToolArrow => one("A"),
        Action::ToolCrop => one("C"),
        Action::FrameDuplicate => one("Ctrl+D"),
        Action::FrameCut => one("Ctrl+X"),
        Action::FrameCopy => one("Ctrl+C"),
        Action::FramePaste => one("Ctrl+V"),
        Action::StripZoomIn => three("Ctrl+Up", "Ctrl+plus", "Ctrl+equal"),
        Action::StripZoomOut => two("Ctrl+Down", "Ctrl+minus"),
        Action::StripZoomReset => one("Ctrl+0"),
        Action::FrameDelete | Action::FrameReverse | Action::ZoomToSelection => Vec::new(),
    };
    assert(texts(parts@) =~= action.default_texts());
    parse_parts(&parts)
}

impl Default for Keymap {
    fn default() -> (r: Keymap)
        ensures
            r@ == KeymapView::shipped(),
            r@.wf(),
    {
        let mut binds: Vec<Vec<Chord>> = Vec::new();
        let mut i: usize = 0;
        while i < ACTION_COUNT
            invariant
                i <= ACTION_COUNT,
                binds@.len() == i,
                forall|k: int|
                    0 <= k < i ==> chord_views((#[trigger] binds@[k])@) == parsed_all(
                        action_at(k).default_texts(),
                    ),
            decreases ACTION_COUNT - i,
        {
            binds.push(shipped_chords(Action::nth(i)));
            i = i + 1;
        }
        // Alt rotates, Shift keeps the aspect ratio, Ctrl resizes from the
        // center.
        let modals = vec![
            Mods { ctrl: false, shift: false, alt: true },
            Mods { ctrl: false, shift: true, alt: false },
            Mods { ctrl: true, shift: false, alt: false },
        ];
        let r = Keymap { binds, modals };
        assert(r@.binds =~= KeymapView::shipped().binds);
        assert(r@.modals =~= KeymapView::shipped().modals);
        r
    }
}

/// A copy of a list of chords.
fn copy_chords(chords: &Vec<Chord>) -> (r: Vec<Chord>)
    ensures
        r@ == chords@,
{
    let mut r: Vec<Chord> = Vec::new();
    let mut i: usize = 0;
    while i < chords.len()
        invariant
            i <= chords@.len(),
            r@ == chords@.take(i as int),
        decreases chords@.len() - i,
    {
        r.push(chords[i].clone());
        i = i + 1;
        assert(r@ =~= chords@.take(i as int));
    }
    assert(chords@.take(i as int) =~= chords@);
    r
}

impl Clone for Keymap {
    fn clone(&self) -> (r: Keymap)
        ensures
            r@ == self@,
    {
        let mut binds: Vec<Vec<Chord>> = Vec::new();
        let mut i: usize = 0;
        while i < self.binds.len()
            invariant
                i <= self.binds@.len(),
                binds@.len() == i,
                forall|k: int| 0 <= k < i ==> (#[trigger] binds@[k])@ == self.binds@[k]@,
            decreases self.binds@.len() - i,
        {
            binds.push(copy_chords(&self.binds[i]));
            i = i + 1;
        }
        let mut modals: Vec<Mods> = Vec::new();
        let mut j: usize = 0;
        while j < self.modals.len()
            invariant
                j <= self.modals@.len(),
                modals@ == self.modals@.take(j as int),
            decreases self.modals@.len() - j,
        {
            modals.push(self.modals[j]);
            j = j + 1;
            assert(modals@ =~= self.modals@.take(j as int));
        }
        assert(self.modals@.take(j as int) =~= self.modals@);
        let r = Keymap { binds, modals };
        assert(r@.binds =~= self@.binds);
        r
    }
}

fn chords_equal(a: &Vec<Chord>, b: &Vec<Chord>) -> (r: bool)
    ensures
        r == (chord_views(a@) == chord_views(b@)),
{
    if a.len() != b.len() {
        assert(chord_views(a@).len() != chord_views(b@).len());
        return false;
    }
    let mut i: usize = 0;
    while i < a.len()
        invariant
            a@.len() == b@.len(),
            i <= a@.len(),
            forall|k: int| 0 <= k < i ==> (#[trigger] a@[k])@ == b@[k]@,
        decreases a@.len() - i,
    {
        if !(a[i] == b[i]) {
            assert(chord_views(a@)[i as int] != chord_views(b@)[i as int]);
            return false;
        }
        i = i + 1;
    }
    assert(chord_views(a@) =~= chord_views(b@));
    true
}

impl PartialEq for Keymap {
    fn eq(&self, other: &Keymap) -> (r: bool) {
        if self.binds.len() != other.binds.len() || self.modals.len() != other.modals.len() {
            assert(self@.binds.len() == self.binds@.len());
            assert(other@.binds.len() == other.binds@.len());
            return false;
        }
        let mut i: usize = 0;
        while i < self.binds.len()
            invariant
                self.binds@.len() == other.binds@.len(),
                i <= self.binds@.len(),
                forall|k: int| 0 <= k < i ==> #[trigger] self@.binds[k] == other@.binds[k],
            decreases self.binds@.len() - i,
        {
            if !chords_equal(&self.binds[i], &other.binds[i]) {
                assert(self@.binds[i as int] != other@.binds[i as int]);
                return false;
            }
            i = i + 1;
        }
        let mut j: usize = 0;
        while j < self.modals.len()
            invariant
                self.modals@.len() == other.modals@.len(),
                j <= self.modals@.len(),
                forall|k: int| 0 <= k < j ==> self.modals@[k] == other.modals@[k],
            decreases self.modals@.len() - j,
        {
            if self.modals[j] != other.modals[j] {
                return false;
            }
            j = j + 1;
        }
        assert(self@.binds =~= other@.binds);
        assert(self.modals@ =~= other.modals@);
        true
    }
}

impl vstd::std_specs::cmp::PartialEqSpecImpl for Keymap {
    open spec fn obeys_eq_spec() -> bool {
        true
    }

    open spec fn eq_spec(&self, other: &Keymap) -> bool {
        self@ == other@
    }
}

impl Keymap {
    /// A line names an action and everything it is bound to. A line with no
    /// chords unbinds; a line naming an unknown action is ignored, so a file
    /// from a newer version does not lose the bindings it does understand.
    pub fn apply(&mut self, text: &str)
        requires
            old(self)@.wf(),
        ensures
            final(self)@ == old(self)@.applied(lines(text@)),
            final(self)@.wf(),
    {
        let all = lines_of(&chars_of(text));
        let ghost want = lines(text@);
        let mut i: usize = 0;
        assert(want.skip(0) =~= want);
        while i < all.len()
            invariant
                i <= all@.len(),
                want == texts(all@),
                self@.wf(),
                self@.applied(want.skip(i as int)) == old(self)@.applied(want),
            decreases all@.len() - i,
        {
            assert(want.skip(i as int)[0] == all@[i as int]@);
            assert(want.skip(i as int).skip(1) =~= want.skip(i + 1));
            self.apply_line(&all[i]);
            i = i + 1;
        }
    }

    fn apply_line(&mut self, line: &Vec<char>)
        requires
            old(self)@.wf(),
        ensures
            final(self)@ == old(self)@.applied_line(line@),
            final(self)@.wf(),
    {
        let (key, value) = match key_value_of(line) {
            Some(found) => found,
            None => {
                return ;
            },
        };
        match Modal::named(&key) {
            Some(modal) => {
                self.set_mods(modal, Mods::parse(text_of(&value).as_str()));
            },
            None => match Action::named(&key) {
                Some(action) => {
                    let chords = parse_parts(&split_on(&value, ','));
                    self.set(action, chords);
                },
                None => {},
            },
        }
    }

    pub fn chords(&self, action: Action) -> (r: &Vec<Chord>)
        requires
            self@.wf(),
        ensures
            chord_views(r@) == self@.chords_of(action),
    {
        &self.binds[action.place()]
    }

    fn fires(&self, i: usize, chord: &Chord) -> (r: bool)
        requires
            i < self.binds@.len(),
        ensures
            r == self@.fires_at(chord@, i as int),
    {
        let chords = &self.binds[i];
        let mut k: usize = 0;
        while k < chords.len()
            invariant
                k <= chords@.len(),
                chord_views(chords@) == self@.binds[i as int],
                forall|c: int| 0 <= c < k ==> !(#[trigger] chords@[c])@.fires(chord@),
            decreases chords@.len() - k,
        {
            if chords[k].matches(chord) {
                assert(self@.binds[i as int][k as int].fires(chord@));
                return true;
            }
            k = k + 1;
        }
        proof {
            if self@.fires_at(chord@, i as int) {
                let c = choose|c: int|
                    0 <= c < self@.binds[i as int].len() && (#[trigger] self@.binds[i as int][c]).fires(
                        chord@,
                    );
                assert(!chords@[c]@.fires(chord@));
            }
        }
        false
    }

    /// Every action this chord fires, in the actions' order. More than one is
    /// only legitimate for tools, which cycle.
    pub fn actions_for(&self, chord: &Chord) -> (r: Vec<Action>)
        requires
            self@.wf(),
        ensures
            r@ == self@.fired(chord@, ACTION_COUNT as nat),
    {
        let mut r: Vec<Action> = Vec::new();
        let mut i: usize = 0;
        while i < ACTION_COUNT
            invariant
                i <= ACTION_COUNT,
                self@.wf(),
                r@ == self@.fired(chord@, i as nat),
            decreases ACTION_COUNT - i,
        {
            if self.fires(i, chord) {
                r.push(Action::nth(i));
            }
            i = i + 1;
        }
        r
    }

    pub fn set(&mut self, action: Action, chords: Vec<Chord>)
        requires
            old(self)@.wf(),
        ensures
            final(self)@ == (KeymapView {
                binds: old(self)@.binds.update(action.rank(), chord_views(chords@)),
                ..old(self)@
            }),
            final(self)@.wf(),
    {
        self.binds[action.place()] = chords;
        assert(self@.binds =~= old(self)@.binds.update(action.rank(), chord_views(chords@)));
    }

    pub fn mods(&self, modal: Modal) -> (r: Mods)
        requires
            self@.wf(),
        ensures
            r == self@.modals[modal.rank()],
    {
        self.modals[modal.place()]
    }

    pub fn set_mods(&mut self, modal: Modal, mods: Mods)
        requires
            old(self)@.wf(),
        ensures
            final(self)@ == (KeymapView {
                modals: old(self)@.modals.update(modal.rank(), mods),
                ..old(self)@
            }),
            final(self)@.wf(),
    {
        self.modals[modal.place()] = mods;
        assert(self@.binds =~= old(self)@.binds);
    }

    pub(crate) fn clash(&self, i: usize) -> (r: bool)
        requires
            self@.wf(),
            i < ACTION_COUNT,
        ensures
            r == self@.clashes(i as int),
    {
        let chords = &self.binds[i];
        let me = Action::nth(i);
        let ghost mine = self@.binds[i as int];
        let mut c: usize = 0;
        while c < chords.len()
            invariant
                c <= chords@.len(),
                chords@ == self.binds@[i as int]@,
                mine == self@.binds[i as int],
                chord_views(chords@) == mine,
                self@.wf(),
                i < ACTION_COUNT,
                me == action_at(i as int),
                forall|k: int, j: int|
                    #![trigger mine[k], action_at(j)]
                    0 <= k < c && 0 <= j < ACTION_COUNT && j != i && self@.fires_at(mine[k], j)
                        ==> me.tool() && action_at(j).tool(),
            decreases chords@.len() - c,
        {
            let mut j: usize = 0;
            while j < ACTION_COUNT
                invariant
                    c < chords@.len(),
                    j <= ACTION_COUNT,
                    chord_views(chords@) == mine,
                    mine == self@.binds[i as int],
                    self@.wf(),
                    i < ACTION_COUNT,
                    me == action_at(i as int),
                    forall|l: int|
                        0 <= l < j && l != i && self@.fires_at(mine[c as int], l) ==> me.tool()
                            && (#[trigger] action_at(l)).tool(),
                decreases ACTION_COUNT - j,
            {
                let other = Action::nth(j);
                assert(mine[c as int] == chords@[c as int]@);
                if j != i && self.fires(j, &chords[c]) && !(me.is_tool() && other.is_tool()) {
                    assert(self@.binds[i as int][c as int] == mine[c as int]);
                    assert(action_at(j as int) == other);
                    return true;
                }
                j = j + 1;
            }
            c = c + 1;
        }
        false
    }

    /// Actions whose chord collides with a different action's, excluding the
    /// tool-cycling case. This is what the editor paints red.
    pub fn conflicts(&self) -> (r: Vec<Action>)
        requires
            self@.wf(),
        ensures
            r@ == self@.clashing(ACTION_COUNT as nat),
    {
        let mut r: Vec<Action> = Vec::new();
        let mut i: usize = 0;
        while i < ACTION_COUNT
            invariant
                i <= ACTION_COUNT,
                self@.wf(),
                r@ == self@.clashing(i as nat),
            decreases ACTION_COUNT - i,
        {
            if self.clash(i) {
                r.push(Action::nth(i));
            }
            i = i + 1;
        }
        r
    }

    /// "Undo (Ctrl+Z)" — tooltips are built, never typed, so a rebind moves
    /// them.
    pub fn tip(&self, text: &str, action: Action) -> (r: String)
        requires
            self@.wf(),
        ensures
            r@ == if self@.chords_of(action).len() > 0 {
                text@ + " ("@ + self@.chords_of(action)[0].shown() + ")"@
            } else {
                text@
            },
    {
        let chords = self.chords(action);
        assert(chord_views(chords@).len() == chords@.len());
        if chords.len() == 0 {
            return text.to_owned();
        }
        let mut out = chars_of(text);
        extend(&mut out, &chars_of(" ("));
        extend(&mut out, &chars_of(chords[0].display().as_str()));
        extend(&mut out, &chars_of(")"));
        text_of(&out)
    }

    pub(crate) fn list(&self, i: usize) -> (r: Vec<char>)
        requires
            self@.wf(),
            i < ACTION_COUNT,
        ensures
            r@ == listed(self@.binds[i as int]),
    {
        let chords = &self.binds[i];
        let ghost all = self@.binds[i as int];
        assert(all =~= chord_views(chords@));
        let mut r: Vec<char> = Vec::new();
        let mut k: usize = 0;
        assert(all.skip(0) =~= all);
        assert(r@ + listed(all) =~= listed(all));
        while k < chords.len()
            invariant
                k <= chords@.len(),
                all == chord_views(chords@),
                r@ + listed(all.skip(k as int)) == listed(all),
            decreases chords@.len() - k,
        {
            let ghost before = r@;
            let ghost rest = all.skip(k as int);
            assert(rest[0] == chords@[k as int]@);
            assert(rest.skip(1) =~= all.skip(k + 1));
            extend(&mut r, &chars_of(chords[k].display().as_str()));
            if k < chords.len() - 1 {
                extend(&mut r, &chars_of(", "));
            } else {
                assert(listed(all.skip(k + 1)) =~= seq![]);
            }
            assert(r@ + listed(all.skip(k + 1)) =~= before + listed(rest));
            k = k + 1;
        }
        assert(listed(all.skip(k as int)) =~= seq![]);
        assert(r@ + listed(all.skip(k as int)) =~= r@);
        r
    }

    pub fn to_text(&self) -> (r: String)
        requires
            self@.wf(),
        ensures
            r@ == self@.text(),
    {
        let mut out = chars_of("# gifkino keybindings");
        out.push('\n');
        extend(
            &mut out,
            &chars_of("# One action per line. Separate alternatives with a comma;"),
        );
        out.push('\n');
        extend(&mut out, &chars_of("# leave the right side empty to unbind."));
        out.push('\n');
        out.push('\n');
        let ghost head = "# gifkino keybindings"@.push('\n')
            + "# One action per line. Separate alternatives with a comma;"@.push('\n')
            + "# leave the right side empty to unbind."@.push('\n') + seq!['\n'];
        assert(out@ =~= head);
        let mut i: usize = 0;
        assert(out@ + self@.action_lines(0) =~= head + self@.action_lines(0));
        while i < ACTION_COUNT
            invariant
                i <= ACTION_COUNT,
                self@.wf(),
                out@ + self@.action_lines(i as int) == head + self@.action_lines(0),
            decreases ACTION_COUNT - i,
        {
            let ghost before = out@;
            extend(&mut out, &chars_of(Action::nth(i).id()));
            extend(&mut out, &chars_of(" = "));
            extend(&mut out, &self.list(i));
            out.push('\n');
            assert(out@ =~= before + self@.action_line(i as int).push('\n'));
            assert(out@ + self@.action_lines(i + 1) =~= before + self@.action_lines(i as int));
            i = i + 1;
        }
        assert(out@ =~= head + self@.action_lines(0)) by {
            assert(self@.action_lines(i as int) =~= seq![]);
            assert(out@ + self@.action_lines(i as int) =~= out@);
        }
        let ghost mid = out@;
        out.push('\n');
        extend(
            &mut out,
            &chars_of("# Modifiers held while dragging an overlay on the canvas."),
        );
        out.push('\n');
        let ghost head = mid + seq!['\n']
            + "# Modifiers held while dragging an overlay on the canvas."@.push('\n');
        assert(out@ =~= head);
        let mut j: usize = 0;
        assert(out@ + self@.modal_lines(0) =~= head + self@.modal_lines(0));
        while j < MODAL_COUNT
            invariant
                j <= MODAL_COUNT,
                self@.wf(),
                out@ + self@.modal_lines(j as int) == head + self@.modal_lines(0),
            decreases MODAL_COUNT - j,
        {
            let ghost before = out@;
            let modal = Modal::nth(j);
            extend(&mut out, &chars_of(modal.id()));
            extend(&mut out, &chars_of(" = "));
            extend(&mut out, &chars_of(self.mods(modal).display().as_str()));
            out.push('\n');
            assert(out@ =~= before + self@.modal_line(j as int).push('\n'));
            assert(out@ + self@.modal_lines(j + 1) =~= before + self@.modal_lines(j as int));
            j = j + 1;
        }
        assert(out@ =~= head + self@.modal_lines(0)) by {
            assert(self@.modal_lines(j as int) =~= seq![]);
            assert(out@ + self@.modal_lines(j as int) =~= out@);
        }
        text_of(&out)
    }
}

/// Tools sharing a key is no conflict: an action clashes only over a chord of
/// its own that fires an action that is not, like itself, a tool.
pub proof fn law_tools_may_share_a_key(k: KeymapView, i: int)
    requires
        k.wf(),
        0 <= i < ACTION_COUNT,
        action_at(i).tool(),
        forall|c: int, j: int|
            #![trigger k.binds[i][c], action_at(j)]
            0 <= c < k.binds[i].len() && 0 <= j < ACTION_COUNT && k.fires_at(k.binds[i][c], j)
                ==> action_at(j).tool(),
    ensures
        !k.clashes(i),
{
}

/// Where the key bindings are: beside the settings.
pub fn path(xdg: Option<&str>, home: Option<&str>) -> (r: Option<String>)
    ensures
        match r {
            Some(path) => config_file(optional_text(xdg), optional_text(home), "keybindings.conf"@)
                == Some(path@),
            None => config_file(optional_text(xdg), optional_text(home), "keybindings.conf"@) is None,
        },
{
    config_path(xdg, home, "keybindings.conf")
}

} // verus!
