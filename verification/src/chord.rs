//! Chords and held modifiers, and how they are written.

use vstd::prelude::*;

use crate::text::{
    chars_of, extend, has_prefix, lemma_first_part, lemma_one_part, lemma_part_holds,
    lemma_trimmed_ends, lemma_trimmed_solid, lower,
    lower_chars, lowered, same_chars, split, split_on, starts_with, text_of, texts, trim, trimmed,
    upper, upper_char, white,
};

verus! {

/// A set of held modifiers. Empty means unbound, which is never satisfied.
#[derive(Clone, Copy, PartialEq, Eq, Debug, Structural)]
pub struct Mods {
    pub ctrl: bool,
    pub shift: bool,
    pub alt: bool,
}

impl Default for Mods {
    fn default() -> (r: Mods)
        ensures
            r == Mods::none(),
    {
        Mods { ctrl: false, shift: false, alt: false }
    }
}

/// Whether the word names the control key.
pub open spec fn means_ctrl(word: Seq<char>) -> bool {
    word == "ctrl"@ || word == "control"@
}

pub open spec fn means_shift(word: Seq<char>) -> bool {
    word == "shift"@
}

pub open spec fn means_alt(word: Seq<char>) -> bool {
    word == "alt"@ || word == "meta"@
}

/// Whether the word names a modifier.
pub open spec fn means_modifier(word: Seq<char>) -> bool {
    means_ctrl(word) || means_shift(word) || means_alt(word)
}

impl Mods {
    pub open spec fn none() -> Mods {
        Mods { ctrl: false, shift: false, alt: false }
    }

    pub fn is_empty(self) -> (r: bool)
        ensures
            r == (self == Mods::none()),
    {
        !self.ctrl && !self.shift && !self.alt
    }

    /// The modifiers now down, given the name of the key that was pressed. A
    /// key press reports the state *before* itself, so a bare Alt has to be
    /// read off the key name rather than the state.
    pub fn from_event(name: Option<&str>, state: Mods) -> (r: Option<Mods>)
        ensures
            r == match name {
                None => None,
                Some(name) => if has_prefix(name@, "Control"@) {
                    Some(Mods { ctrl: true, ..state })
                } else if has_prefix(name@, "Shift"@) {
                    Some(Mods { shift: true, ..state })
                } else if has_prefix(name@, "Alt"@) || has_prefix(name@, "Meta"@) {
                    Some(Mods { alt: true, ..state })
                } else {
                    None
                },
            },
    {
        let name = match name {
            Some(name) => chars_of(name),
            None => {
                return None;
            },
        };
        let mut mods = state;
        if starts_with(&name, "Control") {
            mods.ctrl = true;
        } else if starts_with(&name, "Shift") {
            mods.shift = true;
        } else if starts_with(&name, "Alt") || starts_with(&name, "Meta") {
            mods.alt = true;
        } else {
            return None;
        }
        Some(mods)
    }

    /// After one more of the parts between the plus signs.
    pub open spec fn with_part(self, part: Seq<char>) -> Mods {
        let word = lowered(trimmed(part));
        if means_ctrl(word) {
            Mods { ctrl: true, ..self }
        } else if means_shift(word) {
            Mods { shift: true, ..self }
        } else if means_alt(word) {
            Mods { alt: true, ..self }
        } else {
            self
        }
    }

    /// After these parts.
    pub open spec fn with_parts(self, parts: Seq<Seq<char>>) -> Mods
        decreases parts.len(),
    {
        if parts.len() == 0 {
            self
        } else {
            self.with_part(parts[0]).with_parts(parts.skip(1))
        }
    }

    /// The modifiers a text names.
    pub open spec fn parsed(text: Seq<char>) -> Mods {
        Mods::none().with_parts(split(text, '+'))
    }

    pub fn parse(text: &str) -> (r: Mods)
        ensures
            r == Mods::parsed(text@),
    {
        let parts = split_on(&chars_of(text), '+');
        let ghost want = texts(parts@);
        let mut mods = Mods::default();
        let mut i: usize = 0;
        assert(want.skip(0) =~= want);
        while i < parts.len()
            invariant
                i <= parts@.len(),
                want == texts(parts@),
                mods.with_parts(want.skip(i as int)) == Mods::none().with_parts(want),
            decreases parts@.len() - i,
        {
            assert(want.skip(i as int)[0] == parts@[i as int]@);
            assert(want.skip(i as int).skip(1) =~= want.skip(i + 1));
            match modifier_of(&lower_chars(&trim(&parts[i]))) {
                Some(Modifier::Ctrl) => mods.ctrl = true,
                Some(Modifier::Shift) => mods.shift = true,
                Some(Modifier::Alt) => mods.alt = true,
                None => {},
            }
            i = i + 1;
        }
        mods
    }

    /// Whether these modifiers are all down. A superset is still a match, so
    /// Alt+Shift can rotate and constrain at once.
    pub fn held(self, state: Mods) -> (r: bool)
        ensures
            r == (self != Mods::none() && (self.ctrl ==> state.ctrl) && (self.shift ==> state.shift)
                && (self.alt ==> state.alt)),
    {
        !self.is_empty() && (!self.ctrl || state.ctrl) && (!self.shift || state.shift) && (!self.alt
            || state.alt)
    }

    /// The modifiers' names with plus signs between them.
    pub open spec fn shown(self) -> Seq<char> {
        let ctrl = if self.ctrl {
            seq!["Ctrl"@]
        } else {
            seq![]
        };
        let alt = if self.alt {
            seq!["Alt"@]
        } else {
            seq![]
        };
        let shift = if self.shift {
            seq!["Shift"@]
        } else {
            seq![]
        };
        joined(ctrl + alt + shift)
    }

    pub fn display(self) -> (r: String)
        ensures
            r@ == self.shown(),
    {
        let mut out: Vec<char> = Vec::new();
        let ghost mut words: Seq<Seq<char>> = seq![];
        assert(out@ =~= joined(words));
        if self.ctrl {
            extend(&mut out, &chars_of("Ctrl"));
            proof {
                let before = words;
                words = words.push("Ctrl"@);
                assert(words.drop_last() =~= before);
                lemma_joined_push(words);
            }
            assert(out@ =~= "Ctrl"@);
        }
        if self.alt {
            if self.ctrl {
                out.push('+');
            }
            extend(&mut out, &chars_of("Alt"));
            proof {
                let before = words;
                words = words.push("Alt"@);
                assert(words.drop_last() =~= before);
                lemma_joined_push(words);
            }
            assert(out@ =~= joined(words));
        }
        if self.shift {
            if self.ctrl || self.alt {
                out.push('+');
            }
            extend(&mut out, &chars_of("Shift"));
            proof {
                let before = words;
                words = words.push("Shift"@);
                assert(words.drop_last() =~= before);
                lemma_joined_push(words);
            }
            assert(out@ =~= joined(words));
        }
        proof {
            let ctrl = if self.ctrl {
                seq!["Ctrl"@]
            } else {
                seq![]
            };
            let alt = if self.alt {
                seq!["Alt"@]
            } else {
                seq![]
            };
            let shift = if self.shift {
                seq!["Shift"@]
            } else {
                seq![]
            };
            assert(words =~= ctrl + alt + shift);
        }
        text_of(&out)
    }
}

/// The words with plus signs between them.
pub open spec fn joined(words: Seq<Seq<char>>) -> Seq<char>
    decreases words.len(),
{
    if words.len() == 0 {
        seq![]
    } else if words.len() == 1 {
        words[0]
    } else {
        joined(words.drop_last()).push('+') + words.last()
    }
}

proof fn lemma_joined_push(words: Seq<Seq<char>>)
    requires
        words.len() > 0,
    ensures
        words.len() == 1 ==> joined(words) == words.last(),
        words.len() > 1 ==> joined(words) == joined(words.drop_last()).push('+') + words.last(),
{
}

/// A modifier key.
enum Modifier {
    Ctrl,
    Shift,
    Alt,
}

fn modifier_of(word: &Vec<char>) -> (r: Option<Modifier>)
    ensures
        match r {
            Some(Modifier::Ctrl) => means_ctrl(word@),
            Some(Modifier::Shift) => !means_ctrl(word@) && means_shift(word@),
            Some(Modifier::Alt) => !means_ctrl(word@) && !means_shift(word@) && means_alt(word@),
            None => !means_modifier(word@),
        },
{
    if same_chars(word, &chars_of("ctrl")) || same_chars(word, &chars_of("control")) {
        Some(Modifier::Ctrl)
    } else if same_chars(word, &chars_of("shift")) {
        Some(Modifier::Shift)
    } else if same_chars(word, &chars_of("alt")) || same_chars(word, &chars_of("meta")) {
        Some(Modifier::Alt)
    } else {
        None
    }
}

/// One chord. `alt` is here because a user may bind it, not because anything
/// ships bound to it.
#[derive(Debug)]
pub struct Chord {
    pub ctrl: bool,
    pub shift: bool,
    pub alt: bool,
    /// Key name, lowercased when it is a plain letter.
    pub key: String,
}

/// What a `Chord` holds.
pub struct ChordView {
    pub ctrl: bool,
    pub shift: bool,
    pub alt: bool,
    pub key: Seq<char>,
}

impl View for Chord {
    type V = ChordView;

    open spec fn view(&self) -> ChordView {
        ChordView { ctrl: self.ctrl, shift: self.shift, alt: self.alt, key: self.key@ }
    }
}

impl Clone for Chord {
    fn clone(&self) -> (r: Chord)
        ensures
            r == *self,
    {
        Chord { ctrl: self.ctrl, shift: self.shift, alt: self.alt, key: self.key.clone() }
    }
}

impl PartialEq for Chord {
    fn eq(&self, other: &Chord) -> (r: bool) {
        self.ctrl == other.ctrl && self.shift == other.shift && self.alt == other.alt && self.key
            == other.key
    }
}

impl vstd::std_specs::cmp::PartialEqSpecImpl for Chord {
    open spec fn obeys_eq_spec() -> bool {
        true
    }

    open spec fn eq_spec(&self, other: &Chord) -> bool {
        self@ == other@
    }
}

/// A key's name as it is stored: trimmed, lower case, and one name for a key
/// that has two.
pub open spec fn normalized(name: Seq<char>) -> Seq<char> {
    let word = lowered(trimmed(name));
    if word == "question"@ || word == "?"@ {
        "question"@
    } else if word == "del"@ {
        "delete"@
    } else {
        word
    }
}

/// A key's name as it is shown.
pub open spec fn prettied(key: Seq<char>) -> Seq<char> {
    if key == "question"@ {
        "?"@
    } else if key.len() == 0 {
        key
    } else {
        seq![upper(key[0])] + key.skip(1)
    }
}

pub open spec fn alphanumeric(c: char) -> bool {
    '0' <= c <= '9' || 'a' <= c <= 'z' || 'A' <= c <= 'Z'
}

/// A key's name as it is stored.
pub fn normalize(name: &Vec<char>) -> (r: Vec<char>)
    ensures
        r@ == normalized(name@),
{
    let word = lower_chars(&trim(name));
    if same_chars(&word, &chars_of("question")) || same_chars(&word, &chars_of("?")) {
        chars_of("question")
    } else if same_chars(&word, &chars_of("del")) {
        chars_of("delete")
    } else {
        word
    }
}

/// A key's name as it is shown.
pub fn pretty(key: &Vec<char>) -> (r: Vec<char>)
    ensures
        r@ == prettied(key@),
{
    if same_chars(key, &chars_of("question")) {
        return chars_of("?");
    }
    let mut r: Vec<char> = Vec::new();
    let mut i: usize = 0;
    while i < key.len()
        invariant
            i <= key@.len(),
            r@.len() == i,
            forall|k: int|
                0 <= k < i ==> #[trigger] r@[k] == if k == 0 {
                    upper(key@[0])
                } else {
                    key@[k]
                },
        decreases key@.len() - i,
    {
        r.push(
            if i == 0 {
                upper_char(key[i])
            } else {
                key[i]
            },
        );
        i = i + 1;
    }
    assert(r@ =~= prettied(key@));
    r
}

impl ChordView {
    pub open spec fn none() -> ChordView {
        ChordView { ctrl: false, shift: false, alt: false, key: seq![] }
    }

    /// After one more of the parts between the plus signs.
    pub open spec fn with_part(self, part: Seq<char>) -> ChordView {
        let word = lowered(trimmed(part));
        if word.len() == 0 {
            self
        } else if means_ctrl(word) {
            ChordView { ctrl: true, ..self }
        } else if means_shift(word) {
            ChordView { shift: true, ..self }
        } else if means_alt(word) {
            ChordView { alt: true, ..self }
        } else {
            ChordView { key: normalized(part), ..self }
        }
    }

    /// After these parts.
    pub open spec fn with_parts(self, parts: Seq<Seq<char>>) -> ChordView
        decreases parts.len(),
    {
        if parts.len() == 0 {
            self
        } else {
            self.with_part(parts[0]).with_parts(parts.skip(1))
        }
    }

    /// The chord a text names, if it names a key.
    pub open spec fn parsed(text: Seq<char>) -> Option<ChordView> {
        let chord = ChordView::none().with_parts(split(text, '+'));
        if chord.key.len() > 0 {
            Some(chord)
        } else {
            None
        }
    }

    /// Shift is only part of the identity of a letter or digit chord.
    pub open spec fn shift_counts(self) -> bool {
        self.key.len() == 1 && alphanumeric(self.key[0])
    }

    /// Whether pressing `other` fires this chord.
    pub open spec fn fires(self, other: ChordView) -> bool {
        self.ctrl == other.ctrl && self.alt == other.alt && self.key == other.key && (
        self.shift_counts() ==> self.shift == other.shift)
    }

    /// The chord without a shift that does not count.
    pub open spec fn settled(self) -> ChordView {
        ChordView { shift: self.shift && self.shift_counts(), ..self }
    }

    /// What the tooltips and the shortcuts window show.
    pub open spec fn shown(self) -> Seq<char> {
        let ctrl = if self.ctrl {
            "Ctrl+"@
        } else {
            seq![]
        };
        let alt = if self.alt {
            "Alt+"@
        } else {
            seq![]
        };
        let shift = if self.shift && self.shift_counts() {
            "Shift+"@
        } else {
            seq![]
        };
        ctrl + alt + shift + prettied(self.key)
    }
}

impl Chord {
    pub fn new(ctrl: bool, shift: bool, alt: bool, key: &str) -> (r: Chord)
        ensures
            r@ == (ChordView { ctrl, shift, alt, key: normalized(key@) }),
    {
        Chord { ctrl, shift, alt, key: text_of(&normalize(&chars_of(key))) }
    }

    /// The chord of a key press, given the key's name. A bare modifier is not
    /// a chord; it is the user still pressing one.
    pub fn from_event(name: Option<&str>, state: Mods) -> (r: Option<Chord>)
        ensures
            match name {
                None => r is None,
                Some(name) => if has_prefix(name@, "Control"@) || has_prefix(name@, "Shift"@)
                    || has_prefix(name@, "Alt"@) || has_prefix(name@, "Meta"@) {
                    r is None
                } else {
                    r matches Some(chord) && chord@ == (ChordView {
                        ctrl: state.ctrl,
                        shift: state.shift,
                        alt: state.alt,
                        key: normalized(name@),
                    })
                },
            },
    {
        let text = match name {
            Some(name) => name,
            None => {
                return None;
            },
        };
        let name = chars_of(text);
        if starts_with(&name, "Control") || starts_with(&name, "Shift") || starts_with(
            &name,
            "Alt",
        ) || starts_with(&name, "Meta") {
            return None;
        }
        Some(Chord::new(state.ctrl, state.shift, state.alt, text))
    }

    pub fn parse(text: &str) -> (r: Option<Chord>)
        ensures
            match r {
                Some(chord) => ChordView::parsed(text@) == Some(chord@),
                None => ChordView::parsed(text@) is None,
            },
            r matches Some(chord) ==> storable(chord@.key),
    {
        Chord::parse_chars(&chars_of(text))
    }

    pub fn parse_chars(text: &Vec<char>) -> (r: Option<Chord>)
        ensures
            match r {
                Some(chord) => ChordView::parsed(text@) == Some(chord@),
                None => ChordView::parsed(text@) is None,
            },
            r matches Some(chord) ==> storable(chord@.key),
    {
        let parts = split_on(text, '+');
        let ghost want = texts(parts@);
        let (mut ctrl, mut shift, mut alt) = (false, false, false);
        let mut key: Vec<char> = Vec::new();
        let mut i: usize = 0;
        assert(want.skip(0) =~= want);
        assert(key@ =~= seq![]);
        while i < parts.len()
            invariant
                i <= parts@.len(),
                want == texts(parts@),
                (ChordView { ctrl, shift, alt, key: key@ }).with_parts(want.skip(i as int))
                    == ChordView::none().with_parts(want),
            decreases parts@.len() - i,
        {
            assert(want.skip(i as int)[0] == parts@[i as int]@);
            assert(want.skip(i as int).skip(1) =~= want.skip(i + 1));
            let word = lower_chars(&trim(&parts[i]));
            if word.len() > 0 {
                match modifier_of(&word) {
                    Some(Modifier::Ctrl) => ctrl = true,
                    Some(Modifier::Shift) => shift = true,
                    Some(Modifier::Alt) => alt = true,
                    None => key = normalize(&parts[i]),
                }
            }
            i = i + 1;
        }
        if key.len() > 0 {
            proof {
                law_parsed_keys_are_stored(text@);
            }
            Some(Chord { ctrl, shift, alt, key: text_of(&key) })
        } else {
            None
        }
    }

    /// Shift is only part of the identity of a letter chord. On a punctuation
    /// key the shift is how you type the character at all: Ctrl+? is Ctrl+Shift
    /// +slash on most layouts, and demanding the flag would make it unbindable.
    pub fn shift_matters(&self) -> (r: bool)
        ensures
            r == self@.shift_counts(),
    {
        let key = chars_of(self.key.as_str());
        if key.len() != 1 {
            return false;
        }
        let c = key[0];
        ('0' <= c && c <= '9') || ('a' <= c && c <= 'z') || ('A' <= c && c <= 'Z')
    }

    pub fn matches(&self, other: &Chord) -> (r: bool)
        ensures
            r == self@.fires(other@),
    {
        self.ctrl == other.ctrl && self.alt == other.alt && self.key == other.key && (
        !self.shift_matters() || self.shift == other.shift)
    }

    /// What the tooltips and the shortcuts window show.
    pub fn display(&self) -> (r: String)
        ensures
            r@ == self@.shown(),
    {
        let mut out: Vec<char> = Vec::new();
        if self.ctrl {
            extend(&mut out, &chars_of("Ctrl+"));
        }
        if self.alt {
            extend(&mut out, &chars_of("Alt+"));
        }
        if self.shift && self.shift_matters() {
            extend(&mut out, &chars_of("Shift+"));
        }
        let ghost before = out@;
        extend(&mut out, &pretty(&chars_of(self.key.as_str())));
        assert(out@ =~= self@.shown());
        text_of(&out)
    }
}

/// A key's name as parsing stores one: neither a modifier nor split by a plus
/// sign, and stored in the one form that it has.
pub open spec fn storable(key: Seq<char>) -> bool {
    &&& key.len() > 0
    &&& normalized(key) == key
    &&& trimmed(key) == key
    &&& !white(key[0])
    &&& !means_modifier(key)
    &&& !key.contains('+')
}

/// A chord with nothing in it that its text does not show: a key as parsing
/// stores one, and shift only where it counts.
pub open spec fn plain(c: ChordView) -> bool {
    &&& storable(c.key)
    &&& c.shift ==> c.shift_counts()
}

proof fn lemma_upper_white(c: char)
    ensures
        white(upper(c)) == white(c),
        lower(upper(c)) == lower(c),
        upper(c) == '+' <==> c == '+',
        upper(c) == ',' <==> c == ',',
        upper(c) == '\n' <==> c == '\n',
        upper(c) == '\r' <==> c == '\r',
{
}

/// A stored key name reads back from how it is shown.
proof fn lemma_pretty(key: Seq<char>)
    requires
        storable(key),
    ensures
        prettied(key).len() > 0,
        !white(prettied(key)[0]),
        trimmed(prettied(key)) == prettied(key),
        !white(prettied(key).last()),
        normalized(prettied(key)) == key,
        !means_modifier(lowered(trimmed(prettied(key)))),
        lowered(trimmed(prettied(key))).len() > 0,
        !prettied(key).contains('+'),
{
    let p = prettied(key);
    reveal_strlit("question");
    reveal_strlit("?");
    reveal_strlit("del");
    reveal_strlit("delete");
    lemma_trimmed_last(key);
    if key == "question"@ {
        lemma_trimmed_solid(p);
        assert(lowered("?"@) =~= "?"@);
        assert(!p.contains('+')) by {
            assert(p.len() == 1 && p[0] == '?');
        }
        reveal_strlit("ctrl");
        reveal_strlit("control");
        reveal_strlit("shift");
        reveal_strlit("alt");
        reveal_strlit("meta");
    } else {
        lemma_upper_white(key[0]);
        assert(p.len() == key.len());
        assert(p.last() == if key.len() == 1 {
            upper(key[0])
        } else {
            key.last()
        });
        lemma_trimmed_solid(p);
        lemma_trimmed_solid(key);
        assert forall|i: int| 0 <= i < key.len() implies lower(#[trigger] p[i]) == lower(key[i]) by {
            if i > 0 {
                assert(p[i] == key[i]);
            }
        }
        assert(lowered(p) =~= lowered(key));
        // a stored name is lower case already
        lemma_normal_is_lower(key);
        assert(lowered(key) == key);
        if p.contains('+') {
            let i = choose|i: int| 0 <= i < p.len() && p[i] == '+';
            if i > 0 {
                assert(p[i] == key[i]);
            }
            assert(key[i] == '+');
            assert(key.contains('+'));
        }
    }
}

/// What trimming leaves does not end in white space.
proof fn lemma_trimmed_last(s: Seq<char>)
    requires
        trimmed(s) == s,
        s.len() > 0,
        !white(s[0]),
    ensures
        !white(s.last()),
{
    assert(crate::text::trimmed_start(s) == s);
    if white(s.last()) {
        lemma_trimmed_end_len(s.drop_last());
    }
}

proof fn lemma_trimmed_end_len(s: Seq<char>)
    ensures
        crate::text::trimmed_end(s).len() <= s.len(),
    decreases s.len(),
{
    if s.len() > 0 {
        lemma_trimmed_end_len(s.drop_last());
    }
}

proof fn lemma_normal_is_lower(key: Seq<char>)
    requires
        normalized(key) == key,
        trimmed(key) == key,
        key != "question"@,
    ensures
        lowered(key) == key,
{
    if lowered(key) == "del"@ {
        reveal_strlit("del");
        reveal_strlit("delete");
        assert(lowered(key).len() == key.len());
    }
}

/// A part before a plus sign is read first.
proof fn lemma_absorb(c: ChordView, part: Seq<char>, rest: Seq<char>)
    requires
        !part.contains('+'),
    ensures
        c.with_parts(split(part.push('+') + rest, '+')) == c.with_part(part).with_parts(
            split(rest, '+'),
        ),
{
    lemma_first_part(part, rest, '+');
    let parts = seq![part] + split(rest, '+');
    assert(parts.skip(1) =~= split(rest, '+'));
}

proof fn lemma_mods_absorb(m: Mods, part: Seq<char>, rest: Seq<char>)
    requires
        !part.contains('+'),
    ensures
        m.with_parts(split(part.push('+') + rest, '+')) == m.with_part(part).with_parts(
            split(rest, '+'),
        ),
{
    lemma_first_part(part, rest, '+');
    let parts = seq![part] + split(rest, '+');
    assert(parts.skip(1) =~= split(rest, '+'));
}

/// The modifiers' names as they are written name them.
proof fn lemma_modifier_names()
    ensures
        "Ctrl+"@ == "Ctrl"@.push('+'),
        "Alt+"@ == "Alt"@.push('+'),
        "Shift+"@ == "Shift"@.push('+'),
        !"Ctrl"@.contains('+'),
        !"Alt"@.contains('+'),
        !"Shift"@.contains('+'),
        means_ctrl(lowered(trimmed("Ctrl"@))),
        means_alt(lowered(trimmed("Alt"@))),
        means_shift(lowered(trimmed("Shift"@))),
        !means_ctrl("alt"@) && !means_shift("alt"@),
        !means_ctrl("shift"@),
        "Ctrl"@.len() == 4,
        "Alt"@.len() == 3,
        "Shift"@.len() == 5,
        lowered(trimmed("Ctrl"@)) == "ctrl"@,
        lowered(trimmed("Alt"@)) == "alt"@,
        lowered(trimmed("Shift"@)) == "shift"@,
        "ctrl"@.len() == 4,
        "alt"@.len() == 3,
        "shift"@.len() == 5,
        !white("Ctrl"@[0]) && !white("Alt"@[0]) && !white("Shift"@[0]),
{
    reveal_strlit("Ctrl");
    reveal_strlit("Alt");
    reveal_strlit("Shift");
    reveal_strlit("Ctrl+");
    reveal_strlit("Alt+");
    reveal_strlit("Shift+");
    reveal_strlit("ctrl");
    reveal_strlit("control");
    reveal_strlit("alt");
    reveal_strlit("meta");
    reveal_strlit("shift");
    assert("Ctrl+"@ =~= "Ctrl"@.push('+'));
    assert("Alt+"@ =~= "Alt"@.push('+'));
    assert("Shift+"@ =~= "Shift"@.push('+'));
    lemma_trimmed_solid("Ctrl"@);
    lemma_trimmed_solid("Alt"@);
    lemma_trimmed_solid("Shift"@);
    assert(lowered("Ctrl"@) =~= "ctrl"@);
    assert(lowered("Alt"@) =~= "alt"@);
    assert(lowered("Shift"@) =~= "shift"@);
    assert("alt"@.len() != "shift"@.len());
    assert("alt"@ != "ctrl"@ && "alt"@ != "control"@);
    assert("shift"@ != "ctrl"@ && "shift"@ != "control"@);
}

/// A chord reads back from how it is shown.
pub proof fn law_chord_round_trip(c: ChordView)
    requires
        plain(c),
    ensures
        ChordView::parsed(c.shown()) == Some(c),
{
    let p = prettied(c.key);
    lemma_pretty(c.key);
    lemma_modifier_names();
    let s0 = ChordView::none();
    let last = p;
    let with_shift = if c.shift && c.shift_counts() {
        "Shift"@.push('+') + p
    } else {
        p
    };
    let with_alt = if c.alt {
        "Alt"@.push('+') + with_shift
    } else {
        with_shift
    };
    let whole = if c.ctrl {
        "Ctrl"@.push('+') + with_alt
    } else {
        with_alt
    };
    assert(c.shown() =~= whole);
    let s1 = if c.ctrl {
        lemma_absorb(s0, "Ctrl"@, with_alt);
        ChordView { ctrl: true, ..s0 }
    } else {
        s0
    };
    assert(s0.with_parts(split(whole, '+')) == s1.with_parts(split(with_alt, '+')));
    let s2 = if c.alt {
        lemma_absorb(s1, "Alt"@, with_shift);
        ChordView { alt: true, ..s1 }
    } else {
        s1
    };
    assert(s1.with_parts(split(with_alt, '+')) == s2.with_parts(split(with_shift, '+')));
    let s3 = if c.shift && c.shift_counts() {
        lemma_absorb(s2, "Shift"@, p);
        ChordView { shift: true, ..s2 }
    } else {
        s2
    };
    assert(s2.with_parts(split(with_shift, '+')) == s3.with_parts(split(p, '+')));
    lemma_one_part(p, '+');
    assert(seq![p].skip(1) =~= Seq::<Seq<char>>::empty());
    assert(s3.with_parts(seq![p]) == s3.with_part(p).with_parts(Seq::<Seq<char>>::empty()));
    assert(s3.with_part(p) == (ChordView { key: c.key, ..s3 }));
}

/// A part that names a key is stored under a name that needs no more changes.
proof fn lemma_stored(part: Seq<char>)
    requires
        !part.contains('+'),
        lowered(trimmed(part)).len() > 0,
        !means_modifier(lowered(trimmed(part))),
    ensures
        storable(normalized(part)),
        forall|d: char|
            (d == ',' || d == '\n') && #[trigger] normalized(part).contains(d) ==> part.contains(d),
{
    let bare = trimmed(part);
    let word = lowered(bare);
    let key = normalized(part);
    reveal_strlit("question");
    reveal_strlit("?");
    reveal_strlit("del");
    reveal_strlit("delete");
    reveal_strlit("ctrl");
    reveal_strlit("control");
    reveal_strlit("shift");
    reveal_strlit("alt");
    reveal_strlit("meta");
    lemma_trimmed_ends(part);
    assert forall|i: int| 0 <= i < word.len() implies #[trigger] word[i] == lower(bare[i]) && lower(
        word[i],
    ) == word[i] && white(word[i]) == white(bare[i]) by {}
    assert forall|d: char|
        (d == '+' || d == ',' || d == '\n') && #[trigger] key.contains(d) implies part.contains(
        d,
    ) by {
        let i = choose|i: int| 0 <= i < key.len() && key[i] == d;
        if key == word {
            assert(bare[i] == d);
            assert(bare.contains(d));
        }
    }
    lemma_trimmed_solid(word);
    lemma_trimmed_solid(key);
    assert(lowered(word) =~= word);
    assert(lowered("question"@) =~= "question"@);
    assert(lowered("delete"@) =~= "delete"@);
    assert("question"@ != "del"@ && "delete"@ != "del"@);
    assert(!means_modifier("question"@)) by {
        assert("question"@.len() == 8);
    }
    assert(!means_modifier("delete"@)) by {
        assert("delete"@.len() == 6);
    }
}

/// After the parts of a text, the key is one that parsing stores, if there is
/// one, and holds no comma and no line break that they do not.
proof fn lemma_parts_stored(c: ChordView, parts: Seq<Seq<char>>, text: Seq<char>)
    requires
        c.key.len() > 0 ==> storable(c.key),
        forall|d: char| (d == ',' || d == '\n') && #[trigger] c.key.contains(d) ==> text.contains(d),
        forall|i: int| 0 <= i < parts.len() ==> !(#[trigger] parts[i]).contains('+'),
        forall|i: int, d: char|
            0 <= i < parts.len() && #[trigger] parts[i].contains(d) ==> text.contains(d),
    ensures
        ({
            let key = c.with_parts(parts).key;
            &&& key.len() > 0 ==> storable(key)
            &&& forall|d: char|
                (d == ',' || d == '\n') && #[trigger] key.contains(d) ==> text.contains(d)
        }),
    decreases parts.len(),
{
    if parts.len() > 0 {
        let (part, rest) = (parts[0], parts.skip(1));
        let word = lowered(trimmed(part));
        if word.len() > 0 && !means_modifier(word) {
            lemma_stored(part);
        }
        assert forall|i: int| 0 <= i < rest.len() implies !(#[trigger] rest[i]).contains('+') by {
            assert(rest[i] == parts[i + 1]);
        }
        assert forall|i: int, d: char|
            0 <= i < rest.len() && #[trigger] rest[i].contains(d) implies text.contains(d) by {
            assert(rest[i] == parts[i + 1]);
        }
        lemma_parts_stored(c.with_part(part), rest, text);
    }
}

/// The key of a chord that a text names is one that parsing stores, and holds
/// no comma and no line break that the text does not.
pub proof fn law_parsed_keys_are_stored(text: Seq<char>)
    ensures
        ChordView::parsed(text) matches Some(c) ==> storable(c.key) && (forall|d: char|
            (d == ',' || d == '\n') && #[trigger] c.key.contains(d) ==> text.contains(d)),
{
    let parts = split(text, '+');
    assert forall|i: int| 0 <= i < parts.len() implies !(#[trigger] parts[i]).contains('+') by {
        lemma_part_holds(text, '+', i);
    }
    assert forall|i: int, d: char|
        0 <= i < parts.len() && #[trigger] parts[i].contains(d) implies text.contains(d) by {
        lemma_part_holds(text, '+', i);
    }
    lemma_parts_stored(ChordView::none(), parts, text);
}

/// Whatever text a chord was read from, what is shown of it reads back as the
/// same chord, without a shift that does not count. Either fires on the other.
pub proof fn law_parsed_chord_reads_back(text: Seq<char>)
    ensures
        ChordView::parsed(text) matches Some(c) ==> {
            &&& ChordView::parsed(c.shown()) == Some(c.settled())
            &&& c.fires(c.settled())
            &&& c.settled().fires(c)
        },
{
    if let Some(c) = ChordView::parsed(text) {
        law_parsed_keys_are_stored(text);
        law_chord_round_trip(c.settled());
        assert(c.shown() == c.settled().shown());
    }
}

/// A set of modifiers reads back from how it is shown.
pub proof fn law_mods_round_trip(m: Mods)
    ensures
        Mods::parsed(m.shown()) == m,
{
    lemma_modifier_names();
    let none = Mods::none();
    let (c, a, s) = ("Ctrl"@, "Alt"@, "Shift"@);
    let empty = Seq::<char>::empty();
    assert(!empty.contains('+'));
    lemma_one_part(empty, '+');
    lemma_one_part(c, '+');
    lemma_one_part(a, '+');
    lemma_one_part(s, '+');
    assert(seq![empty].skip(1) =~= Seq::<Seq<char>>::empty());
    assert(seq![c].skip(1) =~= Seq::<Seq<char>>::empty());
    assert(seq![a].skip(1) =~= Seq::<Seq<char>>::empty());
    assert(seq![s].skip(1) =~= Seq::<Seq<char>>::empty());
    reveal_strlit("ctrl");
    reveal_strlit("control");
    reveal_strlit("alt");
    reveal_strlit("meta");
    reveal_strlit("shift");
    assert(lowered(trimmed(empty)) =~= empty);
    assert(none.with_parts(seq![empty]) == none.with_part(empty).with_parts(
        Seq::<Seq<char>>::empty(),
    ));
    // one word, after what was read before it
    assert forall|x: Mods| #[trigger] x.with_parts(seq![s]) == x.with_part(s) by {
        assert(seq![s][0] == s);
        assert(x.with_part(s).with_parts(Seq::<Seq<char>>::empty()) == x.with_part(s));
    }
    assert forall|x: Mods| #[trigger] x.with_parts(seq![a]) == x.with_part(a) by {
        assert(seq![a][0] == a);
        assert(x.with_part(a).with_parts(Seq::<Seq<char>>::empty()) == x.with_part(a));
    }
    assert forall|x: Mods| #[trigger] x.with_parts(seq![c]) == x.with_part(c) by {
        assert(seq![c][0] == c);
        assert(x.with_part(c).with_parts(Seq::<Seq<char>>::empty()) == x.with_part(c));
    }
    lemma_mods_absorb(none, c, a);
    lemma_mods_absorb(none, c, s);
    lemma_mods_absorb(none, a, s);
    let as_ = a.push('+') + s;
    lemma_mods_absorb(none, c, as_);
    lemma_mods_absorb(none.with_part(c), a, s);
    let (e, wc, wa, ws) = (Seq::<Seq<char>>::empty(), seq![c], seq![a], seq![s]);
    if m.ctrl && m.alt && m.shift {
        let words = wc + wa + ws;
        assert(words.drop_last() =~= seq![c, a]);
        assert(seq![c, a].drop_last() =~= wc);
        assert(joined(wc) == c);
        assert(joined(seq![c, a]) == c.push('+') + a);
        assert(words.last() == s);
        assert(joined(words) =~= c.push('+') + as_);
    } else if m.ctrl && m.alt {
        let words = wc + wa + e;
        assert(words.drop_last() =~= wc);
        assert(joined(wc) == c);
        assert(words.last() == a);
        assert(joined(words) =~= c.push('+') + a);
    } else if m.ctrl && m.shift {
        let words = wc + e + ws;
        assert(words.drop_last() =~= wc);
        assert(joined(wc) == c);
        assert(words.last() == s);
        assert(joined(words) =~= c.push('+') + s);
    } else if m.alt && m.shift {
        let words = e + wa + ws;
        assert(words.drop_last() =~= wa);
        assert(joined(wa) == a);
        assert(words.last() == s);
        assert(joined(words) =~= a.push('+') + s);
    } else if m.ctrl {
        assert(wc + e + e =~= wc);
    } else if m.alt {
        assert(e + wa + e =~= wa);
    } else if m.shift {
        assert(e + e + ws =~= ws);
    } else {
        assert(e + e + e =~= e);
        assert(joined(e) =~= empty);
    }
}

} // verus!
