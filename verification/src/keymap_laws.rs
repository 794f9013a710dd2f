//! A keymap's file reads back as the keymap.

use vstd::prelude::*;

use crate::actions::{
    action_at, key_shaped, law_ids_name_their_actions, lemma_action_at, lemma_action_id_shape,
    lemma_modal_id_shape, modal_at, Action, Modal, ACTION_COUNT, MODAL_COUNT,
};
use crate::chord::{
    joined, law_chord_round_trip, law_mods_round_trip, law_parsed_keys_are_stored, plain, prettied,
    storable, ChordView, Mods,
};
use crate::keymap::{listed, parsed_all, KeymapView};
use crate::text::{
    index_from, key_value, lemma_first_line, lemma_first_part, lemma_index_from, lemma_index_is,
    lemma_one_part, lemma_part_holds, lemma_trimmed_ends, lemma_trimmed_padded, lemma_trimmed_solid, lines, lowered, split, trimmed,
    upper, white,
};

verus! {

/// A chord the file can hold: one that reads back from how it is shown, with
/// nothing in its key that ends a chord or a line.
pub open spec fn tidy(c: ChordView) -> bool {
    plain(c) && !c.key.contains(',') && !c.key.contains('\n')
}

/// Every chord of the keymap can be held by the file.
pub open spec fn all_tidy(k: KeymapView) -> bool {
    forall|i: int, c: int|
        #![trigger k.binds[i][c]]
        0 <= i < k.binds.len() && 0 <= c < k.binds[i].len() ==> tidy(k.binds[i][c])
}

/// A chord the file can hold, but for a shift that does not count: a key as
/// parsing stores one, with nothing in it that ends a chord or a line.
pub open spec fn writable(c: ChordView) -> bool {
    storable(c.key) && !c.key.contains(',') && !c.key.contains('\n')
}

pub open spec fn all_writable(k: KeymapView) -> bool {
    forall|i: int| 0 <= i < k.binds.len() ==> list_writable(#[trigger] k.binds[i])
}

pub open spec fn list_writable(cs: Seq<ChordView>) -> bool {
    forall|c: int| 0 <= c < cs.len() ==> writable(#[trigger] cs[c])
}

/// The keymap without the shifts that do not count.
pub open spec fn settled(k: KeymapView) -> KeymapView {
    KeymapView { binds: Seq::new(k.binds.len(), |i: int| settled_list(k.binds[i])), ..k }
}

pub open spec fn settled_list(cs: Seq<ChordView>) -> Seq<ChordView> {
    Seq::new(cs.len(), |c: int| cs[c].settled())
}

/// A character that a text does not hold, its two halves do not.
proof fn lemma_not_in_sum(a: Seq<char>, b: Seq<char>, c: char)
    requires
        !a.contains(c),
        !b.contains(c),
    ensures
        !(a + b).contains(c),
{
    if (a + b).contains(c) {
        let i = choose|i: int| 0 <= i < (a + b).len() && (a + b)[i] == c;
        if i < a.len() {
            assert(a[i] == c);
        } else {
            assert(b[i - a.len()] == c);
        }
    }
}

proof fn lemma_prettied_holds(key: Seq<char>, c: char)
    requires
        key.len() > 0,
        !key.contains(c),
        c == ',' || c == '\n',
    ensures
        !prettied(key).contains(c),
{
    let p = prettied(key);
    reveal_strlit("?");
    if p.contains(c) {
        let i = choose|i: int| 0 <= i < p.len() && p[i] == c;
        if key != "question"@ {
            if i > 0 {
                assert(p[i] == key[i]);
            } else {
                assert(upper(key[0]) == c);
            }
            assert(key[i] == c);
            assert(key.contains(c));
        }
    }
}

/// How a tidy chord is shown: something, on one line, with no comma, and no
/// white space at its end.
proof fn lemma_shown(c: ChordView)
    requires
        tidy(c),
    ensures
        c.shown().len() > 0,
        !c.shown().contains(','),
        !c.shown().contains('\n'),
        !white(c.shown().last()),
{
    let p = prettied(c.key);
    reveal_strlit("Ctrl+");
    reveal_strlit("Alt+");
    reveal_strlit("Shift+");
    reveal_strlit("?");
    reveal_strlit("question");
    let e = Seq::<char>::empty();
    let ctrl = if c.ctrl {
        "Ctrl+"@
    } else {
        e
    };
    let alt = if c.alt {
        "Alt+"@
    } else {
        e
    };
    let shift = if c.shift && c.shift_counts() {
        "Shift+"@
    } else {
        e
    };
    lemma_prettied_holds(c.key, ',');
    lemma_prettied_holds(c.key, '\n');
    lemma_not_in_sum(ctrl, alt, ',');
    lemma_not_in_sum(ctrl + alt, shift, ',');
    lemma_not_in_sum(ctrl + alt + shift, p, ',');
    lemma_not_in_sum(ctrl, alt, '\n');
    lemma_not_in_sum(ctrl + alt, shift, '\n');
    lemma_not_in_sum(ctrl + alt + shift, p, '\n');
    assert(p.len() > 0);
    assert(c.shown().last() == p.last());
    lemma_key_end(c.key);
    if c.key != "question"@ {
        if c.key.len() == 1 {
            assert(p.last() == upper(c.key[0]));
        } else {
            assert(p.last() == c.key.last());
        }
    }
}

proof fn lemma_key_end(key: Seq<char>)
    requires
        key.len() > 0,
        trimmed(key) == key,
        !white(key[0]),
    ensures
        !white(key.last()),
{
    if white(key.last()) {
        lemma_trimmed_end_len(key.drop_last());
    }
}

proof fn lemma_trimmed_end_len(s: Seq<char>)
    ensures
        crate::text::trimmed_end(s).len() <= s.len(),
    decreases s.len(),
{
    if s.len() > 0 {
        lemma_trimmed_end_len(s.drop_last());
    }
}

/// A space in front of a text that is taken apart goes to its first part.
proof fn lemma_split_spaced(s: Seq<char>, c: char)
    requires
        c != ' ',
    ensures
        split(s, c).len() > 0,
        split(seq![' '] + s, c) == seq![seq![' '] + split(s, c)[0]] + split(s, c).skip(1),
{
    let t = seq![' '] + s;
    let at = index_from(s, c, 0);
    lemma_index_from(s, c, 0);
    assert forall|i: int| 0 <= i < at + 1 implies #[trigger] t[i] != c by {
        if i > 0 {
            assert(t[i] == s[i - 1]);
        }
    }
    if at < s.len() {
        assert(t[at + 1] == s[at]);
        lemma_index_is(t, c, 0, at + 1);
        assert(t.take(at + 1) =~= seq![' '] + s.take(at));
        assert(t.skip(at + 2) =~= s.skip(at + 1));
        assert(split(s, c).skip(1) =~= split(s.skip(at + 1), c));
    } else {
        lemma_index_is(t, c, 0, t.len() as int);
        assert(split(s, c).skip(1) =~= Seq::<Seq<char>>::empty());
        assert(seq![seq![' '] + s] + Seq::<Seq<char>>::empty() =~= seq![t]);
    }
}

/// A space in front trims off.
proof fn lemma_trimmed_spaced(s: Seq<char>)
    ensures
        trimmed(seq![' '] + s) == trimmed(s),
{
    assert((seq![' '] + s).skip(1) =~= s);
    assert((seq![' '] + s)[0] == ' ');
}

/// A space in front of a chord's text changes nothing.
proof fn lemma_parsed_spaced(s: Seq<char>)
    ensures
        ChordView::parsed(seq![' '] + s) == ChordView::parsed(s),
{
    lemma_split_spaced(s, '+');
    let (a, b) = (split(s, '+'), split(seq![' '] + s, '+'));
    lemma_trimmed_spaced(a[0]);
    assert(b[0] == seq![' '] + a[0]);
    assert(b.skip(1) =~= a.skip(1));
    assert(ChordView::none().with_part(b[0]) == ChordView::none().with_part(a[0]));
}

proof fn lemma_mods_spaced(s: Seq<char>)
    ensures
        Mods::parsed(seq![' '] + s) == Mods::parsed(s),
{
    lemma_split_spaced(s, '+');
    let (a, b) = (split(s, '+'), split(seq![' '] + s, '+'));
    lemma_trimmed_spaced(a[0]);
    assert(b[0] == seq![' '] + a[0]);
    assert(b.skip(1) =~= a.skip(1));
    assert(Mods::none().with_part(b[0]) == Mods::none().with_part(a[0]));
}

/// A list of chords reads back from how the file lists it.
proof fn lemma_list(cs: Seq<ChordView>)
    requires
        cs.len() > 0,
        forall|i: int| 0 <= i < cs.len() ==> tidy(#[trigger] cs[i]),
    ensures
        parsed_all(split(seq![' '] + listed(cs), ',')) == cs,
        listed(cs).len() > 0,
        !listed(cs).contains('\n'),
        !white(listed(cs).last()),
    decreases cs.len(),
{
    let first = cs[0].shown();
    let spaced = seq![' '] + first;
    lemma_shown(cs[0]);
    law_chord_round_trip(cs[0]);
    lemma_parsed_spaced(first);
    assert(!spaced.contains(',')) by {
        assert(!seq![' '].contains(','));
        lemma_not_in_sum(seq![' '], first, ',');
    }
    if cs.len() == 1 {
        lemma_one_part(spaced, ',');
        assert(seq![spaced].skip(1) =~= Seq::<Seq<char>>::empty());
        assert(parsed_all(Seq::<Seq<char>>::empty()) =~= Seq::<ChordView>::empty());
        assert(parsed_all(seq![spaced]) =~= cs);
    } else {
        let rest = cs.skip(1);
        assert forall|i: int| 0 <= i < rest.len() implies tidy(#[trigger] rest[i]) by {
            assert(rest[i] == cs[i + 1]);
        }
        lemma_list(rest);
        reveal_strlit(", ");
        let tail = seq![' '] + listed(rest);
        assert(seq![' '] + listed(cs) =~= spaced.push(',') + tail);
        lemma_first_part(spaced, tail, ',');
        let parts = seq![spaced] + split(tail, ',');
        assert(parts.skip(1) =~= split(tail, ','));
        assert(parsed_all(parts) =~= seq![cs[0]] + rest);
        assert(seq![cs[0]] + rest =~= cs);
        assert(!", "@.contains('\n'));
        lemma_not_in_sum(first, ", "@, '\n');
        lemma_not_in_sum(first + ", "@, listed(rest), '\n');
        assert(listed(cs).last() == listed(rest).last());
    }
}

/// A key, an equals sign between spaces, and a value: it reads back as the key
/// and the value, the space before the value included.
proof fn lemma_key_value(id: Seq<char>, value: Seq<char>)
    requires
        key_shaped(id),
        value.len() > 0 ==> !white(value.last()),
    ensures
        key_value(id + " = "@ + value) == Some(
            (
                id,
                if value.len() > 0 {
                    seq![' '] + value
                } else {
                    seq![]
                },
            ),
        ),
{
    reveal_strlit(" = ");
    let line = id + " = "@ + value;
    let bare = if value.len() > 0 {
        line
    } else {
        id + seq![' ', '=']
    };
    assert(bare[0] == id[0]);
    if value.len() > 0 {
        assert(line.last() == value.last());
        lemma_trimmed_solid(line);
    } else {
        let e = Seq::<char>::empty();
        assert(line =~= e + bare + seq![' ']);
        lemma_trimmed_padded(bare, e, seq![' ']);
    }
    assert(trimmed(line) == bare);
    let at = id.len() as int + 1;
    assert forall|i: int| 0 <= i < at implies #[trigger] bare[i] != '=' by {
        if i < id.len() {
            assert(bare[i] == id[i]);
        }
    }
    assert(bare[at] == '=');
    lemma_index_is(bare, '=', 0, at);
    assert(bare.take(at) =~= Seq::<char>::empty() + id + seq![' ']);
    lemma_trimmed_padded(id, Seq::<char>::empty(), seq![' ']);
    if value.len() > 0 {
        assert(bare.skip(at + 1) =~= seq![' '] + value);
    } else {
        assert(bare.skip(at + 1) =~= Seq::<char>::empty());
    }
}

/// The action's line sets the action's chords.
proof fn lemma_action_line(k: KeymapView, map: KeymapView, i: int)
    requires
        k.wf(),
        map.wf(),
        all_tidy(map),
        0 <= i < ACTION_COUNT,
    ensures
        k.applied_line(map.action_line(i)) == (KeymapView {
            binds: k.binds.update(i, map.binds[i]),
            ..k
        }),
        !map.action_line(i).contains('\n'),
        map.action_line(i).last() != '\r',
{
    let a = action_at(i);
    let id = a.id_text();
    let cs = map.binds[i];
    lemma_action_id_shape(a);
    lemma_action_at(i);
    law_ids_name_their_actions(a, Modal::Rotate);
    let value = listed(cs);
    assert forall|c: int| 0 <= c < cs.len() implies tidy(#[trigger] cs[c]) by {
        assert(tidy(map.binds[i][c]));
    }
    reveal_strlit(" = ");
    if cs.len() > 0 {
        lemma_list(cs);
    } else {
        lemma_one_part(Seq::<char>::empty(), ',');
        let e = seq![Seq::<char>::empty()];
        assert(split(Seq::<char>::empty(), ',') == e);
        assert(!Seq::<char>::empty().contains('+'));
        lemma_one_part(Seq::<char>::empty(), '+');
        assert(e.skip(1) =~= Seq::<Seq<char>>::empty());
        assert(lowered(trimmed(Seq::<char>::empty())) =~= Seq::<char>::empty());
        let none = ChordView::none();
        assert(none.with_part(Seq::<char>::empty()) == none);
        assert(none.with_parts(Seq::<Seq<char>>::empty()) == none);
        assert(none.with_parts(e) == none);
        assert(ChordView::parsed(Seq::<char>::empty()) is None);
        assert(parsed_all(Seq::<Seq<char>>::empty()) =~= Seq::<ChordView>::empty());
        assert(parsed_all(e) =~= cs);
        assert(value =~= Seq::<char>::empty());
    }
    lemma_key_value(id, value);
    lemma_id_one_line(id);
    assert(!" = "@.contains('\n'));
    lemma_not_in_sum(id, " = "@, '\n');
    assert(!value.contains('\n'));
    lemma_not_in_sum(id + " = "@, value, '\n');
    let line = map.action_line(i);
    if value.len() > 0 {
        assert(line.last() == value.last());
    } else {
        assert(line.last() == ' ');
    }
}

proof fn lemma_id_one_line(id: Seq<char>)
    requires
        key_shaped(id),
    ensures
        !id.contains('\n'),
{
    if id.contains('\n') {
        let i = choose|i: int| 0 <= i < id.len() && id[i] == '\n';
        assert('a' <= id[i] <= 'z' || id[i] == '-');
    }
}

/// The modifier's line sets the modifier.
proof fn lemma_modal_line(k: KeymapView, map: KeymapView, i: int)
    requires
        k.wf(),
        map.wf(),
        0 <= i < MODAL_COUNT,
    ensures
        k.applied_line(map.modal_line(i)) == (KeymapView {
            modals: k.modals.update(i, map.modals[i]),
            ..k
        }),
        !map.modal_line(i).contains('\n'),
        map.modal_line(i).last() != '\r',
{
    let m = modal_at(i);
    let id = m.id_text();
    let mods = map.modals[i];
    let value = mods.shown();
    lemma_modal_id_shape(m);
    law_ids_name_their_actions(Action::Open, m);
    law_mods_round_trip(mods);
    lemma_mods_spaced(value);
    lemma_mods_shown(mods);
    reveal_strlit(" = ");
    lemma_key_value(id, value);
    lemma_id_one_line(id);
    assert(!" = "@.contains('\n'));
    lemma_not_in_sum(id, " = "@, '\n');
    lemma_not_in_sum(id + " = "@, value, '\n');
    let line = map.modal_line(i);
    if value.len() > 0 {
        assert(line.last() == value.last());
    } else {
        assert(value =~= Seq::<char>::empty());
        assert(line.last() == ' ');
    }
}

proof fn lemma_mods_shown(m: Mods)
    ensures
        !m.shown().contains('\n'),
        m.shown().len() > 0 ==> !white(m.shown().last()),
{
    reveal_strlit("Ctrl");
    reveal_strlit("Alt");
    reveal_strlit("Shift");
    let (c, a, s) = ("Ctrl"@, "Alt"@, "Shift"@);
    let e = Seq::<Seq<char>>::empty();
    let wc = if m.ctrl {
        seq![c]
    } else {
        e
    };
    let wa = if m.alt {
        seq![a]
    } else {
        e
    };
    let ws = if m.shift {
        seq![s]
    } else {
        e
    };
    let words = wc + wa + ws;
    assert forall|i: int| 0 <= i < words.len() implies solid_word(#[trigger] words[i]) by {
        assert(words[i] == c || words[i] == a || words[i] == s);
    }
    lemma_joined_solid(words);
}

spec fn solid_word(w: Seq<char>) -> bool {
    w.len() > 0 && !w.contains('\n') && !white(w.last())
}

proof fn lemma_joined_solid(words: Seq<Seq<char>>)
    requires
        forall|i: int| 0 <= i < words.len() ==> solid_word(#[trigger] words[i]),
    ensures
        !joined(words).contains('\n'),
        joined(words).len() > 0 ==> !white(joined(words).last()),
    decreases words.len(),
{
    if words.len() > 1 {
        let head = words.drop_last();
        assert forall|i: int| 0 <= i < head.len() implies solid_word(#[trigger] head[i]) by {
            assert(head[i] == words[i]);
        }
        lemma_joined_solid(head);
        let last = words[words.len() - 1];
        let start = joined(head).push('+');
        assert(start =~= joined(head) + seq!['+']);
        assert(!seq!['+'].contains('\n'));
        lemma_not_in_sum(joined(head), seq!['+'], '\n');
        lemma_not_in_sum(start, last, '\n');
        assert(joined(words).last() == last.last());
    } else if words.len() == 1 {
        assert(solid_word(words[0]));
    }
}

/// The first line is read first.
proof fn lemma_line_first(k: KeymapView, line: Seq<char>, rest: Seq<char>)
    requires
        !line.contains('\n'),
        line.len() > 0 ==> line.last() != '\r',
    ensures
        k.applied(lines(line.push('\n') + rest)) == k.applied_line(line).applied(lines(rest)),
{
    lemma_first_line(line, rest);
    let all = seq![line] + lines(rest);
    assert(all.skip(1) =~= lines(rest));
}

/// A comment changes nothing.
proof fn lemma_comment(k: KeymapView, line: Seq<char>)
    requires
        line.len() > 0,
        line[0] == '#',
        !white(line.last()),
    ensures
        k.applied_line(line) == k,
{
    lemma_trimmed_solid(line);
}

/// The lines of the actions from place `i` on set those actions' chords.
proof fn lemma_action_lines(k: KeymapView, map: KeymapView, i: int, rest: Seq<char>)
    requires
        k.wf(),
        map.wf(),
        all_tidy(map),
        0 <= i <= ACTION_COUNT,
        forall|j: int| 0 <= j < i ==> #[trigger] k.binds[j] == map.binds[j],
    ensures
        k.applied(lines(map.action_lines(i) + rest)) == (KeymapView {
            binds: map.binds,
            ..k
        }).applied(lines(rest)),
    decreases ACTION_COUNT - i,
{
    if i < ACTION_COUNT {
        let line = map.action_line(i);
        let more = map.action_lines(i + 1) + rest;
        assert(map.action_lines(i) + rest =~= line.push('\n') + more);
        lemma_action_line(k, map, i);
        lemma_line_first(k, line, more);
        let next = k.applied_line(line);
        lemma_action_lines(next, map, i + 1, rest);
    } else {
        assert(map.action_lines(i) + rest =~= rest);
        assert(k.binds =~= map.binds);
    }
}

proof fn lemma_modal_lines(k: KeymapView, map: KeymapView, i: int)
    requires
        k.wf(),
        map.wf(),
        0 <= i <= MODAL_COUNT,
        forall|j: int| 0 <= j < i ==> #[trigger] k.modals[j] == map.modals[j],
    ensures
        k.applied(lines(map.modal_lines(i))) == (KeymapView { modals: map.modals, ..k }),
    decreases MODAL_COUNT - i,
{
    if i < MODAL_COUNT {
        let line = map.modal_line(i);
        let more = map.modal_lines(i + 1);
        lemma_modal_line(k, map, i);
        lemma_line_first(k, line, more);
        lemma_modal_lines(k.applied_line(line), map, i + 1);
    } else {
        assert(lines(map.modal_lines(i)) =~= Seq::<Seq<char>>::empty());
        assert(k.modals =~= map.modals);
    }
}

/// Reading a keymap's file gives back the keymap, whatever was bound before.
pub proof fn law_keymap_round_trip(k: KeymapView, map: KeymapView)
    requires
        k.wf(),
        map.wf(),
        all_tidy(map),
    ensures
        k.applied(lines(map.text())) == map,
{
    let c1 = "# gifkino keybindings"@;
    let c2 = "# One action per line. Separate alternatives with a comma;"@;
    let c3 = "# leave the right side empty to unbind."@;
    let c4 = "# Modifiers held while dragging an overlay on the canvas."@;
    let e = Seq::<char>::empty();
    reveal_strlit("# gifkino keybindings");
    reveal_strlit("# One action per line. Separate alternatives with a comma;");
    reveal_strlit("# leave the right side empty to unbind.");
    reveal_strlit("# Modifiers held while dragging an overlay on the canvas.");
    let r6 = map.modal_lines(0);
    let r5 = c4.push('\n') + r6;
    let r4 = e.push('\n') + r5;
    let r3 = map.action_lines(0) + r4;
    let r2 = e.push('\n') + r3;
    let r1 = c3.push('\n') + r2;
    let r0 = c2.push('\n') + r1;
    assert(map.text() =~= c1.push('\n') + r0);
    lemma_comment(k, c1);
    lemma_comment(k, c2);
    lemma_comment(k, c3);
    lemma_line_first(k, c1, r0);
    lemma_line_first(k, c2, r1);
    lemma_line_first(k, c3, r2);
    assert(trimmed(e) =~= e);
    lemma_line_first(k, e, r3);
    lemma_action_lines(k, map, 0, r4);
    let k1 = KeymapView { binds: map.binds, ..k };
    lemma_line_first(k1, e, r5);
    lemma_comment(k1, c4);
    lemma_line_first(k1, c4, r6);
    lemma_modal_lines(k1, map, 0);
}

proof fn lemma_listed_settled(cs: Seq<ChordView>)
    ensures
        listed(settled_list(cs)) == listed(cs),
    decreases cs.len(),
{
    let after = settled_list(cs);
    if cs.len() > 0 {
        assert(after[0].shown() == cs[0].shown());
        assert(after.skip(1) =~= settled_list(cs.skip(1)));
        lemma_listed_settled(cs.skip(1));
    } else {
        assert(after =~= cs);
    }
}

proof fn lemma_lines_settled(k: KeymapView, i: int)
    requires
        k.wf(),
        0 <= i <= ACTION_COUNT,
    ensures
        settled(k).action_lines(i) == k.action_lines(i),
    decreases ACTION_COUNT - i,
{
    if i < ACTION_COUNT {
        lemma_listed_settled(k.binds[i]);
        lemma_lines_settled(k, i + 1);
    }
}

proof fn lemma_same_modal_lines(a: KeymapView, b: KeymapView, i: int)
    requires
        a.modals == b.modals,
        0 <= i <= MODAL_COUNT,
    ensures
        a.modal_lines(i) == b.modal_lines(i),
    decreases MODAL_COUNT - i,
{
    if i < MODAL_COUNT {
        lemma_same_modal_lines(a, b, i + 1);
    }
}

/// Reading a keymap's file gives back the keymap, without the shifts that do
/// not count, whatever was bound before.
pub proof fn law_keymap_reads_back(k: KeymapView, map: KeymapView)
    requires
        k.wf(),
        map.wf(),
        all_writable(map),
    ensures
        k.applied(lines(map.text())) == settled(map),
{
    let after = settled(map);
    assert forall|i: int, c: int|
        #![trigger after.binds[i][c]]
        0 <= i < after.binds.len() && 0 <= c < after.binds[i].len() implies tidy(
        after.binds[i][c],
    ) by {
        assert(list_writable(map.binds[i]));
        assert(writable(map.binds[i][c]));
    }
    lemma_lines_settled(map, 0);
    lemma_same_modal_lines(after, map, 0);
    assert(after.text() == map.text());
    law_keymap_round_trip(k, after);
}

/// The chords that texts name can be written, if no text holds what ends a
/// chord or a line.
proof fn lemma_parsed_writable(parts: Seq<Seq<char>>)
    requires
        forall|i: int| 0 <= i < parts.len() ==> chord_text(#[trigger] parts[i]),
    ensures
        list_writable(parsed_all(parts)),
    decreases parts.len(),
{
    if parts.len() > 0 {
        let rest = parts.skip(1);
        assert forall|i: int| 0 <= i < rest.len() implies chord_text(#[trigger] rest[i]) by {
            assert(rest[i] == parts[i + 1]);
        }
        lemma_parsed_writable(rest);
        assert(chord_text(parts[0]));
        law_parsed_keys_are_stored(parts[0]);
    }
}

spec fn chord_text(s: Seq<char>) -> bool {
    !s.contains(',') && !s.contains('\n')
}

proof fn lemma_line_is_one(s: Seq<char>, i: int)
    requires
        0 <= i < lines(s).len(),
    ensures
        !lines(s)[i].contains('\n'),
    decreases s.len(),
{
    let end = index_from(s, '\n', 0);
    lemma_index_from(s, '\n', 0);
    let line = lines(s)[i];
    if end < s.len() && i > 0 {
        lemma_line_is_one(s.skip(end + 1), i - 1);
    } else if line.contains('\n') {
        let j = choose|j: int| 0 <= j < line.len() && line[j] == '\n';
        assert(s[j] == line[j]);
    }
}

proof fn lemma_value_is_one_line(line: Seq<char>)
    requires
        !line.contains('\n'),
    ensures
        key_value(line) matches Some(found) ==> !found.1.contains('\n'),
{
    lemma_trimmed_ends(line);
    let bare = trimmed(line);
    let at = index_from(bare, '=', 0);
    lemma_index_from(bare, '=', 0);
    if at < bare.len() && bare.skip(at + 1).contains('\n') {
        let value = bare.skip(at + 1);
        let j = choose|j: int| 0 <= j < value.len() && value[j] == '\n';
        assert(bare[at + 1 + j] == '\n');
        assert(bare.contains('\n'));
    }
}

proof fn lemma_applied_writable(k: KeymapView, rows: Seq<Seq<char>>)
    requires
        k.wf(),
        all_writable(k),
        forall|i: int| 0 <= i < rows.len() ==> !(#[trigger] rows[i]).contains('\n'),
    ensures
        all_writable(k.applied(rows)),
    decreases rows.len(),
{
    if rows.len() > 0 {
        let (line, rest) = (rows[0], rows.skip(1));
        lemma_value_is_one_line(line);
        let next = k.applied_line(line);
        if let Some(found) = key_value(line) {
            let parts = split(found.1, ',');
            assert forall|i: int| 0 <= i < parts.len() implies chord_text(#[trigger] parts[i]) by {
                lemma_part_holds(found.1, ',', i);
            }
            lemma_parsed_writable(parts);
        }
        assert(next.wf());
        assert forall|i: int| 0 <= i < next.binds.len() implies list_writable(
            #[trigger] next.binds[i],
        ) by {
            assert(list_writable(k.binds[i]));
        }
        assert forall|i: int| 0 <= i < rest.len() implies !(#[trigger] rest[i]).contains('\n') by {
            assert(rest[i] == rows[i + 1]);
        }
        lemma_applied_writable(next, rest);
    }
}

/// Whatever a file says, every chord it binds can be written to one.
pub proof fn law_a_file_binds_what_can_be_written(k: KeymapView, file: Seq<char>)
    requires
        k.wf(),
        all_writable(k),
    ensures
        all_writable(k.applied(lines(file))),
{
    let rows = lines(file);
    assert forall|i: int| 0 <= i < rows.len() implies !(#[trigger] rows[i]).contains('\n') by {
        lemma_line_is_one(file, i);
    }
    lemma_applied_writable(k, rows);
}

/// Every chord of the keymap the application ships with can be written.
pub proof fn law_shipped_chords_can_be_written()
    ensures
        KeymapView::shipped().wf(),
        all_writable(KeymapView::shipped()),
{
    let k = KeymapView::shipped();
    assert forall|i: int| 0 <= i < k.binds.len() implies list_writable(#[trigger] k.binds[i]) by {
        let parts = action_at(i).default_texts();
        assert forall|j: int| 0 <= j < parts.len() implies chord_text(#[trigger] parts[j]) by {
            reveal_strlit("Ctrl+O");
            reveal_strlit("Ctrl+E");
            reveal_strlit("Ctrl+Z");
            reveal_strlit("Ctrl+Shift+Z");
            reveal_strlit("Ctrl+Y");
            reveal_strlit("space");
            reveal_strlit("Ctrl+A");
            reveal_strlit("Delete");
            reveal_strlit("Ctrl+?");
            reveal_strlit("T");
            reveal_strlit("R");
            reveal_strlit("O");
            reveal_strlit("A");
            reveal_strlit("C");
            reveal_strlit("Ctrl+D");
            reveal_strlit("Ctrl+X");
            reveal_strlit("Ctrl+C");
            reveal_strlit("Ctrl+V");
            reveal_strlit("Ctrl+Up");
            reveal_strlit("Ctrl+plus");
            reveal_strlit("Ctrl+equal");
            reveal_strlit("Ctrl+Down");
            reveal_strlit("Ctrl+minus");
            reveal_strlit("Ctrl+0");
        }
        lemma_parsed_writable(parts);
    }
}

} // verus!
