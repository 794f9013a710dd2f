//! Translations, in the gettext `.po` format.
//!
//! The catalog is the `.po` file itself, parsed at startup, rather than a `.mo`
//! compiled by `msgfmt`. Same format, same tooling on the translator's side —
//! but no build step, no install prefix and no dependency.
//!
//! One deliberate difference from `msgfmt`: fuzzy entries are used, not
//! dropped. Here `#, fuzzy` marks a draft that no translator has confirmed,
//! and a draft nobody can see is a draft nobody will ever correct.

use vstd::prelude::*;

use crate::text::{
    chars_of, extend, find_from, has_prefix, index_from, lemma_first_line, lemma_trimmed_solid,
    lines, lines_of, part, replace_all, replaced, same_chars, starts_with, text_of, texts, trim,
    trimmed, white,
};

verus! {

/// The translations of one language. No source string has two.
#[derive(Debug)]
pub struct Catalog {
    pub entries: Vec<(String, String)>,
}

/// The map a list of entries makes, the later over the earlier.
pub open spec fn map_of(entries: Seq<(String, String)>) -> Map<Seq<char>, Seq<char>>
    decreases entries.len(),
{
    if entries.len() == 0 {
        Map::empty()
    } else {
        map_of(entries.drop_last()).insert(entries.last().0@, entries.last().1@)
    }
}

/// No two entries have the same source string.
pub open spec fn distinct(entries: Seq<(String, String)>) -> bool {
    forall|i: int, j: int|
        0 <= i < j < entries.len() ==> (#[trigger] entries[i]).0@ != (#[trigger] entries[j]).0@
}

proof fn lemma_map_of(entries: Seq<(String, String)>)
    requires
        distinct(entries),
    ensures
        map_of(entries).dom().finite(),
        map_of(entries).dom().len() == entries.len(),
        forall|i: int|
            0 <= i < entries.len() ==> map_of(entries).contains_key((#[trigger] entries[i]).0@)
                && map_of(entries)[entries[i].0@] == entries[i].1@,
        forall|key: Seq<char>|
            #[trigger] map_of(entries).contains_key(key) ==> exists|i: int|
                0 <= i < entries.len() && (#[trigger] entries[i]).0@ == key,
    decreases entries.len(),
{
    if entries.len() > 0 {
        let head = entries.drop_last();
        let last = entries[entries.len() - 1];
        assert(distinct(head)) by {
            assert forall|i: int, j: int| 0 <= i < j < head.len() implies (#[trigger] head[i]).0@
                != (#[trigger] head[j]).0@ by {
                assert(entries[i].0@ != entries[j].0@);
            }
        }
        lemma_map_of(head);
        assert forall|i: int| 0 <= i < entries.len() implies map_of(entries).contains_key(
            (#[trigger] entries[i]).0@,
        ) && map_of(entries)[entries[i].0@] == entries[i].1@ by {
            if i < head.len() {
                assert(head[i] == entries[i]);
                assert(entries[i].0@ != last.0@);
            }
        }
        assert forall|key: Seq<char>| #[trigger] map_of(entries).contains_key(
            key,
        ) implies exists|i: int| 0 <= i < entries.len() && (#[trigger] entries[i]).0@ == key by {
            if key == last.0@ {
                assert(entries[entries.len() - 1].0@ == key);
            } else {
                assert(map_of(head).contains_key(key));
                let i = choose|i: int| 0 <= i < head.len() && (#[trigger] head[i]).0@ == key;
                assert(entries[i].0@ == key);
            }
        }
        if map_of(head).contains_key(last.0@) {
            let i = choose|i: int| 0 <= i < head.len() && (#[trigger] head[i]).0@ == last.0@;
            assert(entries[i].0@ != last.0@);
        }
    }
}

impl View for Catalog {
    type V = Map<Seq<char>, Seq<char>>;

    open spec fn view(&self) -> Map<Seq<char>, Seq<char>> {
        map_of(self.entries@)
    }
}

/// The translation of a string, or the string itself.
pub open spec fn translated(catalog: Map<Seq<char>, Seq<char>>, msgid: Seq<char>) -> Seq<char> {
    if catalog.contains_key(msgid) {
        catalog[msgid]
    } else {
        msgid
    }
}

impl Catalog {
    pub open spec fn wf(&self) -> bool {
        distinct(self.entries@)
    }

    /// A catalog that translates nothing.
    pub fn new() -> (r: Catalog)
        ensures
            r.wf(),
            r@ == Map::<Seq<char>, Seq<char>>::empty(),
    {
        Catalog { entries: Vec::new() }
    }

    fn position(&self, msgid: &Vec<char>) -> (r: Option<usize>)
        ensures
            match r {
                Some(i) => i < self.entries@.len() && self.entries@[i as int].0@ == msgid@,
                None => forall|i: int|
                    0 <= i < self.entries@.len() ==> (#[trigger] self.entries@[i]).0@ != msgid@,
            },
    {
        let mut i: usize = 0;
        while i < self.entries.len()
            invariant
                i <= self.entries@.len(),
                forall|k: int| 0 <= k < i ==> (#[trigger] self.entries@[k]).0@ != msgid@,
            decreases self.entries@.len() - i,
        {
            if same_chars(&chars_of(self.entries[i].0.as_str()), msgid) {
                return Some(i);
            }
            i = i + 1;
        }
        None
    }

    pub fn get(&self, msgid: &str) -> (r: Option<&String>)
        requires
            self.wf(),
        ensures
            match r {
                Some(text) => self@.contains_key(msgid@) && self@[msgid@] == text@,
                None => !self@.contains_key(msgid@),
            },
    {
        proof {
            lemma_map_of(self.entries@);
        }
        match self.position(&chars_of(msgid)) {
            Some(i) => Some(&self.entries[i].1),
            None => None,
        }
    }

    pub fn contains_key(&self, msgid: &str) -> (r: bool)
        requires
            self.wf(),
        ensures
            r == self@.contains_key(msgid@),
    {
        self.get(msgid).is_some()
    }

    pub fn len(&self) -> (r: usize)
        requires
            self.wf(),
        ensures
            r == self@.dom().len(),
    {
        proof {
            lemma_map_of(self.entries@);
        }
        self.entries.len()
    }

    /// Translate `msgid` as `msgstr` from now on.
    fn insert(&mut self, msgid: &Vec<char>, msgstr: &Vec<char>)
        requires
            old(self).wf(),
        ensures
            final(self).wf(),
            final(self)@ == old(self)@.insert(msgid@, msgstr@),
    {
        let entry = (text_of(msgid), text_of(msgstr));
        let ghost before = self.entries@;
        match self.position(msgid) {
            Some(i) => {
                self.entries[i] = entry;
                proof {
                    lemma_map_of(before);
                    lemma_map_of(self.entries@);
                    let after = map_of(self.entries@);
                    let want = map_of(before).insert(msgid@, msgstr@);
                    assert forall|key: Seq<char>| after.contains_key(key)
                        == want.contains_key(key) by {
                        if after.contains_key(key) {
                            let k = choose|k: int|
                                0 <= k < self.entries@.len() && (#[trigger] self.entries@[k]).0@
                                    == key;
                            assert(before[k].0@ == key);
                        }
                        if want.contains_key(key) && key != msgid@ {
                            let k = choose|k: int|
                                0 <= k < before.len() && (#[trigger] before[k]).0@ == key;
                            assert(self.entries@[k].0@ == key);
                        }
                        assert(self.entries@[i as int].0@ == msgid@);
                    }
                    assert forall|key: Seq<char>| after.contains_key(key) implies after[key]
                        == want[key] by {
                        let k = choose|k: int|
                            0 <= k < self.entries@.len() && (#[trigger] self.entries@[k]).0@ == key;
                        assert(before[k].0@ == key);
                        if k != i {
                            assert(before[k] == self.entries@[k]);
                            assert(before[k].0@ != before[i as int].0@);
                        }
                    }
                    assert(after =~= want);
                }
            },
            None => {
                self.entries.push(entry);
                assert(self.entries@.drop_last() =~= before);
            },
        }
    }
}

/// Translate. The msgid is the US English string, so an untranslated build
/// reads correctly rather than showing keys.
pub fn t(catalog: &Catalog, msgid: &str) -> (r: String)
    requires
        catalog.wf(),
    ensures
        r@ == translated(catalog@, msgid@),
{
    match catalog.get(msgid) {
        Some(text) => text.clone(),
        None => msgid.to_owned(),
    }
}

/// Mark a literal for extraction without translating it here. gettext's `N_`:
/// for strings defined far from where they are shown, such as the action labels
/// in `keymap` and the history labels stored in a `Change`.
pub fn n(msgid: &'static str) -> (r: &'static str)
    ensures
        r@ == msgid@,
{
    msgid
}

/// Translate a string that is not a literal — a history label carried in a
/// `Change`, say.
pub fn lookup(catalog: &Catalog, msgid: &str) -> (r: String)
    requires
        catalog.wf(),
    ensures
        r@ == translated(catalog@, msgid@),
{
    t(catalog, msgid)
}

/// Two-form plural: a choice between two msgids, not the Plural-Forms
/// expression gettext evaluates, so it is right for languages with one plural
/// (de, en) and for languages with none (ja) and wrong for Slavic ones.
pub fn tn(catalog: &Catalog, one: &str, many: &str, n: usize) -> (r: String)
    requires
        catalog.wf(),
    ensures
        r@ == translated(
            catalog@,
            if n == 1 {
                one@
            } else {
                many@
            },
        ),
{
    if n == 1 {
        t(catalog, one)
    } else {
        t(catalog, many)
    }
}

/// The template with each value in turn put in for its placeholder.
pub open spec fn filled(template: Seq<char>, values: Seq<(Seq<char>, Seq<char>)>) -> Seq<char>
    decreases values.len(),
{
    if values.len() == 0 {
        template
    } else {
        replaced(
            filled(template, values.drop_last()),
            placeholder(values.last().0),
            values.last().1,
        )
    }
}

/// What a list of pairs of texts holds.
pub open spec fn pair_views(values: Seq<(&str, &str)>) -> Seq<(Seq<char>, Seq<char>)> {
    Seq::new(values.len(), |i: int| (values[i].0@, values[i].1@))
}

/// The name in curly brackets.
pub open spec fn placeholder(name: Seq<char>) -> Seq<char> {
    seq!['{'] + name + seq!['}']
}

/// Fill `{name}` placeholders. Named placeholders survive a translator
/// reordering the sentence, which positional ones do not.
pub fn fill(template: &str, values: &[(&str, &str)]) -> (r: String)
    ensures
        r@ == filled(template@, pair_views(values@)),
{
    let mut out = chars_of(template);
    let mut i: usize = 0;
    let ghost all = pair_views(values@);
    assert(all.take(0) =~= Seq::<(Seq<char>, Seq<char>)>::empty());
    while i < values.len()
        invariant
            i <= values@.len(),
            all == pair_views(values@),
            out@ == filled(template@, all.take(i as int)),
        decreases values@.len() - i,
    {
        assert(all.take(i + 1).drop_last() =~= all.take(i as int));
        let (name, value) = values[i];
        let mut hole: Vec<char> = Vec::new();
        hole.push('{');
        extend(&mut hole, &chars_of(name));
        hole.push('}');
        assert(hole@ =~= placeholder(name@));
        out = replace_all(&out, &hole, &chars_of(value));
        i = i + 1;
    }
    assert(all.take(i as int) =~= all);
    text_of(&out)
}

/// The locale the catalog is loaded for, given the explicit setting and the
/// environment's locale variables in the order gettext reads them: the
/// explicit setting, else the first variable that names a locale, else none.
pub open spec fn locale_from(language: Option<Seq<char>>, variables: Seq<Seq<char>>) -> Option<
    Seq<char>,
> {
    match language {
        Some(language) => Some(language),
        None => {
            let named = first_named(variables, 0);
            if 0 <= named < variables.len() {
                let value = trimmed(variables[named]);
                Some(normalized_locale(value.take(index_from(value, ':', 0))))
            } else {
                None
            }
        },
    }
}

/// Whether the variable names a locale that has translations.
pub open spec fn names_locale(variable: Seq<char>) -> bool {
    let value = trimmed(variable);
    value.len() > 0 && value != "C"@ && value != "POSIX"@
}

/// The first variable from `i` on that names a locale, or their number.
pub open spec fn first_named(variables: Seq<Seq<char>>, i: int) -> int
    decreases variables.len() - i,
{
    if i < 0 || i >= variables.len() {
        variables.len() as int
    } else if names_locale(variables[i]) {
        i
    } else {
        first_named(variables, i + 1)
    }
}

/// What each of a list of strings holds.
pub open spec fn string_views(v: Seq<String>) -> Seq<Seq<char>> {
    Seq::new(v.len(), |i: int| v[i]@)
}

/// Explicit setting first, then the environment in the order gettext reads
/// it. `LANGUAGE` is a colon-separated priority list of which the first
/// counts; the rest are single locales.
pub fn current_locale(language: &Option<String>, variables: &Vec<String>) -> (r: Option<String>)
    ensures
        ({
            let language = match *language {
                Some(l) => Some(l@),
                None => None,
            };
            match r {
                Some(name) => locale_from(language, string_views(variables@)) == Some(name@),
                None => locale_from(language, string_views(variables@)) is None,
            }
        }),
{
    if let Some(language) = language {
        return Some(language.clone());
    }
    let ghost all = string_views(variables@);
    let mut i: usize = 0;
    while i < variables.len()
        invariant
            i <= variables@.len(),
            language is None,
            all == string_views(variables@),
            first_named(all, 0) == first_named(all, i as int),
        decreases variables@.len() - i,
    {
        let value = trim(&chars_of(variables[i].as_str()));
        if value.len() > 0 && !same_chars(&value, &chars_of("C")) && !same_chars(
            &value,
            &chars_of("POSIX"),
        ) {
            let end: usize = find_from(&value, ':', 0);
            let first = part(&value, 0, end);
            assert(first@ =~= value@.take(end as int));
            assert(names_locale(all[i as int]));
            assert(first_named(all, 0) == i);
            let name = normalize_locale(text_of(&first).as_str());
            return Some(name);
        }
        i = i + 1;
    }
    None
}

/// The locale the catalog was loaded for, for the About dialog and for tests.
pub fn locale(language: &Option<String>, variables: &Vec<String>) -> (r: String)
    ensures
        ({
            let language = match *language {
                Some(l) => Some(l@),
                None => None,
            };
            r@ == match locale_from(language, string_views(variables@)) {
                Some(name) => name,
                None => "en_US"@,
            }
        }),
{
    match current_locale(language, variables) {
        Some(name) => name,
        None => "en_US".to_owned(),
    }
}

/// The locale without its encoding and variant, and with underscores.
pub open spec fn normalized_locale(value: Seq<char>) -> Seq<char> {
    let dot = index_from(value, '.', 0);
    let at = index_from(value, '@', 0);
    let name = value.take(
        if dot < at {
            dot
        } else {
            at
        },
    );
    Seq::new(
        name.len(),
        |i: int|
            if name[i] == '-' {
                '_'
            } else {
                name[i]
            },
    )
}

/// `de_DE.UTF-8@euro` is `de_DE`.
pub fn normalize_locale(value: &str) -> (r: String)
    ensures
        r@ == normalized_locale(value@),
{
    let v = chars_of(value);
    let dot: usize = find_from(&v, '.', 0);
    let at: usize = find_from(&v, '@', 0);
    let end: usize = if dot < at {
        dot
    } else {
        at
    };
    let mut r: Vec<char> = Vec::new();
    let mut i: usize = 0;
    while i < end
        invariant
            i <= end <= v@.len(),
            r@.len() == i,
            forall|k: int|
                0 <= k < i ==> #[trigger] r@[k] == if v@[k] == '-' {
                    '_'
                } else {
                    v@[k]
                },
        decreases end - i,
    {
        r.push(
            if v[i] == '-' {
                '_'
            } else {
                v[i]
            },
        );
        i = i + 1;
    }
    assert(r@ =~= normalized_locale(value@));
    text_of(&r)
}

/// The catalog names a locale tries, the more special first.
pub open spec fn candidate_names(locale: Seq<char>) -> Seq<Seq<char>> {
    let end = index_from(locale, '_', 0);
    if end < locale.len() {
        seq![locale, locale.take(end)]
    } else {
        seq![locale]
    }
}

/// `de_DE` tries `de_DE.po` and then `de.po`, which is what lets one German
/// catalog serve de_DE, de_AT and de_CH.
pub fn candidates(locale: &str) -> (r: Vec<String>)
    ensures
        string_views(r@) == candidate_names(locale@),
{
    let v = chars_of(locale);
    let end: usize = find_from(&v, '_', 0);
    let mut names: Vec<String> = Vec::new();
    names.push(locale.to_owned());
    if end < v.len() {
        let base = part(&v, 0, end);
        names.push(text_of(&base));
    }
    assert(string_views(names@) =~= candidate_names(locale@));
    names
}

/// Where a `.po` reader stands: the entry it is reading, and those it has
/// read.
pub struct PoState {
    pub id: Seq<char>,
    pub msg: Seq<char>,
    pub in_msgstr: bool,
    pub skip: bool,
    pub catalog: Map<Seq<char>, Seq<char>>,
}

impl PoState {
    pub open spec fn start() -> PoState {
        PoState {
            id: seq![],
            msg: seq![],
            in_msgstr: false,
            skip: false,
            catalog: Map::empty(),
        }
    }

    /// The entry that was being read goes into the catalog, unless it is to be
    /// skipped, is the header, or is not translated.
    pub open spec fn flush(self) -> PoState {
        PoState {
            id: seq![],
            msg: seq![],
            in_msgstr: self.in_msgstr,
            skip: false,
            catalog: if !self.skip && self.id.len() > 0 && self.msg.len() > 0 {
                self.catalog.insert(self.id, self.msg)
            } else {
                self.catalog
            },
        }
    }

    /// After one more line.
    pub open spec fn read(self, line: Seq<char>) -> PoState {
        let line = trimmed(line);
        if line.len() == 0 {
            PoState { in_msgstr: false, ..self.flush() }
        } else if has_prefix(line, "msgid "@) {
            PoState {
                id: unquoted(line.skip("msgid "@.len() as int)),
                in_msgstr: false,
                skip: self.skip && !self.in_msgstr,
                ..self.flush()
            }
        } else if has_prefix(line, "msgstr "@) {
            PoState {
                msg: unquoted(line.skip("msgstr "@.len() as int)),
                in_msgstr: true,
                ..self
            }
        } else if has_prefix(line, "msgstr["@) {
            PoState { in_msgstr: self.in_msgstr || self.skip, ..self }
        } else if has_prefix(line, "msgctxt "@) {
            if self.in_msgstr {
                PoState { in_msgstr: false, skip: true, ..self.flush() }
            } else {
                PoState { skip: true, ..self }
            }
        } else if has_prefix(line, "msgid_plural "@) {
            PoState { skip: true, ..self }
        } else if line[0] == '"' {
            if self.in_msgstr {
                PoState { msg: self.msg + unquoted(line), ..self }
            } else {
                PoState { id: self.id + unquoted(line), ..self }
            }
        } else {
            self
        }
    }

    /// After these lines.
    pub open spec fn read_all(self, lines: Seq<Seq<char>>) -> PoState
        decreases lines.len(),
    {
        if lines.len() == 0 {
            self
        } else {
            self.read_all(lines.drop_last()).read(lines.last())
        }
    }
}

/// The catalog a `.po` text holds.
pub open spec fn po_catalog(text: Seq<char>) -> Map<Seq<char>, Seq<char>> {
    PoState::start().read_all(lines(text)).flush().catalog
}

/// The text inside the quotes, with gettext's escapes undone.
pub open spec fn unquoted(raw: Seq<char>) -> Seq<char> {
    let raw = trimmed(raw);
    if raw.len() >= 2 && raw[0] == '"' && raw.last() == '"' {
        unescaped(raw.subrange(1, raw.len() - 1))
    } else {
        unescaped(raw)
    }
}

/// What an escaped character stands for.
pub open spec fn escape_of(c: char) -> char {
    if c == 'n' {
        '\n'
    } else if c == 't' {
        '\t'
    } else if c == 'r' {
        '\r'
    } else {
        c
    }
}

/// The text with gettext's escapes undone. A backslash at the very end stands
/// for itself.
pub open spec fn unescaped(s: Seq<char>) -> Seq<char>
    decreases s.len(),
{
    if s.len() == 0 {
        s
    } else if s[0] != '\\' || s.len() == 1 {
        seq![s[0]] + unescaped(s.skip(1))
    } else {
        seq![escape_of(s[1])] + unescaped(s.skip(2))
    }
}

/// The text with the characters escaped that a quoted string cannot hold.
pub open spec fn escaped(s: Seq<char>) -> Seq<char>
    decreases s.len(),
{
    if s.len() == 0 {
        s
    } else {
        escaped(s.drop_last()) + escape(s.last())
    }
}

pub open spec fn escape(c: char) -> Seq<char> {
    if c == '"' {
        seq!['\\', '"']
    } else if c == '\\' {
        seq!['\\', '\\']
    } else if c == '\n' {
        seq!['\\', 'n']
    } else if c == '\t' {
        seq!['\\', 't']
    } else {
        seq![c]
    }
}

/// Strip the surrounding quotes and undo the escapes gettext writes.
fn unquote(raw: &Vec<char>) -> (r: Vec<char>)
    ensures
        r@ == unquoted(raw@),
{
    let raw = trim(raw);
    let n: usize = raw.len();
    if n >= 2 && raw[0] == '"' && raw[n - 1] == '"' {
        let inner = part(&raw, 1, n - 1);
        unescape(&inner)
    } else {
        unescape(&raw)
    }
}

/// Undo gettext's escapes on the inside of a quoted string. Separate from
/// `unquote` because a msgid assembled from continuation lines has already
/// lost its quotes.
pub fn unescape(inner: &Vec<char>) -> (r: Vec<char>)
    ensures
        r@ == unescaped(inner@),
{
    let mut r: Vec<char> = Vec::new();
    let mut i: usize = 0;
    assert(inner@.skip(0) =~= inner@);
    assert(r@ + unescaped(inner@) =~= unescaped(inner@));
    while i < inner.len()
        invariant
            i <= inner@.len(),
            r@ + unescaped(inner@.skip(i as int)) == unescaped(inner@),
        decreases inner@.len() - i,
    {
        let ghost rest = inner@.skip(i as int);
        let ghost before = r@;
        let c = inner[i];
        if c != '\\' || i == inner.len() - 1 {
            r.push(c);
            assert(rest.skip(1) =~= inner@.skip(i + 1));
            assert(r@ + unescaped(inner@.skip(i + 1)) =~= before + unescaped(rest));
            i = i + 1;
        } else {
            let next = inner[i + 1];
            r.push(
                if next == 'n' {
                    '\n'
                } else if next == 't' {
                    '\t'
                } else if next == 'r' {
                    '\r'
                } else {
                    next
                },
            );
            assert(rest.skip(2) =~= inner@.skip(i + 2));
            assert(r@ + unescaped(inner@.skip(i + 2)) =~= before + unescaped(rest));
            i = i + 2;
        }
    }
    assert(inner@.skip(i as int) =~= Seq::<char>::empty());
    assert(r@ + unescaped(inner@.skip(i as int)) =~= r@);
    r
}

/// The quoted string that stands for `value`.
pub open spec fn quoted(value: Seq<char>) -> Seq<char> {
    seq!['"'] + escaped(value) + seq!['"']
}

/// The reverse of reading, for anything that writes a `.po` back out.
pub fn quote(value: &str) -> (r: String)
    ensures
        r@ == quoted(value@),
{
    let v = chars_of(value);
    let mut out = String::new();
    out.push('"');
    let mut i: usize = 0;
    assert(v@.take(0) =~= Seq::<char>::empty());
    assert(out@ =~= seq!['"'] + escaped(v@.take(0)));
    while i < v.len()
        invariant
            i <= v@.len(),
            out@ == seq!['"'] + escaped(v@.take(i as int)),
        decreases v@.len() - i,
    {
        assert(v@.take(i + 1).drop_last() =~= v@.take(i as int));
        let c = v[i];
        let ghost before = out@;
        if c == '"' || c == '\\' {
            out.push('\\');
            out.push(c);
        } else if c == '\n' {
            out.push('\\');
            out.push('n');
        } else if c == '\t' {
            out.push('\\');
            out.push('t');
        } else {
            out.push(c);
        }
        assert(out@ =~= before + escape(c));
        assert(out@ =~= seq!['"'] + escaped(v@.take(i + 1)));
        i = i + 1;
    }
    assert(v@.take(i as int) =~= v@);
    out.push('"');
    assert(out@ =~= quoted(value@));
    out
}

/// A reader of `.po` lines.
struct PoReader {
    id: Vec<char>,
    msg: Vec<char>,
    in_msgstr: bool,
    skip: bool,
    catalog: Catalog,
}

impl PoReader {
    spec fn state(&self) -> PoState {
        PoState {
            id: self.id@,
            msg: self.msg@,
            in_msgstr: self.in_msgstr,
            skip: self.skip,
            catalog: self.catalog@,
        }
    }

    fn flush(&mut self)
        requires
            old(self).catalog.wf(),
        ensures
            final(self).catalog.wf(),
            final(self).state() == old(self).state().flush(),
    {
        // The empty msgid is the header, and an empty translation means the
        // entry is untranslated: both fall back to the source string.
        if !self.skip && self.id.len() > 0 && self.msg.len() > 0 {
            self.catalog.insert(&self.id, &self.msg);
        }
        self.id = Vec::new();
        self.msg = Vec::new();
        self.skip = false;
        assert(self.id@ =~= seq![]);
        assert(self.msg@ =~= seq![]);
    }

    fn read(&mut self, line: &Vec<char>)
        requires
            old(self).catalog.wf(),
        ensures
            final(self).catalog.wf(),
            final(self).state() == old(self).state().read(line@),
    {
        let line = trim(line);
        if line.len() == 0 {
            self.flush();
            self.in_msgstr = false;
        } else if starts_with(&line, "msgid ") {
            // A msgctxt precedes its msgid, so the flag it set belongs to the
            // entry starting here, not to the one just ended. One that was set
            // ahead of a msgstr goes with the entry that the msgstr ended.
            let carried = self.skip && !self.in_msgstr;
            self.flush();
            self.skip = carried;
            self.in_msgstr = false;
            self.id = unquote(&after(&line, "msgid "));
        } else if starts_with(&line, "msgstr ") {
            self.in_msgstr = true;
            self.msg = unquote(&after(&line, "msgstr "));
        } else if starts_with(&line, "msgstr[") {
            // A translation by count ends an entry that is to be skipped. In any
            // other it is left alone.
            self.in_msgstr = self.in_msgstr || self.skip;
        } else if starts_with(&line, "msgctxt ") {
            // Behind a msgstr it starts the next entry.
            if self.in_msgstr {
                self.flush();
                self.in_msgstr = false;
            }
            self.skip = true;
        } else if starts_with(&line, "msgid_plural ") {
            self.skip = true;
        } else if line[0] == '"' {
            let part = unquote(&line);
            if self.in_msgstr {
                extend(&mut self.msg, &part);
            } else {
                extend(&mut self.id, &part);
            }
        }
        // Anything else is left alone. Comments carry the translator notes and
        // the fuzzy flag. Both are for people; neither changes what the app
        // shows.
    }
}

/// What follows the prefix.
fn after(line: &Vec<char>, prefix: &str) -> (r: Vec<char>)
    requires
        has_prefix(line@, prefix@),
    ensures
        r@ == line@.skip(prefix@.len() as int),
{
    let n: usize = chars_of(prefix).len();
    let r = part(line, n, line.len());
    assert(r@ =~= line@.skip(prefix@.len() as int));
    r
}

/// Enough of the `.po` grammar to read a catalog: comments, `msgid`/`msgstr`,
/// and the continuation lines both use. `msgctxt` and `msgid_plural` are not
/// parsed because nothing emits them; an entry carrying either is skipped
/// rather than half-read.
pub fn parse_po(text: &str) -> (r: Catalog)
    ensures
        r.wf(),
        r@ == po_catalog(text@),
{
    let all = lines_of(&chars_of(text));
    let ghost want = lines(text@);
    let mut reader = PoReader {
        id: Vec::new(),
        msg: Vec::new(),
        in_msgstr: false,
        skip: false,
        catalog: Catalog::new(),
    };
    let mut i: usize = 0;
    assert(want.take(0) =~= Seq::<Seq<char>>::empty());
    assert(reader.state().id =~= seq![]);
    assert(reader.state().msg =~= seq![]);
    while i < all.len()
        invariant
            i <= all@.len(),
            want == texts(all@),
            reader.catalog.wf(),
            reader.state() == PoState::start().read_all(want.take(i as int)),
        decreases all@.len() - i,
    {
        assert(want.take(i + 1).drop_last() =~= want.take(i as int));
        reader.read(&all[i]);
        i = i + 1;
    }
    assert(want.take(i as int) =~= want);
    reader.flush();
    reader.catalog
}

/// Undoing the escapes of one escaped character, and then the rest.
proof fn lemma_unescape_first(c: char, rest: Seq<char>)
    ensures
        unescaped(escape(c) + rest) == seq![c] + unescaped(rest),
{
    let s = escape(c) + rest;
    if escape(c).len() == 1 {
        assert(s.skip(1) =~= rest);
    } else {
        assert(s.skip(2) =~= rest);
        assert(escape_of(escape(c)[1]) == c);
    }
}

proof fn lemma_unescape_all(s: Seq<char>, rest: Seq<char>)
    ensures
        unescaped(escaped(s) + rest) == s + unescaped(rest),
    decreases s.len(),
{
    if s.len() == 0 {
        assert(escaped(s) + rest =~= rest);
        assert(s + unescaped(rest) =~= unescaped(rest));
    } else {
        let more = escape(s.last()) + rest;
        assert(escaped(s) + rest =~= escaped(s.drop_last()) + more);
        lemma_unescape_all(s.drop_last(), more);
        lemma_unescape_first(s.last(), rest);
        assert(s.drop_last() + (seq![s.last()] + unescaped(rest)) =~= s + unescaped(rest));
    }
}

/// Reading what `quote` wrote gives back what it was given.
pub proof fn law_unquote_undoes_quote(s: Seq<char>)
    ensures
        unquoted(quoted(s)) == s,
{
    let q = quoted(s);
    lemma_trimmed_solid(q);
    assert(q.subrange(1, q.len() - 1) =~= escaped(s));
    lemma_unescape_all(s, seq![]);
    assert(escaped(s) + Seq::<char>::empty() =~= escaped(s));
    assert(s + unescaped(Seq::<char>::empty()) =~= s);
}

/// An escaped text holds no line feed.
proof fn lemma_escaped_one_line(s: Seq<char>)
    ensures
        !escaped(s).contains('\n'),
    decreases s.len(),
{
    if s.len() > 0 {
        lemma_escaped_one_line(s.drop_last());
        let e = escaped(s);
        if e.contains('\n') {
            let i = choose|i: int| 0 <= i < e.len() && e[i] == '\n';
            let head = escaped(s.drop_last());
            if i < head.len() {
                assert(head[i] == '\n');
                assert(head.contains('\n'));
            } else {
                assert(escape(s.last())[i - head.len()] == '\n');
            }
        }
    }
}

/// A line of a keyword and a quoted text.
pub open spec fn po_line(keyword: Seq<char>, value: Seq<char>) -> Seq<char> {
    keyword + quoted(value)
}

/// The `.po` text of one entry.
pub open spec fn po_entry(id: Seq<char>, msg: Seq<char>) -> Seq<char> {
    po_line("msgid "@, id).push('\n') + po_line("msgstr "@, msg).push('\n')
}

proof fn lemma_po_line(keyword: Seq<char>, value: Seq<char>)
    requires
        keyword.len() > 0,
        !white(keyword[0]),
        !keyword.contains('\n'),
    ensures
        !po_line(keyword, value).contains('\n'),
        po_line(keyword, value).last() == '"',
        trimmed(po_line(keyword, value)) == po_line(keyword, value),
        has_prefix(po_line(keyword, value), keyword),
        po_line(keyword, value).skip(keyword.len() as int) == quoted(value),
{
    let line = po_line(keyword, value);
    lemma_escaped_one_line(value);
    if line.contains('\n') {
        let i = choose|i: int| 0 <= i < line.len() && line[i] == '\n';
        if i < keyword.len() {
            assert(keyword[i] == '\n');
            assert(keyword.contains('\n'));
        } else {
            assert(line[i] == quoted(value)[i - keyword.len()]);
            assert(escaped(value)[i - keyword.len() - 1] == '\n');
            assert(escaped(value).contains('\n'));
        }
    }
    assert(line[0] == keyword[0]);
    lemma_trimmed_solid(line);
    assert(line.take(keyword.len() as int) =~= keyword);
    assert(line.skip(keyword.len() as int) =~= quoted(value));
}

/// A context behind a finished entry belongs to the entry it starts: the one
/// just ended is read as if a blank line had followed it, and what comes next
/// is skipped.
pub proof fn law_a_context_belongs_to_the_entry_it_starts(s: PoState, line: Seq<char>)
    requires
        s.in_msgstr,
        has_prefix(trimmed(line), "msgctxt "@),
    ensures
        s.read(line) == (PoState { skip: true, ..s.read(seq![]) }),
{
    reveal_strlit("msgctxt ");
    reveal_strlit("msgid ");
    reveal_strlit("msgstr ");
    reveal_strlit("msgstr[");
    let l = trimmed(line);
    assert(l.take("msgctxt "@.len() as int)[3] == 'c');
    assert(l[3] == 'c');
    assert(!has_prefix(l, "msgid "@)) by {
        if has_prefix(l, "msgid "@) {
            assert(l.take("msgid "@.len() as int)[3] == 'i');
        }
    }
    assert(!has_prefix(l, "msgstr "@)) by {
        if has_prefix(l, "msgstr "@) {
            assert(l.take("msgstr "@.len() as int)[3] == 's');
        }
    }
    assert(!has_prefix(l, "msgstr["@)) by {
        if has_prefix(l, "msgstr["@) {
            assert(l.take("msgstr["@.len() as int)[3] == 's');
        }
    }
    assert(trimmed(Seq::<char>::empty()).len() == 0);
}

/// A catalog of one entry, written with `quote`, reads back as that entry,
/// whatever characters its two strings hold.
pub proof fn law_po_entry_reads_back(id: Seq<char>, msg: Seq<char>)
    requires
        id.len() > 0,
        msg.len() > 0,
    ensures
        po_catalog(po_entry(id, msg)) == Map::<Seq<char>, Seq<char>>::empty().insert(id, msg),
{
    reveal_strlit("msgid ");
    reveal_strlit("msgstr ");
    let (k1, k2) = ("msgid "@, "msgstr "@);
    let (l1, l2) = (po_line(k1, id), po_line(k2, msg));
    lemma_po_line(k1, id);
    lemma_po_line(k2, msg);
    let empty = Seq::<char>::empty();
    lemma_first_line(l2, empty);
    assert(l2.push('\n') + empty =~= l2.push('\n'));
    assert(lines(empty) =~= Seq::<Seq<char>>::empty());
    assert(seq![l2] + lines(empty) =~= seq![l2]);
    lemma_first_line(l1, l2.push('\n'));
    assert(seq![l1] + seq![l2] =~= seq![l1, l2]);
    let all = seq![l1, l2];
    assert(lines(po_entry(id, msg)) == all);
    assert(all.drop_last() =~= seq![l1]);
    assert(seq![l1].drop_last() =~= Seq::<Seq<char>>::empty());
    let s0 = PoState::start();
    assert(s0.read_all(Seq::<Seq<char>>::empty()) == s0);
    assert(s0.read_all(seq![l1]) == s0.read(l1));
    assert(s0.read_all(all) == s0.read(l1).read(l2));
    law_unquote_undoes_quote(id);
    law_unquote_undoes_quote(msg);
    let s1 = s0.read(l1);
    assert(s1.id == id);
    assert(!has_prefix(l2, k1)) by {
        assert(l2.take(k1.len() as int)[3] == 's');
        assert(k1[3] == 'i');
    }
    let s2 = s1.read(l2);
    assert(s2.msg == msg && s2.id == id && !s2.skip);
}

} // verus!
