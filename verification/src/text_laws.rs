//! What is written and read again: numbers, lists, names and settings.

use vstd::prelude::*;

use crate::color::{hex_text, parsed_hex};
use crate::desktop::{quoted_path, rewritten_line};
use crate::dialogs::others;
use crate::i18n::{
    candidate_names, filled, locale_from, names_locale, normalized_locale, placeholder, quoted, translated, PoState,
};
use crate::import::{filter_text, route_of, Route};
use crate::msg::ScopeChoice;
use crate::settings::{budget, user_dir, SettingsView};
use crate::text::{
    all_digits, decimal, has_prefix, index_from, key_value, lemma_index_from, lowered, number,
    parsed_number, replaced, split, trimmed, trimmed_end, trimmed_start, white,
};
use crate::wording::{
    clock_text, counted_text, listed_numbers, scope_summary, timecode_text, two_digits,
};

verus! {

/// A number that is written reads back.
pub proof fn law_a_number_reads_back(n: nat, most: nat)
    requires
        n <= most,
    ensures
        parsed_number(decimal(n), most) == Some(n),
        number(decimal(n)) == n,
        all_digits(decimal(n)),
        decimal(n).len() > 0,
        decimal(n).last() as u32 == '0' as u32 + n % 10,
        n >= 10 ==> decimal(n).drop_last() == decimal(n / 10),
        n >= 10 ==> decimal(n)[0] != '0',
    decreases n,
{
    if n >= 10 {
        law_a_number_reads_back(n / 10, most);
        assert(decimal(n).drop_last() =~= decimal(n / 10));
        assert(decimal(n)[0] == decimal(n / 10)[0]);
        if n / 10 < 10 {
            assert(decimal(n / 10)[0] as u32 == '0' as u32 + n / 10);
        }
    } else {
        assert(decimal(n).drop_last() =~= seq![]);
        assert(number(decimal(n).drop_last()) == 0);
    }
}

proof fn lemma_start_cut(s: Seq<char>) -> (a: Seq<char>)
    ensures
        s == a + trimmed_start(s),
        forall|i: int| 0 <= i < a.len() ==> white(#[trigger] a[i]),
    decreases s.len(),
{
    if s.len() > 0 && white(s[0]) {
        let rest = lemma_start_cut(s.skip(1));
        let a = seq![s[0]] + rest;
        assert(s =~= a + trimmed_start(s)) by {
            assert(s =~= seq![s[0]] + s.skip(1));
        }
        a
    } else {
        assert(s =~= seq![] + s);
        seq![]
    }
}

proof fn lemma_end_cut(s: Seq<char>) -> (b: Seq<char>)
    ensures
        s == trimmed_end(s) + b,
        forall|i: int| 0 <= i < b.len() ==> white(#[trigger] b[i]),
    decreases s.len(),
{
    if s.len() > 0 && white(s.last()) {
        let rest = lemma_end_cut(s.drop_last());
        let b = rest.push(s.last());
        assert(s =~= trimmed_end(s) + b) by {
            assert(s =~= s.drop_last().push(s.last()));
        }
        b
    } else {
        assert(s =~= s + seq![]);
        seq![]
    }
}

/// Trimming takes white space off both ends and nothing else.
pub proof fn law_trimming_takes_the_margins(s: Seq<char>)
    ensures
        exists|a: Seq<char>, b: Seq<char>|
            #![trigger a + trimmed(s) + b]
            s == a + trimmed(s) + b && (forall|i: int| 0 <= i < a.len() ==> white(#[trigger] a[i]))
                && (forall|i: int| 0 <= i < b.len() ==> white(#[trigger] b[i])),
        trimmed(s).len() > 0 ==> !white(trimmed(s)[0]) && !white(trimmed(s).last()),
{
    let a = lemma_start_cut(s);
    let b = lemma_end_cut(trimmed_start(s));
    assert(s =~= a + trimmed(s) + b);
    crate::text::lemma_trimmed_ends(s);
}

/// The parts with the separator between them.
pub open spec fn strung(parts: Seq<Seq<char>>, c: char) -> Seq<char>
    decreases parts.len(),
{
    if parts.len() == 0 {
        seq![]
    } else if parts.len() == 1 {
        parts[0]
    } else {
        parts[0].push(c) + strung(parts.skip(1), c)
    }
}

/// The parts of a text hold no separator, and with the separator between them
/// they are the text.
pub proof fn law_the_parts_make_the_text(s: Seq<char>, c: char, i: int)
    ensures
        strung(split(s, c), c) == s,
        split(s, c).len() > 0,
        0 <= i < split(s, c).len() ==> !split(s, c)[i].contains(c),
    decreases s.len(),
{
    if 0 <= i < split(s, c).len() {
        crate::text::lemma_part_holds(s, c, i);
    }
    let at = index_from(s, c, 0);
    lemma_index_from(s, c, 0);
    if at < s.len() {
        let rest = s.skip(at + 1);
        law_the_parts_make_the_text(rest, c, 0);
        let parts = split(s, c);
        assert(parts.skip(1) =~= split(rest, c));
        assert(s =~= s.take(at).push(c) + rest);
    }
}

proof fn lemma_nothing_to_fill(s: Seq<char>, from: Seq<char>, with: Seq<char>)
    requires
        from.len() > 0,
        !s.contains(from[0]),
    ensures
        replaced(s, from, with) == s,
    decreases s.len(),
{
    if s.len() >= from.len() {
        assert(s.contains(s[0]));
        if has_prefix(s, from) {
            assert(s.take(from.len() as int)[0] == s[0]);
        }
        let rest = s.skip(1);
        assert forall|c: char| rest.contains(c) implies s.contains(c) by {
            let i = choose|i: int| 0 <= i < rest.len() && rest[i] == c;
            assert(s[i + 1] == c);
        }
        lemma_nothing_to_fill(rest, from, with);
        assert(seq![s[0]] + rest =~= s);
    }
}

proof fn lemma_filled_behind(pre: Seq<char>, s: Seq<char>, from: Seq<char>, with: Seq<char>)
    requires
        from.len() > 0,
        !pre.contains(from[0]),
        s.len() >= from.len(),
    ensures
        replaced(pre + s, from, with) == pre + replaced(s, from, with),
    decreases pre.len(),
{
    if pre.len() > 0 {
        let all = pre + s;
        assert(pre.contains(pre[0]));
        if has_prefix(all, from) {
            assert(all.take(from.len() as int)[0] == pre[0]);
        }
        let rest = pre.skip(1);
        assert forall|c: char| rest.contains(c) implies pre.contains(c) by {
            let i = choose|i: int| 0 <= i < rest.len() && rest[i] == c;
            assert(pre[i + 1] == c);
        }
        lemma_filled_behind(rest, s, from, with);
        assert(all.skip(1) =~= rest + s);
        assert(seq![pre[0]] + (rest + replaced(s, from, with)) =~= pre + replaced(s, from, with));
    } else {
        assert(pre + s =~= s);
        assert(pre + replaced(s, from, with) =~= replaced(s, from, with));
    }
}

/// A place in a text is filled with its value, and the text around it stays.
pub proof fn law_a_place_is_filled(
    pre: Seq<char>,
    name: Seq<char>,
    post: Seq<char>,
    value: Seq<char>,
)
    requires
        !pre.contains('{'),
        !post.contains('{'),
    ensures
        filled(pre + (seq!['{'] + name + seq!['}']) + post, seq![(name, value)]) == pre + value
            + post,
        filled(pre, seq![(name, value)]) == pre,
{
    let from = placeholder(name);
    let values = seq![(name, value)];
    let s = from + post;
    assert(values.drop_last() =~= Seq::<(Seq<char>, Seq<char>)>::empty());
    assert(from[0] == '{');
    lemma_filled_behind(pre, s, from, value);
    assert(s.take(from.len() as int) =~= from);
    assert(s.skip(from.len() as int) =~= post);
    lemma_nothing_to_fill(post, from, value);
    lemma_nothing_to_fill(pre, from, value);
    assert(pre + from + post =~= pre + s);
    assert(pre + (value + post) =~= pre + value + post);
    let whole = pre + (seq!['{'] + name + seq!['}']) + post;
    assert(filled(whole, values.drop_last()) == whole);
    assert(filled(pre, values.drop_last()) == pre);
}

/// A message that the catalog does not hold is shown as it stands.
pub proof fn law_an_unknown_message_is_shown_as_it_is(
    catalog: Map<Seq<char>, Seq<char>>,
    id: Seq<char>,
    msg: Seq<char>,
)
    ensures
        !catalog.contains_key(id) ==> translated(catalog, id) == id,
        translated(catalog.insert(id, msg), id) == msg,
{
}

/// A locale's name is left without its encoding and its variant, and with
/// underlines for dashes.
pub proof fn law_a_locale_is_plain(value: Seq<char>, i: int)
    requires
        0 <= i < normalized_locale(value).len(),
    ensures
        normalized_locale(value)[i] != '.',
        normalized_locale(value)[i] != '@',
        normalized_locale(value)[i] != '-',
        value[i] != '-' ==> normalized_locale(value)[i] == value[i],
        value[i] == '-' ==> normalized_locale(value)[i] == '_',
{
    lemma_index_from(value, '.', 0);
    lemma_index_from(value, '@', 0);
    assert(value[i] != '.');
    assert(value[i] != '@');
}

/// A catalog is looked for under the locale's whole name first and under its
/// language next.
pub proof fn law_the_whole_locale_is_tried_first(language: Seq<char>, country: Seq<char>)
    requires
        !language.contains('_'),
    ensures
        candidate_names(language.push('_') + country) == seq![
            language.push('_') + country,
            language,
        ],
        candidate_names(language) == seq![language],
{
    let whole = language.push('_') + country;
    assert forall|i: int| 0 <= i < language.len() implies #[trigger] whole[i] != '_' by {
        assert(whole[i] == language[i]);
        assert(language.contains(language[i]));
    }
    crate::text::lemma_index_is(whole, '_', 0, language.len() as int);
    assert(whole.take(language.len() as int) =~= language);
    assert forall|i: int| 0 <= i < language.len() implies #[trigger] language[i] != '_' by {
        assert(language.contains(language[i]));
    }
    crate::text::lemma_index_is(language, '_', 0, language.len() as int);
}

/// The language that was asked for is taken whatever the environment says.
pub proof fn law_the_asked_language_is_taken(language: Seq<char>, variables: Seq<Seq<char>>)
    ensures
        locale_from(Some(language), variables) == Some(language),
        variables.len() == 0 ==> locale_from(None, variables) is None,
{
}

/// A setting sets itself and leaves the others; a budget is read in megabytes.
pub proof fn law_a_setting_sets_itself_alone(
    s: SettingsView,
    line: Seq<char>,
    key: Seq<char>,
    value: Seq<char>,
    mb: nat,
)
    requires
        key_value(line) == Some((key, value)),
        parsed_number(trimmed(value), usize::MAX as nat) == Some(mb),
        0 < mb,
        mb * 1048576 <= u64::MAX,
        key == "max_import_memory_mb"@ || key == "max_oper_memory_mb"@ || key
            == "max_total_memory_mb"@,
    ensures
        ({
            let after = s.applied_line(line);
            &&& key == "max_import_memory_mb"@ ==> after.max_import_bytes == mb * 1048576
                && after.max_oper_bytes == s.max_oper_bytes && after.max_total_bytes
                == s.max_total_bytes
            &&& key == "max_oper_memory_mb"@ ==> after.max_oper_bytes == mb * 1048576
                && after.max_import_bytes == s.max_import_bytes && after.max_total_bytes
                == s.max_total_bytes
            &&& key == "max_total_memory_mb"@ ==> after.max_total_bytes == mb * 1048576
                && after.max_import_bytes == s.max_import_bytes && after.max_oper_bytes
                == s.max_oper_bytes
            &&& after.language == s.language
        }),
{
    reveal_strlit("max_import_memory_mb");
    reveal_strlit("max_oper_memory_mb");
    reveal_strlit("max_total_memory_mb");
    assert("max_import_memory_mb"@[4] != "max_oper_memory_mb"@[4]);
    assert("max_import_memory_mb"@[4] != "max_total_memory_mb"@[4]);
    assert("max_oper_memory_mb"@[4] != "max_total_memory_mb"@[4]);
    assert(budget(value) == Some((mb * 1048576) as u64)) by {
        let bytes = mb as int * crate::settings::MEGABYTE;
        assert(bytes % 0x1_0000_0000_0000_0000 == bytes) by (nonlinear_arith)
            requires
                0 <= bytes < 0x1_0000_0000_0000_0000,
        ;
    }
}

/// A directory that is named counts where it is an absolute one. Otherwise it is
/// the usual one in the home.
pub proof fn law_a_relative_directory_is_passed_over(
    dir: Seq<char>,
    home: Option<Seq<char>>,
    usual: Seq<char>,
)
    ensures
        dir.len() > 0 && dir[0] == '/' ==> user_dir(Some(dir), home, usual) == Some(dir),
        !(dir.len() > 0 && dir[0] == '/') ==> user_dir(Some(dir), home, usual) == user_dir(
            None,
            home,
            usual,
        ),
        home is None ==> user_dir(None, home, usual) is None,
        home matches Some(base) ==> (base.len() > 0 && base.last() != '/' ==> user_dir(
            None,
            home,
            usual,
        ) == Some(base + seq!['/'] + usual)),
{
    if let Some(base) = home {
        assert(base.push('/') + usual =~= base + seq!['/'] + usual);
    }
}

/// Where a file goes depends on its extension, however it is spelled.
pub proof fn law_the_extension_is_read_in_any_case(e: Seq<char>)
    ensures
        route_of(Some(e)) == route_of(Some(lowered(e))),
        route_of(None) == Route::Video,
{
    assert(lowered(lowered(e)) =~= lowered(e));
}

/// A time is shown as minutes, seconds and tenths that make it up, but for the
/// hundredths.
pub proof fn law_a_time_is_shown_in_parts(cs: nat, minutes: nat, seconds: nat, tenths: nat, rest: nat)
    requires
        seconds < 60,
        tenths < 10,
        rest < 10,
        cs == 6000 * minutes + 100 * seconds + 10 * tenths + rest,
    ensures
        timecode_text(cs) == two_digits(minutes) + seq![':'] + two_digits(seconds) + seq!['.']
            + decimal(tenths),
        clock_text(60 * minutes + seconds) == decimal(minutes) + seq![':'] + two_digits(seconds),
        two_digits(seconds).len() == 2,
        number(two_digits(seconds)) == seconds,
{
    assert(cs / 6000 == minutes);
    assert(cs / 100 == 60 * minutes + seconds);
    assert((cs / 100) % 60 == seconds);
    assert(cs % 100 == 10 * tenths + rest);
    law_a_number_reads_back(seconds, seconds);
    if seconds < 10 {
        let s = two_digits(seconds);
        assert(s.drop_last() =~= seq!['0']);
        assert(seq!['0'].drop_last() =~= seq![]);
        assert(number(seq!['0'].drop_last()) == 0);
        assert(number(seq!['0']) == 0);
    } else {
        law_a_number_reads_back(seconds / 10, seconds);
        assert(decimal(seconds).len() == decimal(seconds / 10).len() + 1);
        assert(decimal(seconds / 10).len() == 1);
    }
}

/// Each byte of a color is written as two digits with the higher one first: red,
/// green, blue, and the transparency where there is any.
pub proof fn law_a_color_is_written_red_first(c: Seq<u8>, i: int)
    requires
        c.len() == 4,
        0 <= i < 4,
        i == 3 ==> c[3] < 255,
    ensures
        ({
            let text = hex_text(c);
            let (high, low) = (text[1 + 2 * i] as u32, text[2 + 2 * i] as u32);
            &&& text[0] == '#'
            &&& text.len() == if c[3] == 255 {
                7int
            } else {
                9
            }
            &&& high == if c[i] < 160 {
                48 + c[i] / 16
            } else {
                55 + c[i] / 16
            }
            &&& low == if c[i] % 16 < 10 {
                48 + c[i] % 16
            } else {
                55 + c[i] % 16
            }
        }),
{
}

/// A color without its sign reads the same as with it.
pub proof fn law_a_color_reads_without_its_sign(c: Seq<u8>)
    requires
        c.len() == 4,
    ensures
        parsed_hex(hex_text(c).skip(1)) == Some(c),
{
    crate::color::law_hex_round_trip(c);
    let text = hex_text(c);
    let rest = text.skip(1);
    assert(!white(text[0]));
    assert(!white(text.last()));
    assert(!white(rest[0]));
    assert(rest.last() == text.last());
    crate::text::lemma_trimmed_solid(text);
    crate::text::lemma_trimmed_solid(rest);
}

/// A catalog is looked for in the directory that was named first, and in the
/// system's last.
pub proof fn law_the_named_directory_comes_first(
    named: &str,
    above: Seq<Seq<char>>,
    data: Option<&str>,
    home: Option<&str>,
)
    ensures
        ({
            let dirs = crate::places::po_dirs(Some(named), above, data, home);
            &&& dirs[0] == named@
            &&& dirs.last() == "/app/share/gifkino/po"@
            &&& dirs[dirs.len() - 2] == "/usr/share/gifkino/po"@
            &&& crate::places::po_dirs(None, above, data, home) == dirs.skip(1)
        }),
{
    let dirs = crate::places::po_dirs(Some(named), above, data, home);
    assert(crate::places::po_dirs(None, above, data, home) =~= dirs.skip(1));
}

/// In each directory every name is tried before the next directory is.
pub proof fn law_every_name_is_tried_in_each_directory(
    dirs: Seq<Seq<char>>,
    names: Seq<Seq<char>>,
    d: int,
    k: int,
)
    requires
        0 <= d < dirs.len(),
        0 <= k < names.len(),
    ensures
        ({
            let files = crate::places::po_files(dirs, names);
            &&& files.len() == dirs.len() * names.len()
            &&& 0 <= d * names.len() + k < files.len()
            &&& files[d * names.len() + k] == crate::desktop::path_join(dirs[d], names[k] + ".po"@)
        }),
    decreases dirs.len(),
{
    let n = names.len();
    let head = dirs.drop_last();
    lemma_po_len(head, names);
    lemma_po_len(dirs, names);
    assert(0 <= d * n + k < dirs.len() * n) by (nonlinear_arith)
        requires
            0 <= d < dirs.len(),
            0 <= k < n,
    ;
    if d < head.len() {
        law_every_name_is_tried_in_each_directory(head, names, d, k);
    } else {
        assert(d * n == head.len() * n) by (nonlinear_arith)
            requires
                d == head.len(),
        ;
    }
}

proof fn lemma_po_len(dirs: Seq<Seq<char>>, names: Seq<Seq<char>>)
    ensures
        crate::places::po_files(dirs, names).len() == dirs.len() * names.len(),
    decreases dirs.len(),
{
    let n = names.len();
    if dirs.len() > 0 {
        lemma_po_len(dirs.drop_last(), names);
        assert((dirs.len() - 1) * n + n == dirs.len() * n) by (nonlinear_arith);
    } else {
        assert(0 * n == 0) by (nonlinear_arith);
    }
}

/// A text on a line of its own adds to the message or to what it stands for,
/// whichever was begun last.
pub proof fn law_a_continued_text_is_put_together(s: PoState, text: Seq<char>)
    ensures
        ({
            let after = s.read(quoted(text));
            &&& s.in_msgstr ==> after == (PoState { msg: s.msg + text, ..s })
            &&& !s.in_msgstr ==> after == (PoState { id: s.id + text, ..s })
        }),
{
    let line = quoted(text);
    crate::i18n::law_unquote_undoes_quote(text);
    assert(line[0] == '"');
    assert(line.last() == '"');
    crate::text::lemma_trimmed_solid(line);
    reveal_strlit("msgid ");
    reveal_strlit("msgstr ");
    reveal_strlit("msgstr[");
    reveal_strlit("msgctxt ");
    reveal_strlit("msgid_plural ");
    lemma_other_start(line, "msgid "@);
    lemma_other_start(line, "msgstr "@);
    lemma_other_start(line, "msgstr["@);
    lemma_other_start(line, "msgctxt "@);
    lemma_other_start(line, "msgid_plural "@);
}

proof fn lemma_other_start(line: Seq<char>, prefix: Seq<char>)
    requires
        line.len() > 0,
        prefix.len() > 0,
        line[0] != prefix[0],
    ensures
        !has_prefix(line, prefix),
{
    if has_prefix(line, prefix) {
        assert(line.take(prefix.len() as int)[0] == line[0]);
    }
}

/// An empty line ends an entry. What was read is known from then on, unless it
/// was one to pass over or lacked one of its halves.
pub proof fn law_an_empty_line_ends_the_entry(s: PoState)
    ensures
        ({
            let after = s.read(seq![]);
            &&& !s.skip && s.id.len() > 0 && s.msg.len() > 0 ==> after.catalog
                == s.catalog.insert(s.id, s.msg)
            &&& s.skip || s.id.len() == 0 || s.msg.len() == 0 ==> after.catalog == s.catalog
            &&& after.id.len() == 0 && after.msg.len() == 0 && !after.in_msgstr && !after.skip
        }),
{
    crate::text::lemma_trimmed_solid(seq![]);
}

/// One is counted in the singular, any other number in the plural.
pub proof fn law_one_is_counted_in_the_singular(
    catalog: Map<Seq<char>, Seq<char>>,
    one: Seq<char>,
    many: Seq<char>,
    n: nat,
)
    ensures
        n == 1 ==> counted_text(catalog, one, many, n) == filled(
            translated(catalog, one),
            seq![("count"@, decimal(1))],
        ),
        n != 1 ==> counted_text(catalog, one, many, n) == filled(
            translated(catalog, many),
            seq![("count"@, decimal(n))],
        ),
{
}

/// Frames are told to the user counted from one, with commas between them.
pub proof fn law_frames_are_counted_from_one(a: usize, b: usize, more: Seq<usize>)
    ensures
        listed_numbers(seq![a]) == decimal((a + 1) as nat),
        more.len() > 0 ==> listed_numbers(more.push(b)) == listed_numbers(more) + ", "@ + decimal(
            (b + 1) as nat,
        ),
{
    if more.len() > 0 {
        assert(more.push(b).drop_last() =~= more);
    }
}

/// A run of frames is told by its first and its last, counted from one.
pub proof fn law_a_run_is_told_by_its_ends(
    catalog: Map<Seq<char>, Seq<char>>,
    first: int,
    last: int,
)
    requires
        0 <= first < last < usize::MAX,
    ensures
        scope_summary(
            catalog,
            ScopeChoice::Range,
            Seq::new((last - first + 1) as nat, |k: int| (first + k) as usize),
        ) == filled(
            translated(catalog, "Frames {first}–{last} selected"@),
            seq![
                ("first"@, decimal((first + 1) as nat)),
                ("last"@, decimal((last + 1) as nat)),
            ],
        ),
{
}

/// The sizes that are offered beside the recommended one are all the others, in
/// their order.
pub proof fn law_every_other_size_is_offered(
    sizes: Seq<(u32, u32)>,
    taken: (u32, u32),
    size: (u32, u32),
)
    ensures
        size != taken ==> (others(sizes, taken).contains(size) <==> sizes.contains(size)),
        others(sizes.push(size), taken) == if size == taken {
            others(sizes, taken)
        } else {
            others(sizes, taken).push(size)
        },
    decreases sizes.len(),
{
    assert(sizes.push(size).drop_last() =~= sizes);
    if sizes.len() > 0 {
        let head = sizes.drop_last();
        law_every_other_size_is_offered(head, taken, size);
        let (all, before) = (others(sizes, taken), others(head, taken));
        if size != taken {
            if sizes.contains(size) {
                let i = choose|i: int| 0 <= i < sizes.len() && sizes[i] == size;
                if i < head.len() {
                    assert(head[i] == size);
                    let k = choose|k: int| 0 <= k < before.len() && before[k] == size;
                    assert(all[k] == size);
                } else {
                    assert(all[all.len() - 1] == size);
                }
            }
            if all.contains(size) {
                let k = choose|k: int| 0 <= k < all.len() && all[k] == size;
                if k < before.len() {
                    assert(before[k] == size);
                    let i = choose|i: int| 0 <= i < head.len() && head[i] == size;
                    assert(sizes[i] == size);
                } else {
                    assert(sizes[sizes.len() - 1] == size);
                }
            }
        }
    }
}

/// In a menu entry the command lines are pointed at the program and every other
/// line stays.
pub proof fn law_only_the_commands_are_rewritten(line: Seq<char>, appimage: Seq<char>)
    ensures
        !has_prefix(line, "Exec="@) && !has_prefix(line, "TryExec="@) ==> rewritten_line(
            line,
            appimage,
        ) == line,
        has_prefix(line, "Exec="@) ==> rewritten_line(line, appimage) == "Exec="@ + quoted_path(
            appimage,
        ) + " %f"@,
        has_prefix(line, "TryExec="@) && !has_prefix(line, "Exec="@) ==> rewritten_line(
            line,
            appimage,
        ) == "TryExec="@ + appimage,
{
}

/// Without a language that was asked for, the first variable that names one
/// counts, up to its first colon.
pub proof fn law_the_first_named_locale_counts(variables: Seq<Seq<char>>, k: int)
    requires
        0 <= k < variables.len(),
        names_locale(variables[k]),
        forall|i: int| 0 <= i < k ==> !names_locale(#[trigger] variables[i]),
    ensures
        locale_from(None, variables) == locale_from(None, seq![variables[k]]),
        locale_from(None, variables) is Some,
        !trimmed(variables[k]).contains(':') ==> locale_from(None, variables) == Some(
            normalized_locale(trimmed(variables[k])),
        ),
{
    lemma_first_named(variables, k, 0);
    lemma_first_named(seq![variables[k]], 0, 0);
    let value = trimmed(variables[k]);
    if !value.contains(':') {
        assert forall|i: int| 0 <= i < value.len() implies #[trigger] value[i] != ':' by {
            assert(value.contains(value[i]));
        }
        crate::text::lemma_index_is(value, ':', 0, value.len() as int);
        assert(value.take(value.len() as int) =~= value);
    }
}

proof fn lemma_first_named(variables: Seq<Seq<char>>, k: int, from: int)
    requires
        0 <= from <= k < variables.len(),
        names_locale(variables[k]),
        forall|i: int| from <= i < k ==> !names_locale(#[trigger] variables[i]),
    ensures
        crate::i18n::first_named(variables, from) == k,
    decreases k - from,
{
    if from < k {
        assert(!names_locale(variables[from]));
        lemma_first_named(variables, k, from + 1);
    }
}

/// A video is scaled where its size changes and slowed where a rate was asked
/// for, and passed through where neither is.
pub proof fn law_a_video_is_filtered_as_asked(
    source: (u32, u32),
    size: (u32, u32),
    rate: Option<Seq<char>>,
)
    ensures
        size == source && rate is None ==> filter_text(source, size, rate) is None,
        size == source ==> (rate matches Some(r) ==> filter_text(source, size, rate) == Some(
            "fps="@ + r,
        )),
        size != source && rate is None ==> filter_text(source, size, rate) == Some(
            "scale="@ + decimal(size.0 as nat) + ":"@ + decimal(size.1 as nat),
        ),
        size != source ==> (rate matches Some(r) ==> filter_text(source, size, rate) == Some(
            "scale="@ + decimal(size.0 as nat) + ":"@ + decimal(size.1 as nat) + ",fps="@ + r,
        )),
{
}

} // verus!
