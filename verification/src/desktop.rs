//! Host desktop integration, for AppImage runs only.
//!
//! A taskbar picks the icon for a window by matching the window's app_id to an
//! installed desktop entry and reading that entry's `Icon=` key. Running an
//! AppImage installs nothing, so without an entry of its own an AppImage
//! window gets a generic placeholder.

use vstd::prelude::*;

use crate::settings::{optional_text, user_dir, user_directory};
use crate::text::{
    chars_of, extend, find_from, has_prefix, index_from, lemma_first_line, lemma_index_from,
    lemma_index_is, lines, lines_of, part, starts_with, starts_with_at, text_of, texts,
};

verus! {

/// The application's id.
pub open spec fn app_id() -> Seq<char> {
    "io.github.zbcoding.Gifkino"@
}

/// The application's id.
pub fn app_id_text() -> (r: &'static str)
    ensures
        r@ == app_id(),
{
    "io.github.zbcoding.Gifkino"
}

/// A path with one more name at its end.
pub open spec fn path_join(base: Seq<char>, name: Seq<char>) -> Seq<char> {
    if base.len() == 0 || base.last() == '/' {
        base + name
    } else {
        base.push('/') + name
    }
}

/// A path with one more name at its end. The name is a relative one.
pub fn join_path(base: &Vec<char>, name: &str) -> (r: Vec<char>)
    ensures
        r@ == path_join(base@, name@),
{
    let mut r: Vec<char> = Vec::new();
    extend(&mut r, base);
    assert(r@ =~= base@);
    if base.len() > 0 && base[base.len() - 1] != '/' {
        r.push('/');
    }
    extend(&mut r, &chars_of(name));
    r
}

/// The name of the desktop entry.
pub open spec fn entry_name() -> Seq<char> {
    app_id() + ".desktop"@
}

fn entry_name_chars() -> (r: Vec<char>)
    ensures
        r@ == entry_name(),
{
    let mut name = chars_of(app_id_text());
    extend(&mut name, &chars_of(".desktop"));
    name
}

/// Where the desktop entry goes under the user's data directory.
pub fn entry_path(data_home: &str) -> (r: String)
    ensures
        r@ == path_join(path_join(data_home@, "applications"@), entry_name()),
{
    let dir = join_path(&chars_of(data_home), "applications");
    let path = join_path(&dir, text_of(&entry_name_chars()).as_str());
    text_of(&path)
}

/// Whether `s` ends in `part`.
pub open spec fn has_suffix(s: Seq<char>, part: Seq<char>) -> bool {
    s.len() >= part.len() && s.skip(s.len() - part.len()) == part
}

/// Whether a file of this name among the host's entries is one an AppImage
/// integrator wrote for this application. Both AppImageLauncher and appimaged
/// name what they write `appimagekit_<md5 of the path>-<entry name>`, and the
/// md5 is why the name cannot simply be matched in full: it changes with the
/// AppImage's location.
pub fn integrator_owns_it(name: &str) -> (r: bool)
    ensures
        r == (has_prefix(name@, "appimagekit_"@) && has_suffix(
            name@,
            seq!['-'] + entry_name(),
        )),
{
    let v = chars_of(name);
    let mut tail: Vec<char> = Vec::new();
    tail.push('-');
    extend(&mut tail, &entry_name_chars());
    assert(tail@ =~= seq!['-'] + entry_name());
    if v.len() < tail.len() {
        return false;
    }
    let at: usize = v.len() - tail.len();
    assert(v@.skip(at as int).take(tail@.len() as int) =~= v@.skip(at as int));
    starts_with(&v, "appimagekit_") && starts_with_at(&v, at, &tail)
}

/// Whether an icon file belongs to this application: it is named by the
/// application's id and an extension.
pub fn icon_is_ours(name: &str) -> (r: bool)
    ensures
        r == ({
            let stem = app_id().push('.');
            &&& has_prefix(name@, stem)
            &&& name@.len() > stem.len()
            &&& !name@.skip(stem.len() as int).contains('.')
        }),
{
    let v = chars_of(name);
    let mut stem = chars_of(app_id_text());
    stem.push('.');
    if !starts_with_at(&v, 0, &stem) {
        assert(v@.skip(0) =~= v@);
        return false;
    }
    assert(v@.skip(0) =~= v@);
    let ghost rest = v@.skip(stem@.len() as int);
    let dot = find_from(&v, '.', stem.len());
    proof {
        lemma_index_from(v@, '.', stem@.len() as int);
        if dot < v@.len() {
            assert(rest[dot - stem@.len()] == '.');
        } else {
            assert forall|i: int| 0 <= i < rest.len() implies rest[i] != '.' by {
                assert(rest[i] == v@[i + stem@.len()]);
            }
        }
    }
    v.len() > stem.len() && dot == v.len()
}

/// Whether `word` stands at `i` in a command and ends there, before a space or
/// with the command.
pub open spec fn word_at(command: Seq<char>, i: int, word: Seq<char>) -> bool {
    has_prefix(command.skip(i), word) && (i + word.len() == command.len() || command[i + word.len()]
        == ' ')
}

/// Whether the path is an argument of the command, the first or one behind a
/// space, quoted or not.
pub open spec fn argument_at(command: Seq<char>, i: int, path: Seq<char>) -> bool {
    (i == 0 || command[i - 1] == ' ') && (word_at(command, i, quoted_path(path)) || word_at(
        command,
        i,
        path,
    ))
}

/// Whether a line of an entry has the launcher run a command with the AppImage
/// at this path in it, by itself or behind what sets it up.
pub open spec fn runs(line: Seq<char>, appimage: Seq<char>) -> bool {
    has_prefix(line, "Exec="@) && exists|i: int|
        0 <= i <= line.skip(5).len() && #[trigger] argument_at(line.skip(5), i, appimage)
}

/// Whether an entry points at the AppImage at this path.
pub open spec fn points_at(entry: Seq<char>, appimage: Seq<char>) -> bool {
    exists|i: int| 0 <= i < lines(entry).len() && runs(#[trigger] lines(entry)[i], appimage)
}

fn is_word_at(line: &Vec<char>, at: usize, word: &Vec<char>) -> (r: bool)
    requires
        at <= line@.len(),
    ensures
        r == word_at(line@, at as int, word@),
{
    if !starts_with_at(line, at, word) {
        return false;
    }
    assert(line.len() >= at + word@.len());
    let end: usize = at + word.len();
    end == line.len() || line[end] == ' '
}

fn line_runs(line: &Vec<char>, appimage: &Vec<char>, quoted: &Vec<char>) -> (r: bool)
    requires
        quoted@ == quoted_path(appimage@),
    ensures
        r == runs(line@, appimage@),
{
    if !starts_with(line, "Exec=") {
        return false;
    }
    proof {
        reveal_strlit("Exec=");
    }
    let command = part(line, 5, line.len());
    assert(command@ =~= line@.skip(5));
    let mut i: usize = 0;
    while i <= command.len()
        invariant
            i <= command@.len() + 1,
            command@ == line@.skip(5),
            command@.len() < usize::MAX,
            has_prefix(line@, "Exec="@),
            quoted@ == quoted_path(appimage@),
            forall|k: int| 0 <= k < i ==> !#[trigger] argument_at(line@.skip(5), k, appimage@),
        decreases command@.len() + 1 - i,
    {
        if (i == 0 || command[i - 1] == ' ') && (is_word_at(&command, i, quoted) || is_word_at(
            &command,
            i,
            appimage,
        )) {
            assert(argument_at(line@.skip(5), i as int, appimage@));
            return true;
        }
        i = i + 1;
    }
    false
}

fn entry_points_at(entry: &str, appimage: &str) -> (r: bool)
    ensures
        r == points_at(entry@, appimage@),
{
    let all = lines_of(&chars_of(entry));
    let (image, quoted) = (chars_of(appimage), chars_of(quote(appimage).as_str()));
    let mut i: usize = 0;
    while i < all.len()
        invariant
            i <= all@.len(),
            texts(all@) == lines(entry@),
            image@ == appimage@,
            quoted@ == quoted_path(appimage@),
            forall|k: int| 0 <= k < i ==> !runs(#[trigger] lines(entry@)[k], appimage@),
        decreases all@.len() - i,
    {
        assert(lines(entry@)[i as int] == all@[i as int]@);
        if line_runs(&all[i], &image, &quoted) {
            return true;
        }
        i = i + 1;
    }
    false
}

/// Whether to install the entry on an AppImage run: unless the user said not
/// to, an integrator did it, or the entry that is there already points at this
/// AppImage. A missing entry and one that points elsewhere are both replaced.
pub fn should_install(opted_out: bool, integrated: bool, existing: Option<&str>, appimage: &str) -> (r:
    bool)
    ensures
        r == (!opted_out && !integrated && match existing {
            Some(entry) => !points_at(entry@, appimage@),
            None => true,
        }),
{
    if opted_out || integrated {
        return false;
    }
    match existing {
        Some(entry) => !entry_points_at(entry, appimage),
        None => true,
    }
}

/// Whether the character means something to a launcher inside quotes.
pub open spec fn reserved(c: char) -> bool {
    c == '"' || c == '`' || c == '$' || c == '\\'
}

/// The text with the reserved characters escaped.
pub open spec fn shielded(s: Seq<char>) -> Seq<char>
    decreases s.len(),
{
    if s.len() == 0 {
        seq![]
    } else if reserved(s.last()) {
        shielded(s.drop_last()).push('\\').push(s.last())
    } else {
        shielded(s.drop_last()).push(s.last())
    }
}

/// The path as one argument of a command line.
pub open spec fn quoted_path(path: Seq<char>) -> Seq<char> {
    (seq!['"'] + shielded(path)).push('"')
}

/// Desktop-entry quoting: the reserved characters keep their literal meaning
/// only when escaped inside the quotes.
pub fn quote(path: &str) -> (r: String)
    ensures
        r@ == quoted_path(path@),
{
    let v = chars_of(path);
    let mut out = String::new();
    out.push('"');
    let mut i: usize = 0;
    assert(v@.take(0) =~= Seq::<char>::empty());
    assert(out@ =~= seq!['"'] + shielded(v@.take(0)));
    while i < v.len()
        invariant
            i <= v@.len(),
            out@ == seq!['"'] + shielded(v@.take(i as int)),
        decreases v@.len() - i,
    {
        assert(v@.take(i + 1).drop_last() =~= v@.take(i as int));
        let c = v[i];
        if c == '"' || c == '`' || c == '$' || c == '\\' {
            out.push('\\');
        }
        out.push(c);
        i = i + 1;
        assert(out@ =~= seq!['"'] + shielded(v@.take(i as int)));
    }
    assert(v@.take(i as int) =~= v@);
    out.push('"');
    out
}

/// A line of the entry, pointed at the AppImage.
pub open spec fn rewritten_line(line: Seq<char>, appimage: Seq<char>) -> Seq<char> {
    if has_prefix(line, "Exec="@) {
        "Exec="@ + quoted_path(appimage) + " %f"@
    } else if has_prefix(line, "TryExec="@) {
        "TryExec="@ + appimage
    } else {
        line
    }
}

/// The lines pointed at the AppImage, each ended by a line feed.
pub open spec fn rewritten(lines: Seq<Seq<char>>, appimage: Seq<char>) -> Seq<char>
    decreases lines.len(),
{
    if lines.len() == 0 {
        seq![]
    } else {
        rewritten(lines.drop_last(), appimage) + rewritten_line(lines.last(), appimage).push('\n')
    }
}

/// Point the entry at the AppImage. The packaged `Exec` reads
/// `gifkino @@ %f @@`, where the `@@` markers are flatpak's file-forwarding
/// syntax and mean nothing outside a flatpak - left in place they would reach
/// the app as literal arguments.
///
/// `Exec` and `TryExec` are not the same kind of value and must not be written
/// the same way. `Exec` is a command line, so a path containing a space has to
/// be quoted to stay one argument. `TryExec` is a bare path that the launcher
/// looks up as-is: quote it and the lookup fails, which makes the whole entry
/// invalid, and an invalid entry is one no taskbar will match.
pub fn rewrite_entry(template: &str, appimage: &str) -> (r: String)
    ensures
        r@ == rewritten(lines(template@), appimage@),
{
    let all = lines_of(&chars_of(template));
    let ghost want = lines(template@);
    let image = chars_of(appimage);
    let mut out: Vec<char> = Vec::new();
    let mut i: usize = 0;
    assert(want.take(0) =~= Seq::<Seq<char>>::empty());
    assert(out@ =~= seq![]);
    while i < all.len()
        invariant
            i <= all@.len(),
            want == texts(all@),
            image@ == appimage@,
            out@ == rewritten(want.take(i as int), appimage@),
        decreases all@.len() - i,
    {
        assert(want.take(i + 1).drop_last() =~= want.take(i as int));
        let ghost before = out@;
        let line = &all[i];
        if starts_with(line, "Exec=") {
            extend(&mut out, &chars_of("Exec="));
            extend(&mut out, &chars_of(quote(appimage).as_str()));
            extend(&mut out, &chars_of(" %f"));
        } else if starts_with(line, "TryExec=") {
            extend(&mut out, &chars_of("TryExec="));
            extend(&mut out, &image);
        } else {
            extend(&mut out, line);
        }
        out.push('\n');
        assert(out@ =~= before + rewritten_line(want[i as int], appimage@).push('\n'));
        i = i + 1;
    }
    assert(want.take(i as int) =~= want);
    text_of(&out)
}

/// A line among others that end is one of the lines.
proof fn lemma_line_found(before: Seq<char>, line: Seq<char>, after: Seq<char>)
    requires
        before.len() > 0 ==> before.last() == '\n',
        !line.contains('\n'),
        line.len() > 0 ==> line.last() != '\r',
    ensures
        lines(before + line.push('\n') + after).contains(line),
    decreases before.len(),
{
    let text = before + line.push('\n') + after;
    if before.len() == 0 {
        assert(text =~= line.push('\n') + after);
        lemma_first_line(line, after);
        assert(lines(text)[0] == line);
    } else {
        let end = index_from(before, '\n', 0);
        lemma_index_from(before, '\n', 0);
        if end >= before.len() {
            assert(before[before.len() - 1] != '\n');
        }
        assert forall|i: int| 0 <= i < end implies #[trigger] text[i] != '\n' by {
            assert(text[i] == before[i]);
        }
        assert(text[end] == before[end]);
        lemma_index_is(text, '\n', 0, end);
        let rest = before.skip(end + 1);
        assert(text.skip(end + 1) =~= rest + line.push('\n') + after);
        lemma_line_found(rest, line, after);
        let more = lines(text.skip(end + 1));
        let k = choose|k: int| 0 <= k < more.len() && more[k] == line;
        assert(lines(text)[k + 1] == line);
    }
}

/// What is written before and after one of the lines.
proof fn lemma_rewritten_around(all: Seq<Seq<char>>, appimage: Seq<char>, i: int) -> (after: Seq<
    char,
>)
    requires
        0 <= i < all.len(),
    ensures
        rewritten(all, appimage) == rewritten(all.take(i), appimage) + rewritten_line(
            all[i],
            appimage,
        ).push('\n') + after,
        i > 0 ==> rewritten(all.take(i), appimage).last() == '\n',
    decreases all.len(),
{
    let rest = all.drop_last();
    if i < rest.len() {
        let after = lemma_rewritten_around(rest, appimage, i);
        assert(rest.take(i) =~= all.take(i));
        let last = rewritten_line(all.last(), appimage).push('\n');
        assert(rewritten(all, appimage) =~= rewritten(all.take(i), appimage) + rewritten_line(
            all[i],
            appimage,
        ).push('\n') + (after + last));
        after + last
    } else {
        assert(rest =~= all.take(i));
        let none = Seq::<char>::empty();
        assert(rewritten(all, appimage) =~= rewritten(all.take(i), appimage) + rewritten_line(
            all[i],
            appimage,
        ).push('\n') + none);
        none
    }
}

/// An entry that was pointed at the AppImage points at it, so the next run
/// leaves it alone.
pub proof fn law_an_installed_entry_is_left_alone(template: Seq<char>, appimage: Seq<char>, i: int)
    requires
        0 <= i < lines(template).len(),
        has_prefix(lines(template)[i], "Exec="@),
        !appimage.contains('\n'),
    ensures
        points_at(rewritten(lines(template), appimage), appimage),
{
    let all = lines(template);
    let line = rewritten_line(all[i], appimage);
    let entry = rewritten(all, appimage);
    reveal_strlit("Exec=");
    reveal_strlit(" %f");
    let quoted = quoted_path(appimage);
    lemma_shielded_holds(appimage);
    assert(!line.contains('\n')) by {
        if line.contains('\n') {
            let k = choose|k: int| 0 <= k < line.len() && line[k] == '\n';
            if 5 <= k < 5 + quoted.len() {
                assert(quoted[k - 5] == '\n');
                assert(shielded(appimage)[k - 6] == '\n');
                assert(shielded(appimage).contains('\n'));
            }
        }
    }
    let after = lemma_rewritten_around(all, appimage, i);
    let before = rewritten(all.take(i), appimage);
    lemma_line_found(before, line, after);
    let k = choose|k: int| 0 <= k < lines(entry).len() && lines(entry)[k] == line;
    assert(line.skip(5).skip(0).take(quoted.len() as int) =~= quoted);
    assert(line.skip(5)[quoted.len() as int] == ' ');
    assert(argument_at(line.skip(5), 0, appimage));
    assert(line.take(5) =~= "Exec="@);
    assert(runs(lines(entry)[k], appimage));
}

/// Escaping brings in no line break.
proof fn lemma_shielded_holds(s: Seq<char>)
    requires
        !s.contains('\n'),
    ensures
        !shielded(s).contains('\n'),
    decreases s.len(),
{
    if s.len() > 0 {
        let rest = s.drop_last();
        if rest.contains('\n') {
            let k = choose|k: int| 0 <= k < rest.len() && rest[k] == '\n';
            assert(s[k] == '\n');
        }
        lemma_shielded_holds(rest);
        assert(s.contains(s.last()));
        let all = shielded(s);
        if all.contains('\n') {
            let k = choose|k: int| 0 <= k < all.len() && all[k] == '\n';
            if k < shielded(rest).len() {
                assert(shielded(rest)[k] == '\n');
            }
        }
    }
}

/// What unquoting a quoted path leaves, the escapes undone.
pub open spec fn unshielded(s: Seq<char>) -> Seq<char>
    decreases s.len(),
{
    if s.len() == 0 {
        seq![]
    } else if s[0] == '\\' && s.len() > 1 {
        seq![s[1]] + unshielded(s.skip(2))
    } else {
        seq![s[0]] + unshielded(s.skip(1))
    }
}

/// A launcher that undoes the escapes inside the quotes gets the path back,
/// whatever characters it holds.
pub proof fn law_quoted_path_reads_back(path: Seq<char>)
    ensures
        unshielded(quoted_path(path).subrange(1, quoted_path(path).len() - 1)) == path,
{
    assert(quoted_path(path).subrange(1, quoted_path(path).len() - 1) =~= shielded(path));
    lemma_unshield(path, seq![]);
    assert(shielded(path) + Seq::<char>::empty() =~= shielded(path));
    assert(path + unshielded(Seq::<char>::empty()) =~= path);
}

proof fn lemma_unshield(s: Seq<char>, rest: Seq<char>)
    ensures
        unshielded(shielded(s) + rest) == s + unshielded(rest),
    decreases s.len(),
{
    if s.len() == 0 {
        assert(shielded(s) + rest =~= rest);
        assert(s + unshielded(rest) =~= unshielded(rest));
    } else {
        let c = s.last();
        let more = if reserved(c) {
            seq!['\\', c] + rest
        } else {
            seq![c] + rest
        };
        assert(shielded(s) + rest =~= shielded(s.drop_last()) + more);
        lemma_unshield(s.drop_last(), more);
        if reserved(c) {
            assert(more.skip(2) =~= rest);
        } else {
            assert(more.skip(1) =~= rest);
        }
        assert(unshielded(more) == seq![c] + unshielded(rest));
        assert(s.drop_last() + (seq![c] + unshielded(rest)) =~= s + unshielded(rest));
    }
}

/// The user's data directory, from the environment's and the home directory.
pub fn data_home(xdg: Option<&str>, home: Option<&str>) -> (r: Option<String>)
    ensures
        match r {
            Some(path) => user_dir(optional_text(xdg), optional_text(home), ".local/share"@) == Some(
                path@,
            ),
            None => user_dir(optional_text(xdg), optional_text(home), ".local/share"@) is None,
        },
{
    match user_directory(xdg, home, ".local/share") {
        Some(dir) => Some(text_of(&dir)),
        None => None,
    }
}

} // verus!
