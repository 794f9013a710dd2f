//! Where the translations might be.

use vstd::prelude::*;

use crate::desktop::{join_path, path_join};
use crate::i18n::{candidate_names, candidates, string_views};
use crate::text::{chars_of, extend, text_of};

verus! {

/// How many directories above the program are looked in: a build under
/// `target/debug` reaches the root of its repository inside four steps.
pub const STEPS_UP: usize = 4;

/// A directory under one that may not be known.
pub open spec fn under(base: Option<&str>, name: Seq<char>) -> Seq<Seq<char>> {
    match base {
        Some(base) => seq![path_join(base@, name)],
        None => seq![],
    }
}

/// The `po` directories, the first to look in first.
pub open spec fn po_dirs(
    named: Option<&str>,
    above: Seq<Seq<char>>,
    data: Option<&str>,
    home: Option<&str>,
) -> Seq<Seq<char>> {
    let near = if above.len() < STEPS_UP {
        above
    } else {
        above.take(STEPS_UP as int)
    };
    (match named {
        Some(dir) => seq![dir@],
        None => seq![],
    }) + Seq::new(near.len(), |i: int| path_join(near[i], "po"@)) + under(data, "gifkino/po"@)
        + under(home, ".local/share/gifkino/po"@) + seq![
        "/usr/share/gifkino/po"@,
        "/app/share/gifkino/po"@,
    ]
}

/// Where a `po` directory might be. One that was named comes first, then the
/// directories above the program, nearest first, so that a build picks up an
/// edit without an install, which is the whole workflow while the catalogs are
/// being written.
pub fn search_dirs(
    named: Option<&str>,
    above: &Vec<String>,
    data: Option<&str>,
    home: Option<&str>,
) -> (r: Vec<String>)
    ensures
        string_views(r@) == po_dirs(named, string_views(above@), data, home),
{
    let ghost all = string_views(above@);
    let mut r: Vec<String> = Vec::new();
    if let Some(dir) = named {
        r.push(dir.to_owned());
    }
    let ghost first = match named {
        Some(dir) => seq![dir@],
        None => seq![],
    };
    assert(string_views(r@) =~= first);
    let ghost near = if all.len() < STEPS_UP {
        all
    } else {
        all.take(STEPS_UP as int)
    };
    let mut i: usize = 0;
    while i < above.len() && i < STEPS_UP
        invariant
            i <= near.len(),
            all == string_views(above@),
            near == (if all.len() < STEPS_UP {
                all
            } else {
                all.take(STEPS_UP as int)
            }),
            string_views(r@) == first + Seq::new(i as nat, |k: int| path_join(near[k], "po"@)),
        decreases near.len() - i,
    {
        let ghost before = string_views(r@);
        let path = text_of(&join_path(&chars_of(above[i].as_str()), "po"));
        r.push(path);
        assert(string_views(r@) =~= before.push(path@));
        i = i + 1;
        assert(string_views(r@) =~= first + Seq::new(
            i as nat,
            |k: int| path_join(near[k], "po"@),
        ));
    }
    if let Some(data) = data {
        r.push(text_of(&join_path(&chars_of(data), "gifkino/po")));
    }
    if let Some(home) = home {
        r.push(text_of(&join_path(&chars_of(home), ".local/share/gifkino/po")));
    }
    r.push("/usr/share/gifkino/po".to_owned());
    r.push("/app/share/gifkino/po".to_owned());
    assert(string_views(r@) =~= po_dirs(named, all, data, home));
    r
}

/// The files of a locale's catalog under one directory.
pub open spec fn files_in(dir: Seq<char>, names: Seq<Seq<char>>) -> Seq<Seq<char>> {
    Seq::new(names.len(), |i: int| path_join(dir, names[i] + ".po"@))
}

/// The files of a locale's catalog, those of the first directory first.
pub open spec fn po_files(dirs: Seq<Seq<char>>, names: Seq<Seq<char>>) -> Seq<Seq<char>>
    decreases dirs.len(),
{
    if dirs.len() == 0 {
        seq![]
    } else {
        po_files(dirs.drop_last(), names) + files_in(dirs.last(), names)
    }
}

/// The files that may hold a locale's catalog, the first to try first: the
/// first that can be read is the catalog.
pub fn catalog_files(dirs: &Vec<String>, locale: &str) -> (r: Vec<String>)
    ensures
        string_views(r@) == po_files(string_views(dirs@), candidate_names(locale@)),
{
    let names = candidates(locale);
    let ghost all = string_views(dirs@);
    let ghost want = candidate_names(locale@);
    let mut r: Vec<String> = Vec::new();
    let mut i: usize = 0;
    assert(all.take(0) =~= seq![]);
    assert(string_views(r@) =~= seq![]);
    while i < dirs.len()
        invariant
            i <= dirs@.len(),
            all == string_views(dirs@),
            want == string_views(names@),
            string_views(r@) == po_files(all.take(i as int), want),
        decreases dirs@.len() - i,
    {
        let ghost before = string_views(r@);
        let dir = chars_of(dirs[i].as_str());
        assert(all[i as int] == dir@);
        let mut k: usize = 0;
        assert(before + files_in(dir@, want).take(0) =~= before);
        while k < names.len()
            invariant
                k <= names@.len(),
                want == string_views(names@),
                string_views(r@) == before + files_in(dir@, want).take(k as int),
            decreases names@.len() - k,
        {
            let ghost now = string_views(r@);
            let mut name = chars_of(names[k].as_str());
            extend(&mut name, &chars_of(".po"));
            assert(want[k as int] == names@[k as int]@);
            let path = text_of(&join_path(&dir, text_of(&name).as_str()));
            r.push(path);
            assert(string_views(r@) =~= now.push(path@));
            assert(path@ == files_in(dir@, want)[k as int]);
            k = k + 1;
            assert(string_views(r@) =~= before + files_in(dir@, want).take(k as int));
        }
        assert(files_in(dir@, want).take(k as int) =~= files_in(dir@, want));
        assert(all.take(i + 1).drop_last() =~= all.take(i as int));
        assert(all.take(i + 1).last() == dir@);
        i = i + 1;
    }
    assert(all.take(i as int) =~= all);
    r
}

} // verus!
