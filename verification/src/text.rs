//! Text as a list of characters: the splitting, trimming and replacing the
//! file formats are made of.

use vstd::prelude::*;

verus! {

/// `String::push`: the character goes on the end of the text.
pub assume_specification[ String::push ](s: &mut String, ch: char)
    ensures
        final(s)@ == old(s)@.push(ch),
;

/// The characters of a text.
pub fn chars_of(s: &str) -> (r: Vec<char>)
    ensures
        r@ == s@,
{
    let mut r: Vec<char> = Vec::new();
    for c in it: s.chars()
        invariant
            it.seq() == s@,
            r@ == it.seq().take(it.index() as int),
    {
        r.push(c);
        assert(r@ =~= it.seq().take(it.index() + 1));
    }
    assert(s@.take(s@.len() as int) =~= s@);
    r
}

/// The text of a list of characters.
pub fn text_of(chars: &Vec<char>) -> (r: String)
    ensures
        r@ == chars@,
{
    let mut r = String::new();
    let mut i: usize = 0;
    while i < chars.len()
        invariant
            i <= chars@.len(),
            r@ == chars@.take(i as int),
        decreases chars@.len() - i,
    {
        r.push(chars[i]);
        i = i + 1;
        assert(r@ =~= chars@.take(i as int));
    }
    assert(chars@.take(i as int) =~= chars@);
    r
}

/// The characters from `a` up to `b`.
pub fn part(v: &Vec<char>, a: usize, b: usize) -> (r: Vec<char>)
    requires
        a <= b <= v@.len(),
    ensures
        r@ == v@.subrange(a as int, b as int),
{
    let mut r: Vec<char> = Vec::new();
    let mut i: usize = a;
    while i < b
        invariant
            a <= i <= b <= v@.len(),
            r@ == v@.subrange(a as int, i as int),
        decreases b - i,
    {
        r.push(v[i]);
        i = i + 1;
        assert(r@ =~= v@.subrange(a as int, i as int));
    }
    r
}

/// Put the characters of `more` on the end of `v`.
pub fn extend(v: &mut Vec<char>, more: &Vec<char>)
    ensures
        final(v)@ == old(v)@ + more@,
{
    let mut i: usize = 0;
    assert(v@ =~= old(v)@ + more@.take(0));
    while i < more.len()
        invariant
            i <= more@.len(),
            v@ == old(v)@ + more@.take(i as int),
        decreases more@.len() - i,
    {
        v.push(more[i]);
        i = i + 1;
        assert(v@ =~= old(v)@ + more@.take(i as int));
    }
    assert(more@.take(i as int) =~= more@);
}

/// Whether two lists hold the same characters.
pub fn same_chars(a: &Vec<char>, b: &Vec<char>) -> (r: bool)
    ensures
        r == (a@ == b@),
{
    if a.len() != b.len() {
        return false;
    }
    let mut i: usize = 0;
    while i < a.len()
        invariant
            a@.len() == b@.len(),
            i <= a@.len(),
            forall|k: int| 0 <= k < i ==> a@[k] == b@[k],
        decreases a@.len() - i,
    {
        if a[i] != b[i] {
            return false;
        }
        i = i + 1;
    }
    assert(a@ =~= b@);
    true
}

/// Whether two texts are the same.
pub fn same_text(a: &str, b: &str) -> (r: bool)
    ensures
        r == (a@ == b@),
{
    same_chars(&chars_of(a), &chars_of(b))
}

/// Unicode's white space.
pub open spec fn white(c: char) -> bool {
    let n = c as u32;
    ||| 0x9 <= n <= 0xd
    ||| n == 0x20
    ||| n == 0x85
    ||| n == 0xa0
    ||| n == 0x1680
    ||| 0x2000 <= n <= 0x200a
    ||| n == 0x2028
    ||| n == 0x2029
    ||| n == 0x202f
    ||| n == 0x205f
    ||| n == 0x3000
}

pub fn is_white(c: char) -> (r: bool)
    ensures
        r == white(c),
{
    let n: u32 = c as u32;
    (0x9 <= n && n <= 0xd) || n == 0x20 || n == 0x85 || n == 0xa0 || n == 0x1680 || (0x2000 <= n
        && n <= 0x200a) || n == 0x2028 || n == 0x2029 || n == 0x202f || n == 0x205f || n == 0x3000
}

/// The text without the white space it starts with.
pub open spec fn trimmed_start(s: Seq<char>) -> Seq<char>
    decreases s.len(),
{
    if s.len() > 0 && white(s[0]) {
        trimmed_start(s.skip(1))
    } else {
        s
    }
}

/// The text without the white space it ends with.
pub open spec fn trimmed_end(s: Seq<char>) -> Seq<char>
    decreases s.len(),
{
    if s.len() > 0 && white(s.last()) {
        trimmed_end(s.drop_last())
    } else {
        s
    }
}

/// The text without the white space around it.
pub open spec fn trimmed(s: Seq<char>) -> Seq<char> {
    trimmed_end(trimmed_start(s))
}

pub fn trim(v: &Vec<char>) -> (r: Vec<char>)
    ensures
        r@ == trimmed(v@),
{
    let mut a: usize = 0;
    assert(v@.skip(0) =~= v@);
    while a < v.len() && is_white(v[a])
        invariant
            a <= v@.len(),
            trimmed_start(v@) == trimmed_start(v@.skip(a as int)),
        decreases v@.len() - a,
    {
        assert(v@.skip(a as int).skip(1) =~= v@.skip(a + 1));
        a = a + 1;
    }
    let mut b: usize = v.len();
    assert(v@.skip(a as int) =~= v@.subrange(a as int, b as int));
    while a < b && is_white(v[b - 1])
        invariant
            a <= b <= v@.len(),
            trimmed(v@) == trimmed_end(v@.subrange(a as int, b as int)),
        decreases b,
    {
        assert(v@.subrange(a as int, b as int).drop_last() =~= v@.subrange(a as int, b - 1));
        b = b - 1;
    }
    part(v, a, b)
}

/// A text that neither starts nor ends with white space is trimmed already.
pub proof fn lemma_trimmed_solid(s: Seq<char>)
    requires
        s.len() > 0 ==> !white(s[0]) && !white(s.last()),
    ensures
        trimmed(s) == s,
{
}

/// What trimming leaves has no white space at its ends, and nothing that the
/// text did not hold.
pub proof fn lemma_trimmed_ends(s: Seq<char>)
    ensures
        trimmed(s).len() > 0 ==> !white(trimmed(s)[0]) && !white(trimmed(s).last()),
        forall|d: char| #[trigger] trimmed(s).contains(d) ==> s.contains(d),
{
    lemma_start_trims(s);
    lemma_end_trims(trimmed_start(s));
}

proof fn lemma_start_trims(s: Seq<char>)
    ensures
        trimmed_start(s).len() > 0 ==> !white(trimmed_start(s)[0]),
        forall|d: char| #[trigger] trimmed_start(s).contains(d) ==> s.contains(d),
    decreases s.len(),
{
    if s.len() > 0 && white(s[0]) {
        lemma_start_trims(s.skip(1));
        assert forall|d: char| #[trigger] trimmed_start(s).contains(d) implies s.contains(d) by {
            let rest = s.skip(1);
            let i = choose|i: int| 0 <= i < rest.len() && rest[i] == d;
            assert(s[i + 1] == d);
        }
    }
}

proof fn lemma_end_trims(s: Seq<char>)
    ensures
        trimmed_end(s).len() > 0 ==> trimmed_end(s)[0] == s[0] && !white(trimmed_end(s).last()),
        forall|d: char| #[trigger] trimmed_end(s).contains(d) ==> s.contains(d),
    decreases s.len(),
{
    if s.len() > 0 && white(s.last()) {
        lemma_end_trims(s.drop_last());
        assert forall|d: char| #[trigger] trimmed_end(s).contains(d) implies s.contains(d) by {
            let rest = s.drop_last();
            let i = choose|i: int| 0 <= i < rest.len() && rest[i] == d;
            assert(s[i] == d);
        }
    }
}

/// White space round a text that has none at its ends trims off.
pub proof fn lemma_trimmed_padded(s: Seq<char>, before: Seq<char>, after: Seq<char>)
    requires
        s.len() > 0 ==> !white(s[0]) && !white(s.last()),
        s.len() == 0 ==> before.len() == 0,
        forall|i: int| 0 <= i < before.len() ==> white(#[trigger] before[i]),
        forall|i: int| 0 <= i < after.len() ==> white(#[trigger] after[i]),
    ensures
        trimmed(before + s + after) == s,
    decreases before.len() + after.len(),
{
    let all = before + s + after;
    if before.len() > 0 {
        assert(all[0] == before[0]);
        assert(all.skip(1) =~= before.skip(1) + s + after);
        assert forall|i: int| 0 <= i < before.skip(1).len() implies white(
            #[trigger] before.skip(1)[i],
        ) by {
            assert(before.skip(1)[i] == before[i + 1]);
        }
        lemma_trimmed_padded(s, before.skip(1), after);
    } else if s.len() > 0 {
        assert(all[0] == s[0]);
        assert(trimmed_start(all) == all);
        lemma_trimmed_end_padded(s, after);
        assert(all =~= s + after);
    } else {
        assert(all =~= after);
        lemma_all_white(after);
    }
}

proof fn lemma_trimmed_end_padded(s: Seq<char>, after: Seq<char>)
    requires
        s.len() > 0 ==> !white(s.last()),
        forall|i: int| 0 <= i < after.len() ==> white(#[trigger] after[i]),
    ensures
        trimmed_end(s + after) == s,
    decreases after.len(),
{
    if after.len() > 0 {
        assert((s + after).last() == after.last());
        assert(white(after[after.len() - 1]));
        assert((s + after).drop_last() =~= s + after.drop_last());
        lemma_trimmed_end_padded(s, after.drop_last());
    } else {
        assert(s + after =~= s);
    }
}

proof fn lemma_all_white(s: Seq<char>)
    requires
        forall|i: int| 0 <= i < s.len() ==> white(#[trigger] s[i]),
    ensures
        trimmed(s) == Seq::<char>::empty(),
    decreases s.len(),
{
    if s.len() > 0 {
        assert forall|i: int| 0 <= i < s.skip(1).len() implies white(#[trigger] s.skip(1)[i]) by {
            assert(s.skip(1)[i] == s[i + 1]);
        }
        lemma_all_white(s.skip(1));
    } else {
        assert(s =~= Seq::<char>::empty());
    }
}

/// The place of the first `c` at or after `from`, or the length if there is
/// none.
pub open spec fn index_from(s: Seq<char>, c: char, from: int) -> int
    decreases s.len() - from,
{
    if from < 0 || from >= s.len() {
        s.len() as int
    } else if s[from] == c {
        from
    } else {
        index_from(s, c, from + 1)
    }
}

pub proof fn lemma_index_from(s: Seq<char>, c: char, from: int)
    requires
        0 <= from <= s.len(),
    ensures
        from <= index_from(s, c, from) <= s.len(),
        index_from(s, c, from) < s.len() ==> s[index_from(s, c, from)] == c,
        forall|i: int| from <= i < index_from(s, c, from) ==> #[trigger] s[i] != c,
    decreases s.len() - from,
{
    if from < s.len() && s[from] != c {
        lemma_index_from(s, c, from + 1);
    }
}

/// The first place of `c` is the one place before which there is none.
pub proof fn lemma_index_is(s: Seq<char>, c: char, from: int, at: int)
    requires
        0 <= from <= at <= s.len(),
        at < s.len() ==> s[at] == c,
        forall|i: int| from <= i < at ==> #[trigger] s[i] != c,
    ensures
        index_from(s, c, from) == at,
    decreases at - from,
{
    if from < at {
        assert(s[from] != c);
        lemma_index_is(s, c, from + 1, at);
    }
}

pub fn find_from(v: &Vec<char>, c: char, from: usize) -> (r: usize)
    requires
        from <= v@.len(),
    ensures
        r == index_from(v@, c, from as int),
        from <= r <= v@.len(),
        r < v@.len() ==> v@[r as int] == c,
{
    let mut i: usize = from;
    while i < v.len() && v[i] != c
        invariant
            from <= i <= v@.len(),
            index_from(v@, c, from as int) == index_from(v@, c, i as int),
        decreases v@.len() - i,
    {
        i = i + 1;
    }
    i
}

/// The line without the carriage return before its line feed.
pub open spec fn without_return(line: Seq<char>) -> Seq<char> {
    if line.len() > 0 && line.last() == '\r' {
        line.drop_last()
    } else {
        line
    }
}

/// The lines of a text. A line ends in a line feed or at the end of the text,
/// and a carriage return right before the line feed belongs to the ending.
pub open spec fn lines(s: Seq<char>) -> Seq<Seq<char>>
    decreases s.len(),
{
    let end = index_from(s, '\n', 0);
    if s.len() == 0 {
        seq![]
    } else if end < 0 || end >= s.len() {
        seq![s]
    } else {
        seq![without_return(s.take(end))] + lines(s.skip(end + 1))
    }
}

/// A first line, and then the rest.
pub proof fn lemma_first_line(line: Seq<char>, rest: Seq<char>)
    requires
        !line.contains('\n'),
        line.len() > 0 ==> line.last() != '\r',
    ensures
        lines(line.push('\n') + rest) == seq![line] + lines(rest),
{
    let s = line.push('\n') + rest;
    assert forall|i: int| 0 <= i < line.len() implies #[trigger] s[i] != '\n' by {
        assert(s[i] == line[i]);
        assert(line.contains(line[i]));
    }
    assert(s[line.len() as int] == '\n');
    lemma_index_is(s, '\n', 0, line.len() as int);
    assert(s.take(line.len() as int) =~= line);
    assert(s.skip(line.len() as int + 1) =~= rest);
}

/// What each of a list of character lists holds.
pub open spec fn texts(v: Seq<Vec<char>>) -> Seq<Seq<char>> {
    Seq::new(v.len(), |i: int| v[i]@)
}

/// The lines of a text.
pub fn lines_of(v: &Vec<char>) -> (r: Vec<Vec<char>>)
    ensures
        texts(r@) == lines(v@),
{
    let mut r: Vec<Vec<char>> = Vec::new();
    let mut at: usize = 0;
    assert(v@.skip(0) =~= v@);
    assert(texts(r@) + lines(v@) =~= lines(v@));
    while at < v.len()
        invariant
            at <= v@.len(),
            texts(r@) + lines(v@.skip(at as int)) == lines(v@),
        decreases v@.len() - at,
    {
        let ghost before = r@;
        let ghost rest = v@.skip(at as int);
        let end: usize = find_from(v, '\n', at);
        proof {
            lemma_index_from(v@, '\n', at as int);
            assert forall|i: int| 0 <= i < end - at implies #[trigger] rest[i] != '\n' by {
                assert(rest[i] == v@[at + i]);
            }
            if end < v@.len() {
                assert(rest[end - at] == v@[end as int]);
            }
            lemma_index_is(rest, '\n', 0, end - at);
        }
        if end == v.len() {
            let line = part(v, at, end);
            assert(line@ =~= rest);
            r.push(line);
            assert(v@.skip(end as int) =~= Seq::<char>::empty());
            assert(texts(r@) =~= texts(before).push(line@));
            assert(lines(rest) =~= seq![rest]);
            assert(texts(r@) + lines(v@.skip(end as int)) =~= texts(before) + lines(rest));
            at = end;
        } else {
            let stop: usize = if end > at && v[end - 1] == '\r' {
                end - 1
            } else {
                end
            };
            let line = part(v, at, stop);
            assert(line@ =~= without_return(rest.take(end - at)));
            r.push(line);
            assert(rest.skip(end - at + 1) =~= v@.skip(end + 1));
            assert(texts(r@) =~= texts(before).push(line@));
            assert(texts(r@) + lines(v@.skip(end + 1)) =~= texts(before) + lines(rest));
            at = end + 1;
        }
    }
    assert(texts(r@) + lines(v@.skip(at as int)) =~= texts(r@));
    r
}

/// Whether `s` starts with `prefix`.
pub open spec fn has_prefix(s: Seq<char>, prefix: Seq<char>) -> bool {
    s.len() >= prefix.len() && s.take(prefix.len() as int) == prefix
}

pub fn starts_with(v: &Vec<char>, prefix: &str) -> (r: bool)
    ensures
        r == has_prefix(v@, prefix@),
{
    let p = chars_of(prefix);
    assert(v@.skip(0) =~= v@);
    starts_with_at(v, 0, &p)
}

/// Whether the characters from `at` on start with `prefix`.
pub fn starts_with_at(v: &Vec<char>, at: usize, prefix: &Vec<char>) -> (r: bool)
    requires
        at <= v@.len(),
    ensures
        r == has_prefix(v@.skip(at as int), prefix@),
{
    if v.len() - at < prefix.len() {
        return false;
    }
    let mut i: usize = 0;
    while i < prefix.len()
        invariant
            at + prefix@.len() <= v@.len(),
            i <= prefix@.len(),
            forall|k: int| 0 <= k < i ==> v@[at + k] == prefix@[k],
        decreases prefix@.len() - i,
    {
        assert(v.len() == v@.len());
        if v[at + i] != prefix[i] {
            assert(v@.skip(at as int).take(prefix@.len() as int)[i as int] != prefix@[i as int]);
            return false;
        }
        i = i + 1;
    }
    assert(v@.skip(at as int).take(prefix@.len() as int) =~= prefix@);
    true
}

/// The text with every `from` in it replaced, left to right, none overlapping.
pub open spec fn replaced(s: Seq<char>, from: Seq<char>, with: Seq<char>) -> Seq<char>
    decreases s.len(),
{
    if from.len() == 0 || s.len() < from.len() {
        s
    } else if has_prefix(s, from) {
        with + replaced(s.skip(from.len() as int), from, with)
    } else {
        seq![s[0]] + replaced(s.skip(1), from, with)
    }
}

/// Replace every `from`, which holds a character at least.
pub fn replace_all(v: &Vec<char>, from: &Vec<char>, with: &Vec<char>) -> (r: Vec<char>)
    requires
        from@.len() > 0,
    ensures
        r@ == replaced(v@, from@, with@),
{
    let mut r: Vec<char> = Vec::new();
    let mut at: usize = 0;
    assert(v@.skip(0) =~= v@);
    assert(r@ + replaced(v@, from@, with@) =~= replaced(v@, from@, with@));
    while at < v.len()
        invariant
            at <= v@.len(),
            from@.len() > 0,
            r@ + replaced(v@.skip(at as int), from@, with@) == replaced(v@, from@, with@),
        decreases v@.len() - at,
    {
        let ghost rest = v@.skip(at as int);
        let ghost before = r@;
        if starts_with_at(v, at, from) {
            extend(&mut r, with);
            assert(rest.skip(from@.len() as int) =~= v@.skip(at + from@.len()));
            assert(r@ + replaced(v@.skip(at + from@.len()), from@, with@) =~= before + replaced(
                rest,
                from@,
                with@,
            ));
            at = at + from.len();
        } else {
            r.push(v[at]);
            assert(rest.skip(1) =~= v@.skip(at + 1));
            assert(rest =~= seq![v@[at as int]] + v@.skip(at + 1));
            assert(rest.len() < from@.len() ==> replaced(v@.skip(at + 1), from@, with@) == v@.skip(
                at + 1,
            ));
            assert(r@ + replaced(v@.skip(at + 1), from@, with@) =~= before + replaced(
                rest,
                from@,
                with@,
            ));
            at = at + 1;
        }
    }
    assert(v@.skip(at as int) =~= Seq::<char>::empty());
    assert(r@ + replaced(v@.skip(at as int), from@, with@) =~= r@);
    r
}

/// A digit's character.
pub open spec fn digit_char(d: int) -> char {
    (('0' as u32) + d) as u8 as char
}

/// The number in decimal.
pub open spec fn decimal(n: nat) -> Seq<char>
    decreases n,
{
    if n < 10 {
        seq![digit_char(n as int)]
    } else {
        decimal(n / 10).push(digit_char((n % 10) as int))
    }
}

/// The number in decimal.
pub fn decimal_of(n: u64) -> (r: Vec<char>)
    ensures
        r@ == decimal(n as nat),
    decreases n,
{
    let digit: u8 = 48 + (n % 10) as u8;
    if n < 10 {
        let mut r: Vec<char> = Vec::new();
        r.push(digit as char);
        assert(r@ =~= decimal(n as nat));
        r
    } else {
        let mut r = decimal_of(n / 10);
        r.push(digit as char);
        r
    }
}

/// ASCII upper case made lower, every other character as it is.
pub open spec fn lower(c: char) -> char {
    if 'A' <= c <= 'Z' {
        ((c as u32) + 32) as u8 as char
    } else {
        c
    }
}

pub open spec fn lowered(s: Seq<char>) -> Seq<char> {
    Seq::new(s.len(), |i: int| lower(s[i]))
}

pub fn lower_char(c: char) -> (r: char)
    ensures
        r == lower(c),
{
    if 'A' <= c && c <= 'Z' {
        let n: u8 = (c as u32 + 32) as u8;
        n as char
    } else {
        c
    }
}

pub fn lower_chars(v: &Vec<char>) -> (r: Vec<char>)
    ensures
        r@ == lowered(v@),
{
    let mut r: Vec<char> = Vec::new();
    let mut i: usize = 0;
    while i < v.len()
        invariant
            i <= v@.len(),
            r@.len() == i,
            forall|k: int| 0 <= k < i ==> #[trigger] r@[k] == lower(v@[k]),
        decreases v@.len() - i,
    {
        r.push(lower_char(v[i]));
        i = i + 1;
    }
    assert(r@ =~= lowered(v@));
    r
}

/// ASCII lower case made upper, every other character as it is.
pub open spec fn upper(c: char) -> char {
    if 'a' <= c <= 'z' {
        ((c as u32) - 32) as u8 as char
    } else {
        c
    }
}

pub fn upper_char(c: char) -> (r: char)
    ensures
        r == upper(c),
{
    if 'a' <= c && c <= 'z' {
        let n: u8 = (c as u32 - 32) as u8;
        n as char
    } else {
        c
    }
}

/// The parts of a text between the `c`s in it.
pub open spec fn split(s: Seq<char>, c: char) -> Seq<Seq<char>>
    decreases s.len(),
{
    let at = index_from(s, c, 0);
    if at < 0 || at >= s.len() {
        seq![s]
    } else {
        seq![s.take(at)] + split(s.skip(at + 1), c)
    }
}

/// A first part, and then the rest.
pub proof fn lemma_first_part(first: Seq<char>, rest: Seq<char>, c: char)
    requires
        !first.contains(c),
    ensures
        split(first.push(c) + rest, c) == seq![first] + split(rest, c),
{
    let s = first.push(c) + rest;
    assert forall|i: int| 0 <= i < first.len() implies #[trigger] s[i] != c by {
        assert(s[i] == first[i]);
        assert(first.contains(first[i]));
    }
    assert(s[first.len() as int] == c);
    lemma_index_is(s, c, 0, first.len() as int);
    assert(s.take(first.len() as int) =~= first);
    assert(s.skip(first.len() as int + 1) =~= rest);
}

/// A text without the separator is one part.
pub proof fn lemma_one_part(s: Seq<char>, c: char)
    requires
        !s.contains(c),
    ensures
        split(s, c) == seq![s],
{
    assert forall|i: int| 0 <= i < s.len() implies #[trigger] s[i] != c by {
        assert(s.contains(s[i]));
    }
    lemma_index_is(s, c, 0, s.len() as int);
}

/// A part holds no separator, and nothing that the text did not hold.
pub proof fn lemma_part_holds(s: Seq<char>, c: char, i: int)
    requires
        0 <= i < split(s, c).len(),
    ensures
        !split(s, c)[i].contains(c),
        forall|d: char| #[trigger] split(s, c)[i].contains(d) ==> s.contains(d),
    decreases s.len(),
{
    let at = index_from(s, c, 0);
    lemma_index_from(s, c, 0);
    let part = split(s, c)[i];
    if at < s.len() && i > 0 {
        let rest = s.skip(at + 1);
        lemma_part_holds(rest, c, i - 1);
        assert(part == split(rest, c)[i - 1]);
        assert forall|d: char| #[trigger] part.contains(d) implies s.contains(d) by {
            let j = choose|j: int| 0 <= j < rest.len() && rest[j] == d;
            assert(s[at + 1 + j] == d);
        }
    } else {
        assert forall|d: char| #[trigger] part.contains(d) implies s.contains(d) && d != c by {
            let j = choose|j: int| 0 <= j < part.len() && part[j] == d;
            assert(s[j] == d);
        }
    }
}

/// The parts of a text between the `c`s in it.
pub fn split_on(v: &Vec<char>, c: char) -> (r: Vec<Vec<char>>)
    ensures
        texts(r@) == split(v@, c),
        r@.len() > 0,
{
    let mut r: Vec<Vec<char>> = Vec::new();
    let mut at: usize = 0;
    assert(v@.skip(0) =~= v@);
    assert(texts(r@) + split(v@, c) =~= split(v@, c));
    loop
        invariant
            at <= v@.len(),
            texts(r@) + split(v@.skip(at as int), c) == split(v@, c),
        decreases v@.len() - at,
    {
        let ghost before = r@;
        let ghost rest = v@.skip(at as int);
        let end: usize = find_from(v, c, at);
        proof {
            lemma_index_from(v@, c, at as int);
            assert forall|i: int| 0 <= i < end - at implies #[trigger] rest[i] != c by {
                assert(rest[i] == v@[at + i]);
            }
            if end < v@.len() {
                assert(rest[end - at] == v@[end as int]);
            }
            lemma_index_is(rest, c, 0, end - at);
        }
        let piece = part(v, at, end);
        assert(piece@ =~= rest.take(end - at));
        r.push(piece);
        assert(texts(r@) =~= texts(before).push(piece@));
        if end == v.len() {
            assert(piece@ =~= rest);
            assert(texts(r@) =~= texts(before) + split(rest, c));
            return r;
        }
        assert(rest.skip(end - at + 1) =~= v@.skip(end + 1));
        assert(texts(r@) + split(v@.skip(end + 1), c) =~= texts(before) + split(rest, c));
        at = end + 1;
    }
}

/// A `key = value` line taken apart at the first equals sign, if it is one:
/// not blank, not a comment. The key is trimmed.
pub open spec fn key_value(line: Seq<char>) -> Option<(Seq<char>, Seq<char>)> {
    let line = trimmed(line);
    let at = index_from(line, '=', 0);
    if line.len() == 0 || line[0] == '#' || at >= line.len() {
        None
    } else {
        Some((trimmed(line.take(at)), line.skip(at + 1)))
    }
}

pub fn key_value_of(line: &Vec<char>) -> (r: Option<(Vec<char>, Vec<char>)>)
    ensures
        match r {
            Some((key, value)) => key_value(line@) == Some((key@, value@)),
            None => key_value(line@) is None,
        },
{
    let line = trim(line);
    if line.len() == 0 || line[0] == '#' {
        return None;
    }
    let at: usize = find_from(&line, '=', 0);
    if at == line.len() {
        return None;
    }
    let key = part(&line, 0, at);
    assert(key@ =~= line@.take(at as int));
    let value = part(&line, at + 1, line.len());
    assert(value@ =~= line@.skip(at + 1));
    Some((trim(&key), value))
}

/// The number a text of decimal digits stands for.
pub open spec fn number(s: Seq<char>) -> nat
    decreases s.len(),
{
    if s.len() == 0 {
        0
    } else {
        number(s.drop_last()) * 10 + ((s.last() as u32) - ('0' as u32)) as nat
    }
}

pub open spec fn all_digits(s: Seq<char>) -> bool {
    forall|i: int| 0 <= i < s.len() ==> '0' <= #[trigger] s[i] <= '9'
}

/// The number a text stands for: decimal digits, one at least, with a plus
/// sign before them or not, that make no more than `most`.
pub open spec fn parsed_number(s: Seq<char>, most: nat) -> Option<nat> {
    let digits = if s.len() > 0 && s[0] == '+' {
        s.skip(1)
    } else {
        s
    };
    if digits.len() > 0 && all_digits(digits) && number(digits) <= most {
        Some(number(digits))
    } else {
        None
    }
}

proof fn lemma_number_prefix(s: Seq<char>, n: int)
    requires
        0 <= n <= s.len(),
    ensures
        number(s.take(n)) <= number(s),
    decreases s.len() - n,
{
    if n < s.len() {
        lemma_number_prefix(s, n + 1);
        assert(s.take(n + 1).drop_last() =~= s.take(n));
    } else {
        assert(s.take(n) =~= s);
    }
}

/// The number a text stands for.
pub fn number_of(v: &Vec<char>) -> (r: Option<usize>)
    ensures
        match r {
            Some(n) => parsed_number(v@, usize::MAX as nat) == Some(n as nat),
            None => parsed_number(v@, usize::MAX as nat) is None,
        },
{
    let start: usize = if v.len() > 0 && v[0] == '+' {
        1
    } else {
        0
    };
    let digits = part(v, start, v.len());
    assert(digits@ =~= if start == 1 {
        v@.skip(1)
    } else {
        v@
    });
    if digits.len() == 0 {
        return None;
    }
    let mut n: usize = 0;
    let mut i: usize = 0;
    assert(digits@.take(0) =~= Seq::<char>::empty());
    while i < digits.len()
        invariant
            i <= digits@.len(),
            digits@.len() > 0,
            digits@ == (if v@.len() > 0 && v@[0] == '+' {
                v@.skip(1)
            } else {
                v@
            }),
            n == number(digits@.take(i as int)),
            forall|k: int| 0 <= k < i ==> '0' <= #[trigger] digits@[k] <= '9',
        decreases digits@.len() - i,
    {
        let c = digits[i];
        if !('0' <= c && c <= '9') {
            assert(!all_digits(digits@));
            return None;
        }
        let d: usize = (c as u32 - 48) as usize;
        proof {
            assert(digits@.take(i + 1).drop_last() =~= digits@.take(i as int));
            lemma_number_prefix(digits@, i + 1);
        }
        if n > (usize::MAX - d) / 10 {
            return None;
        }
        n = n * 10 + d;
        i = i + 1;
    }
    assert(digits@.take(i as int) =~= digits@);
    Some(n)
}

} // verus!
