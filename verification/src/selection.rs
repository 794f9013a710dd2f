//! Picking frames in the strip, and where a picked set goes.

use std::ops::Range;

use vstd::prelude::*;

use crate::drag::{places, removed_all};
use crate::scope::picks;

verus! {

/// Strictly ascending: a set of frames, in strip order.
pub open spec fn rising(s: Seq<usize>) -> bool {
    forall|a: int, b: int| 0 <= a < b < s.len() ==> s[a] < s[b]
}

/// How many of the frames come before `gap`.
pub open spec fn count_below(picked: Seq<usize>, gap: int) -> nat
    decreases picked.len(),
{
    if picked.len() == 0 {
        0
    } else {
        count_below(picked.drop_last(), gap) + if picked.last() < gap {
            1nat
        } else {
            0
        }
    }
}

/// Of a strictly ascending set, those before `gap` are the first ones, and no
/// more than there are places before it.
pub proof fn lemma_count_below(picked: Seq<usize>, gap: int)
    requires
        rising(picked),
        0 <= gap,
    ensures
        count_below(picked, gap) <= picked.len(),
        count_below(picked, gap) <= gap,
        forall|k: int| 0 <= k < picked.len() ==> (#[trigger] picked[k] < gap <==> k < count_below(
            picked,
            gap,
        )),
    decreases picked.len(),
{
    if picked.len() > 0 {
        let before = picked.drop_last();
        let last = picked.last();
        assert(rising(before)) by {
            assert forall|a: int, b: int| 0 <= a < b < before.len() implies before[a] < before[b] by {
                assert(picked[a] < picked[b]);
            }
        }
        lemma_count_below(before, gap);
        assert forall|k: int| 0 <= k < picked.len() implies (#[trigger] picked[k] < gap <==> k
            < count_below(picked, gap)) by {
            if k < before.len() {
                assert(before[k] == picked[k]);
                assert(picked[k] < picked[picked.len() - 1]);
            }
            if last < gap && before.len() > 0 {
                assert(before[before.len() - 1] == picked[picked.len() - 2]);
                assert(picked[picked.len() - 2] < picked[picked.len() - 1]);
            }
        }
        if last < gap {
            lemma_rising_from(picked, 0, picked.len() - 1);
        }
    }
}

/// A strictly ascending set climbs by at least one a place.
pub proof fn lemma_rising_from(s: Seq<usize>, a: int, b: int)
    requires
        rising(s),
        0 <= a <= b < s.len(),
    ensures
        s[b] >= s[a] + (b - a),
    decreases b - a,
{
    if a < b {
        lemma_rising_from(s, a, b - 1);
        assert(s[b - 1] < s[b]);
    }
}

/// Ctrl+click: add or remove one frame, wherever it sits. The result need not
/// be a run, which is the whole difference from Shift.
pub fn toggle_frame(selection: &mut Vec<usize>, frame: usize)
    requires
        rising(old(selection)@),
    ensures
        rising(final(selection)@),
        forall|i: int| #[trigger]
            picks(final(selection)@, i) == if i == frame {
                !picks(old(selection)@, i)
            } else {
                picks(old(selection)@, i)
            },
{
    let ghost before = selection@;
    let mut at: usize = 0;
    while at < selection.len() && selection[at] < frame
        invariant
            selection@ == before,
            at <= before.len(),
            forall|k: int| 0 <= k < at ==> #[trigger] before[k] < frame,
        decreases before.len() - at,
    {
        at = at + 1;
    }
    if at < selection.len() && selection[at] == frame {
        selection.remove(at);
        proof {
            lemma_toggled_off(before, at as int);
        }
    } else {
        selection.insert(at, frame);
        proof {
            lemma_toggled_on(before, at as int, frame);
        }
    }
}

proof fn lemma_toggled_off(before: Seq<usize>, at: int)
    requires
        rising(before),
        0 <= at < before.len(),
    ensures
        rising(before.remove(at)),
        forall|i: int| #[trigger]
            picks(before.remove(at), i) == (picks(before, i) && i != before[at]),
{
    let after = before.remove(at);
    assert forall|i: int| #[trigger] picks(after, i) == (picks(before, i) && i != before[at]) by {
        if picks(after, i) {
            let k = choose|k: int| 0 <= k < after.len() && #[trigger] after[k] == i;
            if k < at {
                assert(before[k] == i);
            } else {
                assert(before[k + 1] == i);
            }
        }
        if picks(before, i) && i != before[at] {
            let k = choose|k: int| 0 <= k < before.len() && #[trigger] before[k] == i;
            if k < at {
                assert(after[k] == i);
            } else {
                assert(after[k - 1] == i);
            }
        }
    }
}

proof fn lemma_toggled_on(before: Seq<usize>, at: int, frame: usize)
    requires
        rising(before),
        0 <= at <= before.len(),
        forall|k: int| 0 <= k < at ==> #[trigger] before[k] < frame,
        at < before.len() ==> before[at] > frame,
    ensures
        rising(before.insert(at, frame)),
        !picks(before, frame as int),
        forall|i: int| #[trigger]
            picks(before.insert(at, frame), i) == (picks(before, i) || i == frame),
{
    let after = before.insert(at, frame);
    assert forall|k: int| at <= k < before.len() implies before[k] > frame by {
        if k > at {
            assert(before[at] < before[k]);
        }
    }
    assert(rising(after)) by {
        assert forall|a: int, b: int| 0 <= a < b < after.len() implies after[a] < after[b] by {
            let x = if a < at {
                a
            } else {
                a - 1
            };
            let y = if b < at {
                b
            } else {
                b - 1
            };
            if a != at && b != at {
                assert(before[x] < before[y]);
            }
        }
    }
    assert forall|i: int| #[trigger] picks(after, i) == (picks(before, i) || i == frame) by {
        assert(after[at] == frame);
        if picks(after, i) {
            let k = choose|k: int| 0 <= k < after.len() && #[trigger] after[k] == i;
            if k < at {
                assert(before[k] == i);
            } else if k > at {
                assert(before[k - 1] == i);
            }
        }
        if picks(before, i) {
            let k = choose|k: int| 0 <= k < before.len() && #[trigger] before[k] == i;
            if k < at {
                assert(after[k] == i);
            } else {
                assert(after[k + 1] == i);
            }
        }
    }
}

/// Two strictly ascending sets of the same frames are the same.
pub proof fn lemma_same_set(a: Seq<usize>, b: Seq<usize>)
    requires
        rising(a),
        rising(b),
        forall|i: int| picks(a, i) == #[trigger] picks(b, i),
    ensures
        a == b,
    decreases a.len(),
{
    if a.len() == 0 {
        if b.len() > 0 {
            assert(picks(b, b[0] as int));
        }
        assert(a =~= b);
    } else {
        assert(picks(a, a.last() as int));
        assert(picks(b, a.last() as int));
        let k = choose|k: int| 0 <= k < b.len() && #[trigger] b[k] == a.last();
        assert(picks(b, b.last() as int));
        assert(picks(a, b.last() as int));
        let j = choose|j: int| 0 <= j < a.len() && #[trigger] a[j] == b.last();
        assert(a.last() == b.last()) by {
            if k < b.len() - 1 {
                assert(b[k] < b[b.len() - 1]);
            }
            if j < a.len() - 1 {
                assert(a[j] < a[a.len() - 1]);
            }
        }
        assert(a.drop_last() =~= a.remove(a.len() - 1));
        assert(b.drop_last() =~= b.remove(b.len() - 1));
        lemma_toggled_off(a, a.len() - 1);
        lemma_toggled_off(b, b.len() - 1);
        assert forall|i: int| picks(a.drop_last(), i) == #[trigger] picks(b.drop_last(), i) by {
            assert(picks(a, i) == picks(b, i));
        }
        lemma_same_set(a.drop_last(), b.drop_last());
        assert(a =~= a.drop_last().push(a.last()));
        assert(b =~= b.drop_last().push(b.last()));
    }
}

/// Ctrl+clicking the same frame twice leaves the selection as it was: where
/// `once` toggles `frame` in `before` and `twice` toggles it in `once`,
/// `twice` is `before`.
pub proof fn law_toggle_twice(
    before: Seq<usize>,
    once: Seq<usize>,
    twice: Seq<usize>,
    frame: usize,
)
    requires
        rising(before),
        rising(once),
        rising(twice),
        forall|i: int| #[trigger]
            picks(once, i) == if i == frame {
                !picks(before, i)
            } else {
                picks(before, i)
            },
        forall|i: int| #[trigger]
            picks(twice, i) == if i == frame {
                !picks(once, i)
            } else {
                picks(once, i)
            },
    ensures
        twice == before,
{
    assert forall|i: int| picks(twice, i) == #[trigger] picks(before, i) by {
        assert(picks(once, i) == if i == frame {
            !picks(before, i)
        } else {
            picks(before, i)
        });
    }
    lemma_same_set(twice, before);
}

/// The frames from `lo` on, `count` of them.
pub open spec fn run_of(lo: int, count: int) -> Seq<usize> {
    Seq::new(count as nat, |k: int| (lo + k) as usize)
}

/// The frames from the smaller of the two to the larger.
pub open spec fn run(anchor: int, frame: int) -> Seq<usize> {
    if anchor <= frame {
        run_of(anchor, frame - anchor + 1)
    } else {
        run_of(frame, anchor - frame + 1)
    }
}

/// The frames from `lo` on, `count` of them.
pub fn frames_from(lo: usize, count: usize) -> (r: Vec<usize>)
    requires
        lo + count <= usize::MAX,
    ensures
        r@ == run_of(lo as int, count as int),
        rising(r@),
{
    let mut r: Vec<usize> = Vec::new();
    let mut k: usize = 0;
    while k < count
        invariant
            k <= count,
            lo + count <= usize::MAX,
            r@ == run_of(lo as int, k as int),
        decreases count - k,
    {
        r.push(lo + k);
        k = k + 1;
        assert(r@ =~= run_of(lo as int, k as int));
    }
    r
}

/// Shift+click: the run between the anchor and here, in either direction.
pub fn run_between(anchor: usize, frame: usize) -> (r: Vec<usize>)
    requires
        anchor < usize::MAX,
        frame < usize::MAX,
    ensures
        r@ == run(anchor as int, frame as int),
        rising(r@),
{
    if anchor <= frame {
        frames_from(anchor, frame - anchor + 1)
    } else {
        frames_from(frame, anchor - frame + 1)
    }
}

/// A Shift+click picks the same run from either end.
pub proof fn law_run_is_the_same_either_way(a: int, b: int)
    ensures
        run(a, b) == run(b, a),
{
    assert(run(a, b) =~= run(b, a));
}

/// Whether `frame` lies in the range.
pub open spec fn lies_in(range: Range<usize>, frame: int) -> bool {
    range.start <= frame < range.end
}

/// Where an overlay edit lands; see `overlay_edit_span`.
pub open spec fn edit_span(
    overlay: Range<usize>,
    scope: Range<usize>,
    playhead: usize,
) -> Range<usize> {
    let start = if overlay.start < scope.start {
        scope.start
    } else {
        overlay.start
    };
    let end = if scope.end < overlay.end {
        scope.end
    } else {
        overlay.end
    };
    if !(start <= playhead < end) && lies_in(overlay, playhead as int) {
        Range { start: playhead, end: (playhead + 1) as usize }
    } else if end <= start {
        Range { start: 0, end: 0 }
    } else {
        Range { start, end }
    }
}

/// The frames an overlay edit lands on: where the scope reaches into the
/// overlay's own range. When the scope does not reach the frame on screen, the
/// frame on screen wins — an edit must land where the user is looking, never
/// somewhere they cannot see. An empty result is the caller's no-op.
pub fn overlay_edit_span(overlay: Range<usize>, scope: Range<usize>, playhead: usize) -> (r: Range<
    usize,
>)
    ensures
        r == edit_span(overlay, scope, playhead),
{
    let start: usize = if overlay.start < scope.start {
        scope.start
    } else {
        overlay.start
    };
    let end: usize = if scope.end < overlay.end {
        scope.end
    } else {
        overlay.end
    };
    if !(start <= playhead && playhead < end) && overlay.start <= playhead && playhead
        < overlay.end {
        return playhead..playhead + 1;
    }
    if end <= start {
        return 0..0;
    }
    start..end
}

/// An edit never lands outside the overlay it is about, and when the overlay
/// is on screen, it lands on the frame on screen.
pub proof fn law_edit_lands_where_the_user_looks(
    overlay: Range<usize>,
    scope: Range<usize>,
    playhead: usize,
)
    ensures
        ({
            let span = edit_span(overlay, scope, playhead);
            &&& forall|i: int| #[trigger] lies_in(span, i) ==> lies_in(overlay, i)
            &&& lies_in(overlay, playhead as int) ==> lies_in(span, playhead as int)
        }),
{
}

/// A move removes the picked frames, which shifts every later index down,
/// then inserts at the target — so where the run actually lands depends on how
/// many picked frames sat before the gap. `gap` names a position between
/// frames as shown before the move; this is the target that puts the run
/// exactly there once `picked` is gone from the list, matching what the
/// divider promised.
pub fn move_target_for_set(picked: &Vec<usize>, gap: usize) -> (r: usize)
    requires
        rising(picked@),
    ensures
        r == gap - count_below(picked@, gap as int),
{
    let mut count: usize = 0;
    let mut k: usize = 0;
    proof {
        lemma_count_below(picked@, gap as int);
    }
    while k < picked.len()
        invariant
            rising(picked@),
            k <= picked@.len(),
            count == count_below(picked@.take(k as int), gap as int),
            count <= k,
        decreases picked@.len() - k,
    {
        assert(picked@.take(k + 1).drop_last() =~= picked@.take(k as int));
        if picked[k] < gap {
            count = count + 1;
        }
        k = k + 1;
    }
    assert(picked@.take(k as int) =~= picked@);
    gap - count
}

/// The gap "nudge the whole selection one slot earlier/later" aims at.
pub open spec fn nudge_gap(picked: Seq<usize>, earlier: bool, frame_count: int) -> Option<int> {
    if picked.len() == 0 {
        None
    } else if earlier {
        if picked[0] > 0 {
            Some(picked[0] - 1)
        } else {
            None
        }
    } else if picked.last() + 1 < frame_count {
        Some(picked.last() + 2)
    } else {
        None
    }
}

/// The gap "nudge the whole selection one slot earlier/later" aims at: just
/// before the unselected frame preceding it, or just after the one
/// following it — swapping the block with that neighbour. `None` when the
/// selection already sits against that edge, or names every frame and
/// leaves nothing to swap with. `picked` must be sorted.
pub fn selection_nudge_gap(picked: &Vec<usize>, earlier: bool, frame_count: usize) -> (r: Option<
    usize,
>)
    ensures
        match r {
            Some(gap) => nudge_gap(picked@, earlier, frame_count as int) == Some(gap as int),
            None => nudge_gap(picked@, earlier, frame_count as int) is None,
        },
{
    if picked.len() == 0 {
        return None;
    }
    let first: usize = picked[0];
    let last: usize = picked[picked.len() - 1];
    if earlier {
        if first > 0 {
            Some(first - 1)
        } else {
            None
        }
    } else if frame_count > 0 && last < frame_count - 1 {
        Some(last + 2)
    } else {
        None
    }
}

/// How many frames before `gap` are not picked is where the run lands among
/// them: the frames before the divider stay before it, and those after it stay
/// after.
pub proof fn law_set_lands_at_the_divider<A>(frames: Seq<A>, picked: Seq<usize>, gap: int)
    requires
        places(picked, frames.len()),
        0 <= gap <= frames.len(),
    ensures
        ({
            let to = gap - count_below(picked, gap);
            let stay = removed_all(frames, picked);
            &&& 0 <= to
            &&& to + picked.len() <= frames.len()
            &&& stay.take(to) == removed_all(frames.take(gap), picked.take(
                count_below(picked, gap) as int,
            ))
        }),
{
    let n = count_below(picked, gap) as int;
    assert(rising(picked));
    lemma_count_below(picked, gap);
    lemma_removed_prefix(frames, picked, gap, n);
    lemma_room_after(picked, frames.len(), gap, n);
}

/// A frame that is not picked stands, among those that stay, after as many as
/// stay before it.
pub proof fn law_the_rest_close_up<A>(frames: Seq<A>, picked: Seq<usize>, p: int)
    requires
        places(picked, frames.len()),
        0 <= p < frames.len(),
        frames.len() <= usize::MAX,
        !picks(picked, p),
    ensures
        0 <= p - count_below(picked, p) < frames.len() - picked.len(),
        removed_all(frames, picked).len() == frames.len() - picked.len(),
        removed_all(frames, picked)[p - count_below(picked, p)] == frames[p],
{
    let n = count_below(picked, p) as int;
    let m = count_below(picked, p + 1) as int;
    assert(rising(picked));
    lemma_count_below(picked, p);
    lemma_count_below(picked, p + 1);
    if m < n {
        assert(picked[m] < p);
    }
    if n < m {
        assert(picked[n] < p + 1);
        assert(picked[n] == p);
    }
    law_set_lands_at_the_divider(frames, picked, p + 1);
    lemma_removed_prefix(frames, picked, p + 1, n);
    let (head, prefix) = (frames.take(p + 1), picked.take(n));
    let all = prefix.push(p as usize);
    assert(places(all, head.len())) by {
        assert forall|a: int, b: int| 0 <= a < b < all.len() implies all[a] < all[b] by {
            assert(picked[a] < p);
        }
        assert forall|a: int| 0 <= a < all.len() implies #[trigger] all[a] < head.len() by {
            if a < n {
                assert(picked[a] < p);
            }
        }
    }
    crate::drag::lemma_removed_push(head, prefix, p as usize);
    let stay = removed_all(frames, picked);
    assert(stay.take(p + 1 - n)[p - n] == head[p]);
}

/// The picked frames past the gap are no more than the frames past it.
proof fn lemma_room_after(picked: Seq<usize>, len: nat, gap: int, n: int)
    requires
        places(picked, len),
        0 <= gap <= len,
        0 <= n <= picked.len(),
        forall|k: int| n <= k < picked.len() ==> #[trigger] picked[k] >= gap,
    ensures
        picked.len() - n <= len - gap,
{
    if n < picked.len() {
        lemma_rising_from(picked, n, picked.len() - 1);
    }
}

/// Removing picked frames from the whole list and then looking at what came
/// before the gap is removing those before the gap from what came before it.
proof fn lemma_removed_prefix<A>(frames: Seq<A>, picked: Seq<usize>, gap: int, n: int)
    requires
        places(picked, frames.len()),
        0 <= gap <= frames.len(),
        0 <= n <= picked.len(),
        n <= gap,
        forall|k: int| 0 <= k < n ==> #[trigger] picked[k] < gap,
        forall|k: int| n <= k < picked.len() ==> #[trigger] picked[k] >= gap,
    ensures
        removed_all(frames, picked).len() == frames.len() - picked.len(),
        removed_all(frames, picked).take(gap - n) == removed_all(frames.take(gap), picked.take(n)),
    decreases picked.len(),
{
    if picked.len() == 0 {
        assert(picked.take(n) =~= picked);
    } else {
        let rest = picked.drop_first();
        let first = picked[0] as int;
        let less = removed_all(frames, rest);
        assert(places(rest, frames.len())) by {
            assert forall|a: int, b: int| 0 <= a < b < rest.len() implies rest[a] < rest[b] by {
                assert(picked[a + 1] < picked[b + 1]);
            }
            assert forall|a: int| 0 <= a < rest.len() implies #[trigger] rest[a] < frames.len() by {
                assert(rest[a] == picked[a + 1]);
            }
        }
        lemma_rising_from(picked, 0, picked.len() - 1);
        assert forall|k: int| 0 <= k < rest.len() implies rest[k] == #[trigger] picked[k + 1] by {}
        let m = if n > 0 {
            n - 1
        } else {
            0
        };
        assert forall|k: int| 0 <= k < m implies #[trigger] rest[k] < gap by {
            assert(picked[k + 1] < gap);
        }
        assert forall|k: int| m <= k < rest.len() implies #[trigger] rest[k] >= gap by {
            assert(picked[k + 1] >= gap);
        }
        lemma_removed_prefix(frames, rest, gap, m);
        if n > 0 {
            lemma_rising_from(picked, 0, n - 1);
            lemma_room_after(picked, frames.len(), gap, n);
            assert(picked[n - 1] < gap);
            assert(picked.take(n).drop_first() =~= rest.take(n - 1));
            assert(less.remove(first).take(gap - n) =~= less.take(gap - n + 1).remove(first));
        } else {
            assert(picked.take(0) =~= rest.take(0));
            assert(first >= gap);
            assert(less.remove(first).take(gap) =~= less.take(gap));
        }
    }
}

/// Nudging a run of frames exchanges it with the frame beside it: the run
/// moves by exactly one place.
pub proof fn law_nudge_moves_a_run_by_one(first: int, count: int, earlier: bool, frame_count: int)
    requires
        0 <= first,
        0 < count,
        first + count <= frame_count <= usize::MAX,
    ensures
        ({
            let picked = run_of(first, count);
            match nudge_gap(picked, earlier, frame_count) {
                Some(gap) => gap - count_below(picked, gap) == if earlier {
                    first - 1
                } else {
                    first + 1
                },
                None => if earlier {
                    first == 0
                } else {
                    first + count == frame_count
                },
            }
        }),
{
    let picked = run_of(first, count);
    assert(rising(picked));
    match nudge_gap(picked, earlier, frame_count) {
        Some(gap) => {
            lemma_count_below(picked, gap);
            let n = count_below(picked, gap) as int;
            if earlier {
                assert(picked[0] == first);
                assert(n == 0);
            } else {
                assert(picked[count - 1] == first + count - 1);
                assert(n == count);
            }
        },
        None => {},
    }
}

/// Whether two bands lie side by side.
pub open spec fn clear_of(a: Range<usize>, b: Range<usize>) -> bool {
    a.end <= b.start || b.end <= a.start
}

/// Whether nothing before band `i` that lies in `row` reaches its frames.
pub open spec fn row_free(ranges: Seq<Range<usize>>, rows: Seq<usize>, i: int, row: int) -> bool {
    forall|j: int|
        0 <= j < i && rows[j] == row ==> clear_of(#[trigger] ranges[j], ranges[i])
}

/// Whether `rows` is the packing of the bands: each lies in the lowest row
/// where nothing already sits over the frames it covers.
pub open spec fn packed(ranges: Seq<Range<usize>>, rows: Seq<usize>) -> bool {
    &&& rows.len() == ranges.len()
    &&& forall|i: int|
        0 <= i < rows.len() ==> row_free(ranges, rows, i, #[trigger] rows[i] as int)
    &&& forall|i: int, row: int|
        0 <= i < rows.len() && 0 <= row < rows[i] ==> !#[trigger] row_free(ranges, rows, i, row)
}

/// Pack overlay bands into rows: each one takes the lowest row where nothing
/// already sits over the frames it covers. Without this an overlay's row was
/// its index in the list, so the tenth overlay drew ten rows down even when the
/// nine below it were nowhere near its frames.
pub fn pack_rows(ranges: &Vec<Range<usize>>) -> (rows: Vec<usize>)
    ensures
        packed(ranges@, rows@),
        forall|i: int| 0 <= i < rows@.len() ==> #[trigger] rows@[i] <= i,
{
    let mut rows: Vec<usize> = Vec::new();
    let mut i: usize = 0;
    while i < ranges.len()
        invariant
            i <= ranges@.len(),
            rows@.len() == i,
            packed(ranges@.take(i as int), rows@),
            forall|k: int| 0 <= k < rows@.len() ==> #[trigger] rows@[k] <= k,
        decreases ranges@.len() - i,
    {
        let mut row: usize = 0;
        while row < i && !fits_in_row(ranges, &rows, i, row)
            invariant
                row <= i,
                i < ranges@.len(),
                rows@.len() == i,
                forall|k: int| 0 <= k < rows@.len() ==> #[trigger] rows@[k] <= k,
                forall|lower: int|
                    0 <= lower < row ==> !#[trigger] row_free(ranges@, rows@, i as int, lower),
            decreases i - row,
        {
            row = row + 1;
        }
        assert(row_free(ranges@, rows@, i as int, row as int));
        let ghost before = rows@;
        rows.push(row);
        proof {
            lemma_packed_one_more(ranges@, before, i as int, row);
        }
        i = i + 1;
    }
    assert(ranges@.take(i as int) =~= ranges@);
    rows
}

fn fits_in_row(ranges: &Vec<Range<usize>>, rows: &Vec<usize>, i: usize, row: usize) -> (r: bool)
    requires
        i < ranges@.len(),
        rows@.len() == i,
    ensures
        r == row_free(ranges@, rows@, i as int, row as int),
{
    let mut j: usize = 0;
    while j < i
        invariant
            j <= i < ranges@.len(),
            rows@.len() == i,
            forall|k: int|
                0 <= k < j && rows@[k] == row ==> clear_of(#[trigger] ranges@[k], ranges@[i as int]),
        decreases i - j,
    {
        if rows[j] == row && !(ranges[j].end <= ranges[i].start || ranges[i].end
            <= ranges[j].start) {
            assert(!clear_of(ranges@[j as int], ranges@[i as int]));
            return false;
        }
        j = j + 1;
    }
    true
}

proof fn lemma_packed_one_more(ranges: Seq<Range<usize>>, rows: Seq<usize>, i: int, row: usize)
    requires
        0 <= i < ranges.len(),
        rows.len() == i,
        packed(ranges.take(i), rows),
        row_free(ranges, rows, i, row as int),
        forall|lower: int| 0 <= lower < row ==> !#[trigger] row_free(ranges, rows, i, lower),
    ensures
        packed(ranges.take(i + 1), rows.push(row)),
{
    let more = ranges.take(i + 1);
    let all = rows.push(row);
    assert forall|k: int, at: int| 0 <= k < i implies #[trigger] row_free(more, all, k, at)
        == row_free(ranges.take(i), rows, k, at) by {
        assert forall|j: int| 0 <= j < k implies more[j] == ranges.take(i)[j] && all[j] == rows[j] by {
        }
        assert(more[k] == ranges.take(i)[k]);
        if row_free(more, all, k, at) {
            assert forall|j: int|
                0 <= j < k && rows[j] == at implies clear_of(
                #[trigger] ranges.take(i)[j],
                ranges.take(i)[k],
            ) by {
                assert(clear_of(more[j], more[k]));
            }
        }
        if row_free(ranges.take(i), rows, k, at) {
            assert forall|j: int| 0 <= j < k && all[j] == at implies clear_of(
                #[trigger] more[j],
                more[k],
            ) by {
                assert(clear_of(ranges.take(i)[j], ranges.take(i)[k]));
            }
        }
    }
    assert forall|at: int| #[trigger] row_free(more, all, i, at) == row_free(ranges, rows, i, at) by {
        if row_free(more, all, i, at) {
            assert forall|j: int| 0 <= j < i && rows[j] == at implies clear_of(
                #[trigger] ranges[j],
                ranges[i],
            ) by {
                assert(clear_of(more[j], more[i]));
            }
        }
        if row_free(ranges, rows, i, at) {
            assert forall|j: int| 0 <= j < i && all[j] == at implies clear_of(
                #[trigger] more[j],
                more[i],
            ) by {
                assert(clear_of(ranges[j], ranges[i]));
            }
        }
    }
    assert forall|k: int| 0 <= k < all.len() implies row_free(more, all, k, #[trigger] all[k] as int) by {
        if k < i {
            assert(row_free(ranges.take(i), rows, k, rows[k] as int));
        }
    }
    assert forall|k: int, at: int| 0 <= k < all.len() && 0 <= at < all[k] implies !#[trigger] row_free(
        more,
        all,
        k,
        at,
    ) by {
        if k < i {
            assert(!row_free(ranges.take(i), rows, k, at));
        }
    }
}

/// Two overlay bands in one row never cover the same frame.
pub proof fn law_bands_in_a_row_lie_apart(
    ranges: Seq<Range<usize>>,
    rows: Seq<usize>,
    i: int,
    j: int,
    frame: int,
)
    requires
        packed(ranges, rows),
        0 <= i < j < rows.len(),
        rows[i] == rows[j],
    ensures
        !(lies_in(ranges[i], frame) && lies_in(ranges[j], frame)),
{
    assert(row_free(ranges, rows, j, rows[j] as int));
    assert(clear_of(ranges[i], ranges[j]));
}

/// The bands have one packing.
pub proof fn law_packing_is_the_only_one(
    ranges: Seq<Range<usize>>,
    a: Seq<usize>,
    b: Seq<usize>,
)
    requires
        packed(ranges, a),
        packed(ranges, b),
    ensures
        a == b,
{
    lemma_same_packing(ranges, a, b, ranges.len() as int);
    assert(a =~= b);
}

proof fn lemma_same_packing(ranges: Seq<Range<usize>>, a: Seq<usize>, b: Seq<usize>, n: int)
    requires
        packed(ranges, a),
        packed(ranges, b),
        0 <= n <= ranges.len(),
    ensures
        forall|i: int| 0 <= i < n ==> a[i] == b[i],
    decreases n,
{
    if n > 0 {
        lemma_same_packing(ranges, a, b, n - 1);
        let i = n - 1;
        assert forall|row: int| #[trigger] row_free(ranges, a, i, row) == row_free(
            ranges,
            b,
            i,
            row,
        ) by {
            if row_free(ranges, a, i, row) {
                assert forall|j: int| 0 <= j < i && b[j] == row implies clear_of(
                    #[trigger] ranges[j],
                    ranges[i],
                ) by {
                    assert(a[j] == b[j]);
                }
            }
            if row_free(ranges, b, i, row) {
                assert forall|j: int| 0 <= j < i && a[j] == row implies clear_of(
                    #[trigger] ranges[j],
                    ranges[i],
                ) by {
                    assert(a[j] == b[j]);
                }
            }
        }
        assert(row_free(ranges, a, i, a[i] as int));
        assert(row_free(ranges, b, i, b[i] as int));
        if a[i] < b[i] {
            assert(!row_free(ranges, b, i, a[i] as int));
        }
        if b[i] < a[i] {
            assert(!row_free(ranges, a, i, b[i] as int));
        }
    }
}

/// How many rows the packed bands take.
pub open spec fn rows_used(rows: Seq<usize>) -> int
    decreases rows.len(),
{
    if rows.len() == 0 {
        0
    } else {
        let before = rows_used(rows.drop_last());
        if rows.last() + 1 > before {
            rows.last() + 1
        } else {
            before
        }
    }
}

pub fn used_rows(rows: &Vec<usize>) -> (r: usize)
    requires
        forall|i: int| 0 <= i < rows@.len() ==> #[trigger] rows@[i] <= i,
    ensures
        r == rows_used(rows@),
        r <= rows@.len(),
{
    let mut r: usize = 0;
    let mut i: usize = 0;
    while i < rows.len()
        invariant
            i <= rows@.len(),
            r <= i,
            r == rows_used(rows@.take(i as int)),
            forall|i: int| 0 <= i < rows@.len() ==> #[trigger] rows@[i] <= i,
        decreases rows@.len() - i,
    {
        assert(rows@.take(i + 1).drop_last() =~= rows@.take(i as int));
        if rows[i] >= r {
            r = rows[i] + 1;
        }
        i = i + 1;
    }
    assert(rows@.take(i as int) =~= rows@);
    r
}

/// Whether the frames of a resized document stay within the limit, in bytes.
pub fn resize_fits_budget(w: u32, h: u32, frames: usize, limit: u64) -> (r: bool)
    ensures
        r == (w * h * 4 <= usize::MAX && w * h * 4 * frames <= usize::MAX && w * h * 4 * frames
            <= limit),
{
    assert(w * h <= 0xffff_ffff * 0xffff_ffff) by (nonlinear_arith)
        requires
            w <= 0xffff_ffff,
            h <= 0xffff_ffff,
    ;
    let bytes: u128 = w as u128 * h as u128 * 4;
    if bytes > usize::MAX as u128 {
        return false;
    }
    assert(bytes * frames <= usize::MAX * usize::MAX) by (nonlinear_arith)
        requires
            bytes <= usize::MAX,
            frames <= usize::MAX,
    ;
    assert(usize::MAX * usize::MAX <= u128::MAX) by (nonlinear_arith)
        requires
            usize::MAX <= 0xffff_ffff_ffff_ffff,
    ;
    let total: u128 = bytes * frames as u128;
    total <= usize::MAX as u128 && total <= limit as u128
}

/// Whether a crop to the box leaves anything of the canvas out.
pub fn crop_changes_canvas(canvas: (u32, u32), rect: (u32, u32, u32, u32)) -> (r: bool)
    ensures
        r == (canvas.0 > 0 && canvas.1 > 0 && !(rect.0 == 0 && rect.1 == 0 && rect.2 >= canvas.0
            && rect.3 >= canvas.1)),
{
    canvas.0 > 0 && canvas.1 > 0 && !(rect.0 == 0 && rect.1 == 0 && rect.2 >= canvas.0 && rect.3
        >= canvas.1)
}

} // verus!
