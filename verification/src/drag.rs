//! Moving a whole set of frames at once.

use vstd::prelude::*;

use crate::arrange::spliced;
use crate::document::{DocView, Document};
use crate::model::Overlay;
use crate::moving::{copies, place_after, relocated};
use crate::moving_laws::{law_move_keeps_soundness, law_move_leaves_other_frames_alone, tally};
use crate::scope::{ascending, lemma_ascending, picks, sorted_below};

verus! {

/// A sequence without the items at the places `picked`, in ascending order.
pub open spec fn removed_all<A>(s: Seq<A>, picked: Seq<usize>) -> Seq<A>
    decreases picked.len(),
{
    if picked.len() == 0 {
        s
    } else {
        removed_all(s, picked.drop_first()).remove(picked[0] as int)
    }
}

/// The items at the places `picked`.
pub open spec fn items_at<A>(s: Seq<A>, picked: Seq<usize>) -> Seq<A> {
    Seq::new(picked.len(), |k: int| s[picked[k] as int])
}

/// Ascending places below `n`.
pub open spec fn places(picked: Seq<usize>, n: nat) -> bool {
    &&& forall|a: int, b: int| 0 <= a < b < picked.len() ==> picked[a] < picked[b]
    &&& forall|a: int| 0 <= a < picked.len() ==> #[trigger] picked[a] < n
}

/// How many of the picked frames, from `j` on, move towards the end to reach
/// a run that starts at `to`. They are the first ones.
pub open spec fn ahead(picked: Seq<usize>, to: int, j: int) -> int
    decreases picked.len() - j,
{
    if 0 <= j < picked.len() && picked[j] < to + j {
        ahead(picked, to, j + 1)
    } else {
        j
    }
}

/// Which of the picked frames hop `t` moves: those that move towards the end
/// go last one first, so that none is in another's way, then the others in
/// order.
pub open spec fn hop(picked: Seq<usize>, to: int, t: int) -> int {
    let j = ahead(picked, to, 0);
    if t < j {
        j - 1 - t
    } else {
        t
    }
}

impl DocView {
    /// The document after the first `t` hops of moving the picked frames to a
    /// run that starts at `to`. Each hop is a plain frame move.
    pub open spec fn hopped(self, picked: Seq<usize>, to: int, t: nat) -> DocView
        decreases t,
    {
        if t == 0 {
            self
        } else {
            let k = hop(picked, to, t - 1);
            self.hopped(picked, to, (t - 1) as nat).frame_moved(picked[k] as int, to + k)
        }
    }

    /// The document with the frames at `picked` moved to a run that starts at
    /// `to`.
    pub open spec fn set_moved(self, picked: Seq<usize>, to: int) -> DocView {
        if picked.len() == 0 || to >= self.frames.len() {
            self
        } else {
            self.hopped(picked, to, picked.len())
        }
    }
}

/// `ahead` stops at the first frame that does not move towards the end, and
/// after it none does.
pub proof fn lemma_ahead(picked: Seq<usize>, to: int, j: int, n: nat)
    requires
        places(picked, n),
        0 <= j <= picked.len(),
    ensures
        j <= ahead(picked, to, j) <= picked.len(),
        forall|k: int| j <= k < ahead(picked, to, j) ==> #[trigger] picked[k] < to + k,
        forall|k: int|
            ahead(picked, to, j) <= k < picked.len() ==> #[trigger] picked[k] >= to + k,
    decreases picked.len() - j,
{
    if j < picked.len() && picked[j] < to + j {
        lemma_ahead(picked, to, j + 1, n);
    } else if j < picked.len() {
        assert forall|k: int| j <= k < picked.len() implies #[trigger] picked[k] >= to + k by {
            lemma_spread(picked, j, k, n);
        }
    }
}

/// Ascending places are at least as far apart as their ranks.
pub proof fn lemma_spread(picked: Seq<usize>, a: int, b: int, n: nat)
    requires
        places(picked, n),
        0 <= a <= b < picked.len(),
    ensures
        picked[b] - picked[a] >= b - a,
    decreases b - a,
{
    if a < b {
        lemma_spread(picked, a, b - 1, n);
        assert(picked[b - 1] < picked[b]);
    }
}

/// Taking the later places out leaves what is before them where it was.
pub proof fn lemma_removed_all<A>(s: Seq<A>, picked: Seq<usize>)
    requires
        places(picked, s.len()),
    ensures
        removed_all(s, picked).len() == s.len() - picked.len(),
        forall|i: int|
            0 <= i < removed_all(s, picked).len() && (picked.len() == 0 || i < picked[0])
                ==> #[trigger] removed_all(s, picked)[i] == s[i],
        picked.len() > 0 ==> picked[0] <= s.len() - picked.len(),
    decreases picked.len(),
{
    if picked.len() > 0 {
        let rest = picked.drop_first();
        assert forall|a: int, b: int| 0 <= a < b < rest.len() implies rest[a] < rest[b] by {
            assert(picked[a + 1] < picked[b + 1]);
        }
        assert forall|a: int| 0 <= a < rest.len() implies #[trigger] rest[a] < s.len() by {
            assert(picked[a + 1] < s.len());
        }
        lemma_removed_all(s, rest);
        lemma_spread(picked, 0, picked.len() - 1, s.len());
        if rest.len() > 0 {
            assert(picked[0] < picked[1]);
        }
    }
}

/// Taking one more place out, past the others.
pub proof fn lemma_removed_push<A>(s: Seq<A>, picked: Seq<usize>, x: usize)
    requires
        places(picked.push(x), s.len()),
    ensures
        removed_all(s, picked.push(x)) == removed_all(s, picked).remove(x - picked.len()),
        0 <= x - picked.len() < removed_all(s, picked).len(),
        removed_all(s, picked)[x - picked.len()] == s[x as int],
        removed_all(s, picked).len() == s.len() - picked.len(),
    decreases picked.len(),
{
    let all = picked.push(x);
    if picked.len() == 0 {
        assert(all.drop_first() =~= Seq::<usize>::empty());
        assert(all[0] == x);
        assert(removed_all(s, all.drop_first()) == s);
    } else {
        let rest = picked.drop_first();
        assert(all.drop_first() =~= rest.push(x));
        assert forall|a: int, b: int| 0 <= a < b < rest.push(x).len() implies rest.push(x)[a]
            < rest.push(x)[b] by {
            assert(all[a + 1] < all[b + 1]);
        }
        assert forall|a: int| 0 <= a < rest.push(x).len() implies #[trigger] rest.push(x)[a]
            < s.len() by {
            assert(all[a + 1] < s.len());
        }
        assert(places(picked, s.len())) by {
            assert forall|a: int, b: int| 0 <= a < b < picked.len() implies picked[a]
                < picked[b] by {
                assert(all[a] < all[b]);
            }
            assert forall|a: int| 0 <= a < picked.len() implies #[trigger] picked[a] < s.len() by {
                assert(all[a] < s.len());
            }
        }
        lemma_removed_push(s, rest, x);
        lemma_removed_all(s, picked);
        lemma_spread(all, 0, all.len() - 1, s.len());
        let r = removed_all(s, rest);
        let p = picked[0] as int;
        assert(all[0] < all[all.len() - 1]);
        assert(x - rest.len() > p);
        assert(r.remove(x - rest.len()).remove(p) =~= r.remove(p).remove(x - picked.len()));
        assert(all[0] == picked[0]);
    }
}

/// A hop towards the end, in front of the run.
proof fn lemma_step_ahead<A>(l: Seq<A>, run: Seq<A>, p: int, q: int)
    requires
        0 <= p < q < l.len(),
    ensures
        relocated(spliced(l, q + 1, run), p, q) == spliced(l.remove(p), q, seq![l[p]] + run),
        spliced(l, q + 1, run)[p] == l[p],
{
    assert(relocated(spliced(l, q + 1, run), p, q) =~= spliced(
        l.remove(p),
        q,
        seq![l[p]] + run,
    ));
}

/// A hop towards the start, to the end of the run.
proof fn lemma_step_back<A>(l: Seq<A>, run: Seq<A>, to: int, x: int)
    requires
        0 <= to,
        to + run.len() <= x < l.len() + run.len(),
    ensures
        relocated(spliced(l, to, run), x, to + run.len()) == spliced(
            l.remove(x - run.len()),
            to,
            run.push(l[x - run.len()]),
        ),
{
    assert(relocated(spliced(l, to, run), x, to + run.len()) =~= spliced(
        l.remove(x - run.len()),
        to,
        run.push(l[x - run.len()]),
    ));
}

/// The frames while the first hops run: the picked frames from `c` to the
/// ones that move towards the end already stand in their run.
proof fn lemma_hops_ahead(doc: DocView, picked: Seq<usize>, to: int, t: nat)
    requires
        places(picked, doc.frames.len()),
        0 <= to,
        to + picked.len() <= doc.frames.len(),
        t <= ahead(picked, to, 0),
    ensures
        ({
            let j = ahead(picked, to, 0);
            let part = picked.subrange(j - t, j);
            doc.hopped(picked, to, t).frames == spliced(
                removed_all(doc.frames, part),
                to + j - t,
                items_at(doc.frames, part),
            )
        }),
    decreases t,
{
    let n = doc.frames.len();
    let j = ahead(picked, to, 0);
    lemma_ahead(picked, to, 0, n);
    let part = picked.subrange(j - t, j);
    if t == 0 {
        assert(part =~= Seq::<usize>::empty());
        assert(spliced(doc.frames, to + j, items_at(doc.frames, part)) =~= doc.frames);
    } else {
        lemma_hops_ahead(doc, picked, to, (t - 1) as nat);
        let old_part = picked.subrange(j - t + 1, j);
        let before = doc.hopped(picked, to, (t - 1) as nat).frames;
        let k = hop(picked, to, t - 1);
        assert(k == j - t);
        assert(part.drop_first() =~= old_part);
        assert(part[0] == picked[k]);
        assert(picked[k] < to + k);
        lemma_removed_all(doc.frames, old_part);
        lemma_removed_all(doc.frames, part);
        let l = removed_all(doc.frames, old_part);
        let run = items_at(doc.frames, old_part);
        if t > 1 {
            assert(old_part[0] == picked[k + 1]);
        }
        lemma_step_ahead(l, run, picked[k] as int, to + k);
        assert(seq![l[picked[k] as int]] + run =~= items_at(doc.frames, part));
    }
}

/// The frames while the other hops run: the first `t` picked frames stand in
/// their run.
proof fn lemma_hops_back(doc: DocView, picked: Seq<usize>, to: int, t: nat)
    requires
        places(picked, doc.frames.len()),
        0 <= to,
        to + picked.len() <= doc.frames.len(),
        ahead(picked, to, 0) <= t <= picked.len(),
    ensures
        doc.hopped(picked, to, t).frames == spliced(
            removed_all(doc.frames, picked.take(t as int)),
            to,
            items_at(doc.frames, picked.take(t as int)),
        ),
    decreases t,
{
    let n = doc.frames.len();
    let j = ahead(picked, to, 0);
    lemma_ahead(picked, to, 0, n);
    if t == j {
        lemma_hops_ahead(doc, picked, to, t);
        assert(picked.subrange(0, j) =~= picked.take(t as int));
    } else {
        lemma_hops_back(doc, picked, to, (t - 1) as nat);
        let d = t - 1;
        let part = picked.take(d);
        let x = picked[d];
        assert(hop(picked, to, d) == d);
        assert(picked.take(t as int) =~= part.push(x));
        lemma_removed_push(doc.frames, part, x);
        let before = doc.hopped(picked, to, d as nat).frames;
        let l = removed_all(doc.frames, part);
        assert(x >= to + d);
        let run = items_at(doc.frames, part);
        lemma_step_back(l, run, to, x as int);
        assert(run.push(l[x - d]) =~= items_at(doc.frames, part.push(x)));
        if x == to + d {
            assert(relocated(before, x as int, to + d) =~= before);
        }
    }
}

/// The picked frames keep their order and land together at `to`; the rest
/// close up.
pub proof fn law_set_lands_as_one_run(doc: DocView, picked: Seq<usize>, to: int)
    requires
        places(picked, doc.frames.len()),
        0 <= to,
        to + picked.len() <= doc.frames.len(),
        picked.len() > 0,
    ensures
        doc.set_moved(picked, to).frames == spliced(
            removed_all(doc.frames, picked),
            to,
            items_at(doc.frames, picked),
        ),
{
    lemma_ahead(picked, to, 0, doc.frames.len());
    lemma_hops_back(doc, picked, to, picked.len());
    assert(picked.take(picked.len() as int) =~= picked);
}

/// A hop adds as many overlays as lie on the frame it moves, at most.
proof fn lemma_copies_tally(overlays: Seq<Overlay>, from: int, to: int, next_id: int)
    ensures
        copies(overlays, from, to, next_id).len() <= tally(overlays, from, |o: Overlay| true),
        tally(overlays, from, |o: Overlay| true) <= overlays.len(),
    decreases overlays.len(),
{
    if overlays.len() > 0 {
        lemma_copies_tally(overlays.drop_last(), from, to, next_id);
    }
}

/// Each hop moves a frame from its old index, and adds no more overlays than
/// the document had.
pub proof fn lemma_hops(doc: DocView, picked: Seq<usize>, to: int, t: nat)
    requires
        places(picked, doc.frames.len()),
        0 <= to,
        t <= picked.len(),
        doc.ids_sound(),
        doc.ranges_sound(),
        doc.frames.len() < usize::MAX,
        doc.next_id + (2 * picked.len() + 1) * doc.overlays.len() <= u32::MAX,
    ensures
        ({
            let now = doc.hopped(picked, to, t);
            &&& now.ids_sound()
            &&& now.ranges_sound()
            &&& now.frames.len() == doc.frames.len()
            &&& now.next_id <= doc.next_id + t * doc.overlays.len()
            &&& now.overlays.len() <= (t + 1) * doc.overlays.len()
            &&& t < picked.len() ==> now.next_id + now.overlays.len() <= u32::MAX
            &&& forall|k: int|
                0 <= k < picked.len() && waits(picked, to, t as int, k) ==> tally(
                    now.overlays,
                    #[trigger] picked[k] as int,
                    |o: Overlay| true,
                ) == tally(doc.overlays, picked[k] as int, |o: Overlay| true)
        }),
    decreases t,
{
    let count = doc.overlays.len() as int;
    let m = picked.len() as int;
    let all = |o: Overlay| true;
    lemma_ahead(picked, to, 0, doc.frames.len());
    if t > 0 {
        let before = doc.hopped(picked, to, (t - 1) as nat);
        let now = doc.hopped(picked, to, t);
        lemma_hops(doc, picked, to, (t - 1) as nat);
        let k = hop(picked, to, t - 1);
        let (from, target) = (picked[k] as int, to + k);
        assert(waits(picked, to, t - 1, k));
        law_move_keeps_soundness(before, from, target);
        lemma_copies_tally(before.overlays, from, target, before.next_id as int);
        lemma_copies_tally(doc.overlays, from, target, 0);
        assert((t - 1) * count + count == t * count) by (nonlinear_arith);
        assert(t * count + count == (t + 1) * count) by (nonlinear_arith);
        if before.can_move(from, target) {
            let carried = before.carried_overlays(from, target);
            assert(now.overlays.len() <= carried.len()) by {
                lemma_coalesced_len(carried, 0);
            }
        }
        assert forall|i: int| 0 <= i < picked.len() && waits(picked, to, t as int, i) implies tally(
            now.overlays,
            #[trigger] picked[i] as int,
            all,
        ) == tally(doc.overlays, picked[i] as int, all) by {
            assert(waits(picked, to, t - 1, i));
            assert(i != k);
            if i < k {
                assert(picked[i] < picked[k]);
            } else {
                assert(picked[k] < picked[i]);
            }
            if before.can_move(from, target) {
                law_move_leaves_other_frames_alone(before, from, target, picked[i] as int, all);
                assert(place_after(picked[i] as int, from, target) == picked[i]);
            }
        }
    } else {
        assert(0 * count == 0 && 1 * count == count) by (nonlinear_arith);
    }
    if t < m {
        assert(t * count + (t + 1) * count <= (2 * m + 1) * count) by (nonlinear_arith)
            requires
                t < m,
                0 <= t,
                0 <= count,
        ;
    }
}

/// Moving a set of frames keeps a sound document sound.
pub proof fn law_set_move_keeps_soundness(doc: DocView, picked: Seq<usize>, to: int)
    requires
        places(picked, doc.frames.len()),
        0 <= to,
        doc.ids_sound(),
        doc.ranges_sound(),
        doc.frames.len() < usize::MAX,
        doc.next_id + (2 * picked.len() + 1) * doc.overlays.len() <= u32::MAX,
    ensures
        doc.set_moved(picked, to).ids_sound(),
        doc.set_moved(picked, to).ranges_sound(),
        doc.set_moved(picked, to).frames.len() == doc.frames.len(),
{
    lemma_hops(doc, picked, to, picked.len());
}

/// Whether picked frame `k` is still to be moved after `t` hops.
pub open spec fn waits(picked: Seq<usize>, to: int, t: int, k: int) -> bool {
    let j = ahead(picked, to, 0);
    if t < j {
        k < j - t || k >= j
    } else {
        k >= t
    }
}

proof fn lemma_coalesced_len(overlays: Seq<Overlay>, i: int)
    ensures
        crate::merge::coalesced(overlays, i).len() <= overlays.len(),
    decreases overlays.len(), overlays.len() - i,
{
    if 0 <= i < overlays.len() {
        let j = crate::merge::partner(overlays, i, 0);
        if 0 <= j < overlays.len() {
            lemma_coalesced_len(crate::merge::folded(overlays, i, j), i);
        } else {
            lemma_coalesced_len(overlays, i + 1);
        }
    }
}

impl DocView {
    /// The frames `move_frames_to` moves.
    pub open spec fn picked_frames(self, picked: Seq<usize>) -> Seq<usize> {
        ascending(self.frames.len(), |i: int| picks(picked, i))
    }
}

impl Document {
    /// Reorder a whole set of frames at once: pull every index in `picked`
    /// out (their order among themselves is kept) and reinsert them as one
    /// contiguous run at `to`, an index into the list with `picked` already
    /// removed. Each hop is a plain `move_frame`, so overlays carry along and
    /// re-coalesce exactly the way a single-frame move already handles them.
    pub fn move_frames_to(&mut self, picked: &Vec<usize>, to: usize)
        requires
            old(self)@.ids_sound(),
            old(self)@.ranges_sound(),
            old(self)@.frames.len() < usize::MAX,
            old(self)@.next_id + (2 * old(self)@.picked_frames(picked@).len() + 1)
                * old(self)@.overlays.len() <= u32::MAX,
        ensures
            final(self)@ == old(self)@.set_moved(old(self)@.picked_frames(picked@), to as int),
            ({
                let doc = old(self)@;
                let set = doc.picked_frames(picked@);
                set.len() > 0 && to + set.len() <= doc.frames.len() ==> final(self)@.frames
                    == spliced(removed_all(doc.frames, set), to as int, items_at(doc.frames, set))
            }),
    {
        let n: usize = self.frames.len();
        let set = sorted_below(picked, n);
        let ghost doc = old(self)@;
        proof {
            lemma_ascending(n as nat, |i: int| picks(picked@, i));
            assert(places(set@, doc.frames.len()));
            if set@.len() > 0 && to + set@.len() <= n {
                law_set_lands_as_one_run(doc, set@, to as int);
            }
        }
        if set.len() == 0 || to >= n {
            return ;
        }
        let count: usize = set.len();
        let mut j: usize = 0;
        while j < count && set[j] - j < to
            invariant
                j <= count,
                count == set@.len(),
                places(set@, n as nat),
                ahead(set@, to as int, 0) == ahead(set@, to as int, j as int),
                j < count ==> set@[j as int] >= j,
            decreases count - j,
        {
            j = j + 1;
            proof {
                if j < count {
                    lemma_spread(set@, 0, j as int, n as nat);
                }
            }
        }
        let mut t: usize = 0;
        while t < count
            invariant
                t <= count,
                count == set@.len(),
                j == ahead(set@, to as int, 0),
                j <= count,
                n == doc.frames.len(),
                doc == old(self)@,
                places(set@, n as nat),
                to < n < usize::MAX,
                doc.ids_sound(),
                doc.ranges_sound(),
                doc.next_id + (2 * set@.len() + 1) * doc.overlays.len() <= u32::MAX,
                self@ == doc.hopped(set@, to as int, t as nat),
            decreases count - t,
        {
            proof {
                lemma_hops(doc, set@, to as int, t as nat);
                lemma_spread(set@, 0, count - 1, n as nat);
            }
            let k: usize = if t < j {
                j - 1 - t
            } else {
                t
            };
            if to < n - k {
                self.move_frame(set[k], to + k);
            } else {
                assert(!self@.can_move(set@[k as int] as int, to + k));
            }
            t = t + 1;
        }
    }
}

} // verus!
