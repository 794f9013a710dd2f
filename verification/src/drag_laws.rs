//! What a drag of frames does to an overlay that lies on all of them.

use std::ops::Range;

use vstd::prelude::*;

use crate::alike::{alike, lemma_alike_within, lemma_hop_alike, lemma_same_look};
use crate::document::DocView;
use crate::drag::{ahead, hop, lemma_ahead, lemma_hops, lemma_spread, places};
use crate::merge::{coalesced, folded, hull, partner};
use crate::model::{same_look, Overlay};
use crate::moving::{copies, goes_along, only, settled, shifted, splits_off};

verus! {

/// Whether one of the ranges begins where the other ends.
spec fn touch(a: Range<usize>, b: Range<usize>) -> bool {
    a.end == b.start || b.end == a.start
}

/// One overlay has nothing to fold into.
proof fn lemma_fold_one(p: Overlay)
    ensures
        coalesced(seq![p], 0) == seq![p],
{
    let all = seq![p];
    assert(partner(all, 0, 0) == 1) by {
        reveal_with_fuel(partner, 3);
    }
    assert(coalesced(all, 1) == all);
}

/// Two that look the same fold if they touch, into the one with the lower id.
proof fn lemma_fold_two(p: Overlay, q: Overlay)
    requires
        same_look(p, q),
        p.id.0 < q.id.0,
    ensures
        coalesced(seq![p, q], 0) == if touch(p.range, q.range) {
            seq![p.on(hull(p.range, q.range))]
        } else {
            seq![p, q]
        },
{
    let all = seq![p, q];
    lemma_same_look(p, q, p);
    reveal_with_fuel(partner, 4);
    if touch(p.range, q.range) {
        assert(partner(all, 0, 0) == 1);
        let one = p.on(hull(p.range, q.range));
        assert(folded(all, 0, 1) =~= seq![one]);
        lemma_fold_one(one);
    } else {
        assert(partner(all, 0, 0) == 2);
        assert(partner(all, 1, 0) == 2);
        assert(coalesced(all, 2) == all);
        assert(coalesced(all, 1) == all);
    }
}

/// Of three that look the same, the last two touch and the first stays apart.
proof fn lemma_fold_three(p: Overlay, m: Overlay, c: Overlay)
    requires
        same_look(p, m),
        same_look(p, c),
        p.id.0 < m.id.0 < c.id.0,
        touch(m.range, c.range),
        !touch(p.range, m.range),
        !touch(p.range, c.range),
        !touch(p.range, hull(m.range, c.range)),
    ensures
        coalesced(seq![p, m, c], 0) == seq![p, m.on(hull(m.range, c.range))],
{
    let all = seq![p, m, c];
    lemma_same_look(p, m, c);
    reveal_with_fuel(partner, 5);
    assert(partner(all, 0, 0) == 3);
    assert(partner(all, 1, 0) == 2);
    let one = m.on(hull(m.range, c.range));
    let two = seq![p, one];
    assert(folded(all, 1, 2) =~= two);
    assert(partner(two, 1, 0) == 2);
    assert(coalesced(two, 2) == two);
    assert(coalesced(two, 1) == two);
    assert(coalesced(all, 1) == two);
}

/// Whether the document is sound and has ids left for a move.
spec fn able(doc: DocView) -> bool {
    &&& doc.ids_sound()
    &&& doc.ranges_sound()
    &&& doc.frames.len() < usize::MAX
    &&& doc.next_id + doc.overlays.len() <= u32::MAX
}

/// Settling keeps the id and the look.
proof fn lemma_settled(p: Overlay, q: Overlay, from: int, to: int)
    requires
        same_look(p, q),
    ensures
        settled(p, from, to).id == p.id,
        same_look(settled(p, from, to), q),
        same_look(settled(p, from, to), settled(q, from, to)),
{
}

/// The copies that two overlays leave, of which the second does not split.
proof fn lemma_copies_two(p: Overlay, m: Overlay, from: int, to: int, next_id: int)
    requires
        !splits_off(m, from, to),
    ensures
        copies(seq![p, m], from, to, next_id).len() == if splits_off(p, from, to) {
            1nat
        } else {
            0
        },
{
    assert(seq![p, m].drop_last() =~= seq![p]);
    assert(seq![p].drop_last() =~= Seq::<Overlay>::empty());
    reveal_with_fuel(copies, 3);
}

/// A move in a document with one overlay `p` of its look: it settles, and if it
/// splits, its copy folds back into it or stays behind it.
proof fn lemma_hop_one(doc: DocView, o: Overlay, p: Overlay, from: int, to: int) -> (c: Overlay)
    requires
        able(doc),
        doc.can_move(from, to),
        alike(doc.overlays, o) == seq![p],
    ensures
        ({
            let after = alike(doc.frame_moved(from, to).overlays, o);
            let s = settled(p, from, to);
            if splits_off(p, from, to) {
                &&& c.range == only(to)
                &&& c.id.0 > p.id.0
                &&& after == if touch(s.range, only(to)) {
                    seq![s.on(hull(s.range, only(to)))]
                } else {
                    seq![s, c]
                }
            } else {
                after == seq![s]
            }
        }),
{
    let along = lemma_hop_alike(doc, o, from, to);
    let k = lemma_alike_within(doc.overlays, o, 0);
    let s = settled(p, from, to);
    let own = alike(doc.overlays, o).map_values(|p: Overlay| settled(p, from, to));
    assert(own =~= seq![s]);
    assert(seq![p].drop_last() =~= Seq::<Overlay>::empty());
    reveal_with_fuel(copies, 2);
    if splits_off(p, from, to) {
        let c = along[0];
        assert(own + along =~= seq![s, c]);
        lemma_same_look(o, p, c);
        lemma_fold_two(s, c);
        c
    } else {
        assert(own + along =~= seq![s]);
        lemma_fold_one(s);
        p
    }
}

/// A move off the lower of two overlays of a look, to where the other one takes
/// the frame in.
proof fn lemma_hop_two(doc: DocView, o: Overlay, p: Overlay, m: Overlay, from: int, to: int)
    requires
        able(doc),
        doc.can_move(from, to),
        alike(doc.overlays, o) == seq![p, m],
        p.id.0 < m.id.0,
        p.covers(from),
        !m.covers(from),
        goes_along(p, from, to) || splits_off(p, from, to),
        ({
            let (s, n) = (settled(p, from, to), settled(m, from, to));
            &&& touch(n.range, only(to))
            &&& splits_off(p, from, to) ==> !touch(s.range, n.range) && !touch(s.range, only(to))
                && !touch(s.range, hull(n.range, only(to)))
        }),
    ensures
        ({
            let after = alike(doc.frame_moved(from, to).overlays, o);
            let (s, n) = (settled(p, from, to), settled(m, from, to));
            after == if splits_off(p, from, to) {
                seq![s, n.on(hull(n.range, only(to)))]
            } else {
                seq![s.on(hull(only(to), n.range))]
            }
        }),
{
    let along = lemma_hop_alike(doc, o, from, to);
    let those = alike(doc.overlays, o);
    let a = lemma_alike_within(doc.overlays, o, 0);
    let b = lemma_alike_within(doc.overlays, o, 1);
    assert(those[0] == p && those[1] == m);
    let (s, n) = (settled(p, from, to), settled(m, from, to));
    assert(same_look(s, n) && s.id == p.id && n.id == m.id) by {
        lemma_same_look(o, p, m);
        lemma_settled(p, m, from, to);
        lemma_same_look(p, m, p);
        lemma_settled(m, p, from, to);
    }
    let own = those.map_values(|p: Overlay| settled(p, from, to));
    assert(own =~= seq![s, n]);
    lemma_copies_two(p, m, from, to, doc.next_id as int);
    if splits_off(p, from, to) {
        let c = along[0];
        assert(own + along =~= seq![s, n, c]);
        assert(same_look(s, c)) by {
            lemma_same_look(o, p, c);
            lemma_settled(p, c, from, to);
        }
        lemma_fold_three(s, n, c);
    } else {
        assert(own + along =~= seq![s, n]);
        lemma_fold_two(s, n);
    }
}

/// A move inside an overlay leaves it as it was, whatever other overlays there
/// are, as long as none of them looks like it. An overlay that does not look
/// like itself, for a NaN in it, is left out: its pieces never fold.
pub proof fn law_a_move_inside_an_overlay_leaves_it(doc: DocView, o: Overlay, from: int, to: int)
    requires
        doc.ids_sound(),
        doc.ranges_sound(),
        doc.frames.len() < usize::MAX,
        doc.next_id + doc.overlays.len() <= u32::MAX,
        alike(doc.overlays, o) == seq![o],
        o.covers(from),
        o.covers(to),
    ensures
        alike(doc.frame_moved(from, to).overlays, o) == seq![o],
{
    let k = lemma_alike_within(doc.overlays, o, 0);
    if from != to {
        let c = lemma_hop_one(doc, o, o, from, to);
        let s = settled(o, from, to);
        if splits_off(o, from, to) {
            assert(s.on(hull(s.range, only(to))) == o);
        } else {
            assert(s == o);
        }
    }
}

/// A set of frames that is moved inside an overlay leaves it as the one overlay
/// it was, whatever other overlays there are, as long as none of them looks
/// like it.
pub proof fn law_a_drag_inside_an_overlay_leaves_it(
    doc: DocView,
    o: Overlay,
    picked: Seq<usize>,
    to: int,
)
    requires
        places(picked, doc.frames.len()),
        doc.ids_sound(),
        doc.ranges_sound(),
        doc.frames.len() < usize::MAX,
        doc.next_id + (2 * picked.len() + 1) * doc.overlays.len() <= u32::MAX,
        alike(doc.overlays, o) == seq![o],
        forall|k: int| 0 <= k < picked.len() ==> o.covers(#[trigger] picked[k] as int),
        o.range.start <= to,
        to + picked.len() <= o.range.end,
    ensures
        alike(doc.set_moved(picked, to).overlays, o) == seq![o],
{
    lemma_hops_inside(doc, o, picked, to, picked.len());
}

proof fn lemma_hops_inside(doc: DocView, o: Overlay, picked: Seq<usize>, to: int, t: nat)
    requires
        places(picked, doc.frames.len()),
        doc.ids_sound(),
        doc.ranges_sound(),
        doc.frames.len() < usize::MAX,
        doc.next_id + (2 * picked.len() + 1) * doc.overlays.len() <= u32::MAX,
        alike(doc.overlays, o) == seq![o],
        forall|k: int| 0 <= k < picked.len() ==> o.covers(#[trigger] picked[k] as int),
        o.range.start <= to,
        to + picked.len() <= o.range.end,
        t <= picked.len(),
    ensures
        alike(doc.hopped(picked, to, t).overlays, o) == seq![o],
    decreases t,
{
    if t > 0 {
        lemma_hops_inside(doc, o, picked, to, (t - 1) as nat);
        lemma_hops(doc, picked, to, (t - 1) as nat);
        lemma_ahead(picked, to, 0, doc.frames.len());
        let before = doc.hopped(picked, to, (t - 1) as nat);
        let k = hop(picked, to, t - 1);
        assert(0 <= k < picked.len());
        assert(o.covers(picked[k] as int));
        law_a_move_inside_an_overlay_leaves_it(before, o, picked[k] as int, to + k);
    }
}

/// Whether a run of `n` frames that starts at `to` lies clear of what an overlay
/// over `range` keeps once they are taken out of it.
pub open spec fn clear_of(range: Range<usize>, n: nat, to: int) -> bool {
    to < range.start || to + n > range.end
}

/// The frames that an overlay over `range` keeps, once `t` of them were dragged
/// to before it or past it.
pub open spec fn kept(range: Range<usize>, to: int, t: int) -> Range<usize> {
    if to < range.start {
        Range { start: (range.start + t) as usize, end: range.end }
    } else {
        Range { start: range.start, end: (range.end - t) as usize }
    }
}

/// The frames that `t` of the `n` dragged ones have landed on.
spec fn landed(range: Range<usize>, n: int, to: int, t: int) -> Range<usize> {
    if to < range.start {
        Range { start: to as usize, end: (to + t) as usize }
    } else {
        Range { start: (to + n - t) as usize, end: (to + n) as usize }
    }
}

/// The overlay after `t` of `n` frames were dragged out of it: what it keeps
/// has its id, and what has landed is one overlay above it. If it keeps none,
/// it has landed itself.
spec fn part_way(those: Seq<Overlay>, o: Overlay, n: int, to: int, t: int) -> bool {
    if t == 0 {
        those == seq![o]
    } else if t == o.range.end - o.range.start {
        those == seq![o.on(landed(o.range, n, to, t))]
    } else {
        &&& those.len() == 2
        &&& those[0] == o.on(kept(o.range, to, t))
        &&& those[1].id.0 > o.id.0
        &&& those[1].range == landed(o.range, n, to, t)
    }
}

/// Whether the frame at `from` is one that can hop to `at` after `t` others
/// did.
spec fn hops_out(range: Range<usize>, n: int, to: int, t: int, from: int, at: int) -> bool {
    &&& 0 <= t < n <= range.end - range.start
    &&& range.end < usize::MAX
    &&& 0 <= to
    &&& to + n < usize::MAX
    &&& clear_of(range, n as nat, to)
    &&& if to < range.start {
        range.start + t <= from < range.end && at == to + t
    } else {
        range.start <= from < range.end - t && at == to + n - 1 - t
    }
}

/// What is kept splits, or goes along as the last.
proof fn lemma_kept(o: Overlay, n: int, to: int, t: int, from: int, at: int)
    requires
        hops_out(o.range, n, to, t, from, at),
    ensures
        ({
            let p = o.on(kept(o.range, to, t));
            let next = kept(o.range, to, t + 1);
            &&& p.covers(from)
            &&& if t + 1 < o.range.end - o.range.start {
                &&& splits_off(p, from, at)
                &&& settled(p, from, at) == o.on(next)
                &&& !touch(next, only(at))
            } else {
                &&& goes_along(p, from, at)
                &&& settled(p, from, at) == o.on(only(at))
            }
        }),
{
    let p = o.on(kept(o.range, to, t));
    if t + 1 < o.range.end - o.range.start {
        assert(shifted(p, from, at).range == kept(o.range, to, t + 1));
    }
}

/// What has landed stays, and takes the next frame in.
proof fn lemma_landed(m: Overlay, range: Range<usize>, n: int, to: int, t: int, from: int, at: int)
    requires
        hops_out(range, n, to, t, from, at),
        0 < t,
        m.range == landed(range, n, to, t),
    ensures
        ({
            let more = landed(range, n, to, t + 1);
            let rest = kept(range, to, t + 1);
            &&& !m.covers(from)
            &&& settled(m, from, at) == m
            &&& touch(m.range, only(at))
            &&& hull(m.range, only(at)) == more
            &&& hull(only(at), m.range) == more
            &&& t + 1 < range.end - range.start ==> !touch(rest, m.range) && !touch(rest, more)
        }),
{
    assert(shifted(m, from, at).range == m.range);
}

/// One more hop out of an overlay.
proof fn lemma_hop_out(doc: DocView, o: Overlay, n: int, to: int, t: int, from: int, at: int)
    requires
        able(doc),
        hops_out(o.range, n, to, t, from, at),
        o.range.end <= doc.frames.len(),
        to + n <= doc.frames.len(),
        part_way(alike(doc.overlays, o), o, n, to, t),
    ensures
        part_way(alike(doc.frame_moved(from, at).overlays, o), o, n, to, t + 1),
{
    let those = alike(doc.overlays, o);
    let p = o.on(kept(o.range, to, t));
    lemma_kept(o, n, to, t, from, at);
    if t == 0 {
        assert(p == o);
        let c = lemma_hop_one(doc, o, p, from, at);
    } else {
        let m = those[1];
        assert(those =~= seq![p, m]);
        lemma_landed(m, o.range, n, to, t, from, at);
        lemma_hop_two(doc, o, p, m, from, at);
    }
}

proof fn lemma_hops_out(doc: DocView, o: Overlay, picked: Seq<usize>, to: int, t: nat)
    requires
        places(picked, doc.frames.len()),
        doc.ids_sound(),
        doc.ranges_sound(),
        doc.frames.len() < usize::MAX,
        doc.next_id + (2 * picked.len() + 1) * doc.overlays.len() <= u32::MAX,
        alike(doc.overlays, o) == seq![o],
        forall|k: int| 0 <= k < picked.len() ==> o.covers(#[trigger] picked[k] as int),
        0 <= to,
        to + picked.len() <= doc.frames.len(),
        clear_of(o.range, picked.len(), to),
        t <= picked.len(),
    ensures
        part_way(
            alike(doc.hopped(picked, to, t).overlays, o),
            o,
            picked.len() as int,
            to,
            t as int,
        ),
    decreases t,
{
    if t > 0 {
        let n = picked.len() as int;
        lemma_hops_out(doc, o, picked, to, (t - 1) as nat);
        lemma_hops(doc, picked, to, (t - 1) as nat);
        lemma_ahead(picked, to, 0, doc.frames.len());
        let before = doc.hopped(picked, to, (t - 1) as nat);
        let j = ahead(picked, to, 0);
        lemma_spread(picked, 0, n - 1, doc.frames.len());
        assert(o.covers(picked[0] as int) && o.covers(picked[n - 1] as int));
        assert(j == if to < o.range.start {
            0
        } else {
            n
        }) by {
            if j < n {
                assert(picked[j] >= to + j);
                lemma_spread(picked, j, n - 1, doc.frames.len());
            }
            if j > 0 {
                assert(picked[0] < to);
            }
        }
        let k = hop(picked, to, t - 1);
        lemma_spread(picked, 0, k, doc.frames.len());
        lemma_spread(picked, k, n - 1, doc.frames.len());
        let m = lemma_alike_within(doc.overlays, o, 0);
        lemma_hop_out(before, o, n, to, t - 1, picked[k] as int, to + k);
    }
}

/// A drag of frames out of an overlay, to where they lie clear of the frames it
/// keeps, brings them out as one overlay, whatever other overlays there are, as
/// long as none of them looks like it: the overlay itself if it keeps no frame,
/// and otherwise a new one above it.
pub proof fn law_a_drag_out_of_an_overlay_lands_as_one(
    doc: DocView,
    o: Overlay,
    picked: Seq<usize>,
    to: usize,
)
    requires
        places(picked, doc.frames.len()),
        doc.ids_sound(),
        doc.ranges_sound(),
        doc.frames.len() < usize::MAX,
        doc.next_id + (2 * picked.len() + 1) * doc.overlays.len() <= u32::MAX,
        alike(doc.overlays, o) == seq![o],
        picked.len() > 0,
        forall|k: int| 0 <= k < picked.len() ==> o.covers(#[trigger] picked[k] as int),
        to + picked.len() <= doc.frames.len(),
        clear_of(o.range, picked.len(), to as int),
    ensures
        ({
            let those = alike(doc.set_moved(picked, to as int).overlays, o);
            let run = Range { start: to, end: (to + picked.len()) as usize };
            if picked.len() == o.range.end - o.range.start {
                those == seq![o.on(run)]
            } else {
                &&& those.len() == 2
                &&& those[0] == o.on(kept(o.range, to as int, picked.len() as int))
                &&& those[1].range == run
                &&& those[1].id.0 > o.id.0
                &&& same_look(o, those[1])
            }
        }),
{
    lemma_hops_out(doc, o, picked, to as int, picked.len());
    let after = doc.set_moved(picked, to as int).overlays;
    if alike(after, o).len() == 2 {
        let k = lemma_alike_within(after, o, 1);
    }
}

/// A drag of all the frames of an overlay takes it along as the one overlay it
/// was, under its id, whatever other overlays there are, as long as none of them
/// looks like it.
pub proof fn law_a_drag_of_a_whole_overlay_takes_it_along(
    doc: DocView,
    o: Overlay,
    picked: Seq<usize>,
    to: usize,
)
    requires
        places(picked, doc.frames.len()),
        doc.ids_sound(),
        doc.ranges_sound(),
        doc.frames.len() < usize::MAX,
        doc.next_id + (2 * picked.len() + 1) * doc.overlays.len() <= u32::MAX,
        alike(doc.overlays, o) == seq![o],
        picked.len() == o.range.end - o.range.start,
        forall|k: int| 0 <= k < picked.len() ==> o.covers(#[trigger] picked[k] as int),
        to + picked.len() <= doc.frames.len(),
    ensures
        alike(doc.set_moved(picked, to as int).overlays, o) == seq![
            o.on(Range { start: to, end: (to + picked.len()) as usize }),
        ],
{
    let k = lemma_alike_within(doc.overlays, o, 0);
    if to == o.range.start {
        law_a_drag_inside_an_overlay_leaves_it(doc, o, picked, to as int);
        assert(o.on(Range { start: to, end: (to + picked.len()) as usize }) == o);
    } else {
        law_a_drag_out_of_an_overlay_lands_as_one(doc, o, picked, to);
    }
}

} // verus!
