//! The overlays of one look, through a move. What looks different never folds
//! into them, so they can be followed by themselves.

use vstd::prelude::*;

use crate::document::DocView;
use crate::merge::{coalesced, folded, hull, joins, lemma_partner, partner};
use crate::model::{same_look, Overlay};
use crate::moving::{copies, lemma_copies_len, only, settled};

verus! {

/// The overlays that look like `o`, bottom to top.
pub open spec fn alike(overlays: Seq<Overlay>, o: Overlay) -> Seq<Overlay>
    decreases overlays.len(),
{
    if overlays.len() == 0 {
        seq![]
    } else {
        let below = alike(overlays.drop_last(), o);
        if same_look(o, overlays.last()) {
            below.push(overlays.last())
        } else {
            below
        }
    }
}

/// How many overlays below place `i` look like `o`.
pub open spec fn rank(overlays: Seq<Overlay>, o: Overlay, i: int) -> int {
    alike(overlays.take(i), o).len() as int
}

/// To look the same goes both ways and from one to the next.
pub proof fn lemma_same_look(a: Overlay, b: Overlay, c: Overlay)
    requires
        same_look(a, b),
    ensures
        same_look(b, a),
        same_look(b, c) ==> same_look(a, c),
        same_look(a, c) ==> same_look(b, c),
{
}

/// Only overlays that look alike join.
proof fn lemma_joins(o: Overlay, a: Overlay, b: Overlay)
    requires
        joins(a, b),
    ensures
        same_look(o, a) == same_look(o, b),
{
    lemma_same_look(a, b, o);
    if same_look(o, a) {
        lemma_same_look(o, a, b);
    }
    if same_look(o, b) {
        lemma_same_look(o, b, a);
    }
}

proof fn lemma_alike_add(a: Seq<Overlay>, b: Seq<Overlay>, o: Overlay)
    ensures
        alike(a + b, o) == alike(a, o) + alike(b, o),
    decreases b.len(),
{
    if b.len() == 0 {
        assert(a + b =~= a);
        assert(alike(a, o) + alike(b, o) =~= alike(a, o));
    } else {
        assert((a + b).drop_last() =~= a + b.drop_last());
        lemma_alike_add(a, b.drop_last(), o);
        assert(alike(a + b, o) =~= alike(a, o) + alike(b, o));
    }
}

/// What one place holds of those that look like `o`.
spec fn one_alike(p: Overlay, o: Overlay) -> Seq<Overlay> {
    if same_look(o, p) {
        seq![p]
    } else {
        seq![]
    }
}

proof fn lemma_alike_one(p: Overlay, o: Overlay)
    ensures
        alike(seq![p], o) == one_alike(p, o),
{
    assert(seq![p].drop_last() =~= Seq::<Overlay>::empty());
    assert(alike(Seq::<Overlay>::empty(), o) =~= seq![]);
    assert(alike(seq![p], o) =~= one_alike(p, o));
}

/// The overlays that look like `o`, taken apart at a place.
proof fn lemma_alike_at(overlays: Seq<Overlay>, o: Overlay, i: int)
    requires
        0 <= i < overlays.len(),
    ensures
        alike(overlays, o) == alike(overlays.take(i), o) + one_alike(overlays[i], o) + alike(
            overlays.skip(i + 1),
            o,
        ),
        rank(overlays, o, i + 1) == rank(overlays, o, i) + one_alike(overlays[i], o).len(),
        0 <= rank(overlays, o, i) <= alike(overlays, o).len(),
        same_look(o, overlays[i]) ==> rank(overlays, o, i) < alike(overlays, o).len() && alike(
            overlays,
            o,
        )[rank(overlays, o, i)] == overlays[i],
{
    let (a, b, c) = (overlays.take(i), seq![overlays[i]], overlays.skip(i + 1));
    assert(overlays =~= a + b + c);
    lemma_alike_add(a + b, c, o);
    lemma_alike_add(a, b, o);
    lemma_alike_one(overlays[i], o);
    assert(overlays.take(i + 1) =~= a + b);
}

proof fn lemma_alike_removed(overlays: Seq<Overlay>, o: Overlay, i: int)
    requires
        0 <= i < overlays.len(),
    ensures
        alike(overlays.remove(i), o) == if same_look(o, overlays[i]) {
            alike(overlays, o).remove(rank(overlays, o, i))
        } else {
            alike(overlays, o)
        },
{
    lemma_alike_at(overlays, o, i);
    assert(overlays.remove(i) =~= overlays.take(i) + overlays.skip(i + 1));
    lemma_alike_add(overlays.take(i), overlays.skip(i + 1), o);
    if same_look(o, overlays[i]) {
        assert(alike(overlays.remove(i), o) =~= alike(overlays, o).remove(rank(overlays, o, i)));
    } else {
        assert(alike(overlays.remove(i), o) =~= alike(overlays, o));
    }
}

proof fn lemma_alike_updated(overlays: Seq<Overlay>, o: Overlay, i: int, p: Overlay)
    requires
        0 <= i < overlays.len(),
        same_look(o, p) == same_look(o, overlays[i]),
    ensures
        alike(overlays.update(i, p), o) == if same_look(o, p) {
            alike(overlays, o).update(rank(overlays, o, i), p)
        } else {
            alike(overlays, o)
        },
{
    let after = overlays.update(i, p);
    lemma_alike_at(overlays, o, i);
    lemma_alike_at(after, o, i);
    assert(after.take(i) =~= overlays.take(i));
    assert(after.skip(i + 1) =~= overlays.skip(i + 1));
    if same_look(o, p) {
        assert(alike(after, o) =~= alike(overlays, o).update(rank(overlays, o, i), p));
    }
}

/// An update that keeps the look keeps every rank.
proof fn lemma_rank_updated(overlays: Seq<Overlay>, o: Overlay, i: int, p: Overlay, x: int)
    requires
        0 <= i < overlays.len(),
        0 <= x <= overlays.len(),
        same_look(o, p) == same_look(o, overlays[i]),
    ensures
        rank(overlays.update(i, p), o, x) == rank(overlays, o, x),
{
    if i < x {
        assert(overlays.update(i, p).take(x) =~= overlays.take(x).update(i, p));
        lemma_alike_updated(overlays.take(x), o, i, p);
        lemma_alike_at(overlays.take(x), o, i);
    } else {
        assert(overlays.update(i, p).take(x) =~= overlays.take(x));
    }
}

/// Ranks rise from one overlay that looks like `o` to the next.
proof fn lemma_rank_rises(overlays: Seq<Overlay>, o: Overlay, i: int, j: int)
    requires
        0 <= i < j <= overlays.len(),
    ensures
        rank(overlays, o, i) <= rank(overlays, o, j),
        same_look(o, overlays[i]) ==> rank(overlays, o, i) < rank(overlays, o, j),
    decreases j,
{
    lemma_alike_at(overlays, o, j - 1);
    if i < j - 1 {
        lemma_rank_rises(overlays, o, i, j - 1);
    }
}

/// The partner of an overlay is its partner among those that look like it.
proof fn lemma_partner_alike(overlays: Seq<Overlay>, o: Overlay, i: int, from: int)
    requires
        0 <= i < overlays.len(),
        0 <= from <= overlays.len(),
        same_look(o, overlays[i]),
    ensures
        partner(alike(overlays, o), rank(overlays, o, i), rank(overlays, o, from)) == rank(
            overlays,
            o,
            partner(overlays, i, from),
        ),
    decreases overlays.len() - from,
{
    let those = alike(overlays, o);
    lemma_alike_at(overlays, o, i);
    if from == overlays.len() {
        assert(overlays.take(from) =~= overlays);
    } else {
        lemma_alike_at(overlays, o, from);
        lemma_partner_alike(overlays, o, i, from + 1);
        if same_look(o, overlays[from]) {
            if from < i {
                lemma_rank_rises(overlays, o, from, i);
            } else if i < from {
                lemma_rank_rises(overlays, o, i, from);
            }
            assert(those[rank(overlays, o, from)] == overlays[from]);
        } else if joins(overlays[i], overlays[from]) {
            lemma_joins(o, overlays[i], overlays[from]);
        }
    }
}

/// Folding two overlays folds them among those that look like them, or leaves
/// those be.
proof fn lemma_folded_alike(overlays: Seq<Overlay>, o: Overlay, i: int, j: int)
    requires
        0 <= i < overlays.len(),
        0 <= j < overlays.len(),
        i != j,
        joins(overlays[i], overlays[j]),
    ensures
        alike(folded(overlays, i, j), o) == if same_look(o, overlays[i]) {
            folded(alike(overlays, o), rank(overlays, o, i), rank(overlays, o, j))
        } else {
            alike(overlays, o)
        },
        rank(folded(overlays, i, j), o, i) == rank(overlays, o, i),
{
    let (a, b) = (overlays[i], overlays[j]);
    lemma_joins(o, a, b);
    let range = hull(a.range, b.range);
    let (k, d) = if a.id.0 <= b.id.0 {
        (i, j)
    } else {
        (j, i)
    };
    let p = overlays[k].on(range);
    let u = overlays.update(k, p);
    assert(same_look(o, p) == same_look(o, overlays[k]));
    lemma_alike_at(overlays, o, i);
    lemma_alike_at(overlays, o, j);
    if i < j {
        lemma_rank_rises(overlays, o, i, j);
    } else {
        lemma_rank_rises(overlays, o, j, i);
    }
    lemma_alike_updated(overlays, o, k, p);
    lemma_rank_updated(overlays, o, k, p, d);
    lemma_rank_updated(overlays, o, k, p, i);
    lemma_alike_removed(u, o, d);
    let after = u.remove(d);
    assert(after == folded(overlays, i, j));
    if d >= i {
        assert(after.take(i) =~= u.take(i));
    } else {
        assert(after.take(i) =~= u.take(i + 1).remove(d));
        lemma_alike_removed(u.take(i + 1), o, d);
        lemma_alike_at(u.take(i + 1), o, d);
        lemma_alike_at(u, o, i);
    }
}

/// What folding leaves of the overlays that look like `o` is what it leaves of
/// them by themselves.
pub proof fn lemma_coalesced_alike(overlays: Seq<Overlay>, o: Overlay, i: int)
    requires
        0 <= i <= overlays.len(),
    ensures
        alike(coalesced(overlays, i), o) == coalesced(alike(overlays, o), rank(overlays, o, i)),
    decreases overlays.len(), overlays.len() - i,
{
    let those = alike(overlays, o);
    if i == overlays.len() {
        assert(overlays.take(i) =~= overlays);
    } else {
        let j = partner(overlays, i, 0);
        lemma_partner(overlays, i, 0);
        lemma_alike_at(overlays, o, i);
        if same_look(o, overlays[i]) {
            lemma_partner_alike(overlays, o, i, 0);
            assert(overlays.take(0) =~= Seq::<Overlay>::empty());
            if j < overlays.len() {
                lemma_joins(o, overlays[i], overlays[j]);
                lemma_alike_at(overlays, o, j);
                lemma_folded_alike(overlays, o, i, j);
                lemma_coalesced_alike(folded(overlays, i, j), o, i);
            } else {
                assert(overlays.take(j) =~= overlays);
                lemma_coalesced_alike(overlays, o, i + 1);
            }
        } else if j < overlays.len() {
            lemma_folded_alike(overlays, o, i, j);
            lemma_coalesced_alike(folded(overlays, i, j), o, i);
        } else {
            lemma_coalesced_alike(overlays, o, i + 1);
        }
    }
}

/// Those that look like `o` are overlays of the list.
pub proof fn lemma_alike_within(overlays: Seq<Overlay>, o: Overlay, m: int) -> (k: int)
    requires
        0 <= m < alike(overlays, o).len(),
    ensures
        0 <= k < overlays.len(),
        alike(overlays, o)[m] == overlays[k],
        same_look(o, overlays[k]),
    decreases overlays.len(),
{
    let below = alike(overlays.drop_last(), o);
    if m < below.len() {
        lemma_alike_within(overlays.drop_last(), o, m)
    } else {
        overlays.len() - 1
    }
}

/// A move settles those that look like `o` as it does by themselves.
proof fn lemma_alike_settled(overlays: Seq<Overlay>, o: Overlay, from: int, to: int)
    ensures
        alike(overlays.map_values(|p: Overlay| settled(p, from, to)), o) == alike(
            overlays,
            o,
        ).map_values(|p: Overlay| settled(p, from, to)),
    decreases overlays.len(),
{
    let settle = |p: Overlay| settled(p, from, to);
    let after = overlays.map_values(settle);
    if overlays.len() == 0 {
        assert(after =~= seq![]);
        assert(alike(overlays, o).map_values(settle) =~= seq![]);
    } else {
        lemma_alike_settled(overlays.drop_last(), o, from, to);
        assert(after.drop_last() =~= overlays.drop_last().map_values(settle));
        assert(same_look(o, after.last()) == same_look(o, overlays.last()));
        assert(alike(after, o) =~= alike(overlays, o).map_values(settle));
    }
}

/// The copies that look like `o` are those of the overlays that do, under new
/// ids.
proof fn lemma_alike_copies(overlays: Seq<Overlay>, o: Overlay, from: int, to: int, next_id: int)
    requires
        0 <= next_id,
        next_id + overlays.len() <= u32::MAX,
    ensures
        ({
            let along = alike(copies(overlays, from, to, next_id), o);
            &&& along.len() == copies(alike(overlays, o), from, to, next_id).len()
            &&& forall|m: int|
                0 <= m < along.len() ==> (#[trigger] along[m]).range == only(to) && along[m].id.0
                    >= next_id && same_look(o, along[m])
        }),
    decreases overlays.len(),
{
    if overlays.len() > 0 {
        let rest = overlays.drop_last();
        lemma_alike_copies(rest, o, from, to, next_id);
        lemma_copies_len(rest, from, to, next_id);
        let all = copies(overlays, from, to, next_id);
        let those = alike(overlays, o);
        if same_look(o, overlays.last()) {
            assert(those.drop_last() =~= alike(rest, o));
        }
        if all.len() > copies(rest, from, to, next_id).len() {
            assert(all.drop_last() =~= copies(rest, from, to, next_id));
            assert(same_look(o, all.last()) == same_look(o, overlays.last()));
        }
    }
}

/// What a move leaves of the overlays that look like `o`: they are settled, the
/// copies `along` that go with the frame come behind them, and what touches
/// folds.
pub proof fn lemma_hop_alike(doc: DocView, o: Overlay, from: int, to: int) -> (along: Seq<Overlay>)
    requires
        doc.can_move(from, to),
        doc.next_id + doc.overlays.len() <= u32::MAX,
    ensures
        alike(doc.frame_moved(from, to).overlays, o) == coalesced(
            alike(doc.overlays, o).map_values(|p: Overlay| settled(p, from, to)) + along,
            0,
        ),
        along.len() == copies(alike(doc.overlays, o), from, to, doc.next_id as int).len(),
        forall|m: int|
            0 <= m < along.len() ==> (#[trigger] along[m]).range == only(to) && along[m].id.0
                >= doc.next_id && same_look(o, along[m]),
{
    let all = doc.carried_overlays(from, to);
    let own = doc.overlays.map_values(|p: Overlay| settled(p, from, to));
    let new = copies(doc.overlays, from, to, doc.next_id as int);
    lemma_alike_settled(doc.overlays, o, from, to);
    lemma_alike_copies(doc.overlays, o, from, to, doc.next_id as int);
    lemma_alike_add(own, new, o);
    lemma_coalesced_alike(all, o, 0);
    assert(all.take(0) =~= Seq::<Overlay>::empty());
    alike(new, o)
}

} // verus!
