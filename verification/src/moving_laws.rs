//! What moving and folding leave as they were on each frame.

use vstd::prelude::*;

use crate::coverage::look;
use crate::document::DocView;
use crate::merge::{coalesced, folded, hull, joins, lemma_partner, partner};
use crate::model::{same_look, FrameView, Overlay};
use crate::moving::{
    copies, lemma_copies_len, only, place_after, relocated, settled, shifted, splits_off,
};

verus! {

/// How many of the overlays on `frame` satisfy `p`.
pub open spec fn tally(overlays: Seq<Overlay>, frame: int, p: spec_fn(Overlay) -> bool) -> nat
    decreases overlays.len(),
{
    if overlays.len() == 0 {
        0
    } else {
        tally(overlays.drop_last(), frame, p) + tally_one(overlays.last(), frame, p)
    }
}

/// One if the overlay is on `frame` and satisfies `p`, else nothing.
pub open spec fn tally_one(o: Overlay, frame: int, p: spec_fn(Overlay) -> bool) -> nat {
    if o.covers(frame) && p(o) {
        1
    } else {
        0
    }
}

/// Whether `p` speaks of how an overlay looks alone: neither its id nor its
/// frames matter to it, and it cannot tell apart overlays that look the same.
pub open spec fn of_look(p: spec_fn(Overlay) -> bool) -> bool {
    &&& forall|o: Overlay| p(#[trigger] look(o)) == p(o)
    &&& forall|a: Overlay, b: Overlay| #[trigger] same_look(a, b) ==> p(a) == p(b)
}

/// Every range runs forward.
pub open spec fn forward(overlays: Seq<Overlay>) -> bool {
    forall|i: int|
        0 <= i < overlays.len() ==> (#[trigger] overlays[i]).range.start <= overlays[i].range.end
}

proof fn lemma_tally_update(
    overlays: Seq<Overlay>,
    frame: int,
    p: spec_fn(Overlay) -> bool,
    i: int,
    o: Overlay,
)
    requires
        0 <= i < overlays.len(),
    ensures
        tally(overlays.update(i, o), frame, p) == tally(overlays, frame, p) - tally_one(
            overlays[i],
            frame,
            p,
        ) + tally_one(o, frame, p),
    decreases overlays.len(),
{
    let after = overlays.update(i, o);
    if i == overlays.len() - 1 {
        assert(after.drop_last() =~= overlays.drop_last());
    } else {
        assert(after.drop_last() =~= overlays.drop_last().update(i, o));
        lemma_tally_update(overlays.drop_last(), frame, p, i, o);
    }
}

proof fn lemma_tally_remove(
    overlays: Seq<Overlay>,
    frame: int,
    p: spec_fn(Overlay) -> bool,
    i: int,
)
    requires
        0 <= i < overlays.len(),
    ensures
        tally(overlays.remove(i), frame, p) == tally(overlays, frame, p) - tally_one(
            overlays[i],
            frame,
            p,
        ),
    decreases overlays.len(),
{
    let after = overlays.remove(i);
    if i == overlays.len() - 1 {
        assert(after =~= overlays.drop_last());
    } else {
        assert(after.drop_last() =~= overlays.drop_last().remove(i));
        lemma_tally_remove(overlays.drop_last(), frame, p, i);
    }
}

pub proof fn lemma_tally_add(
    a: Seq<Overlay>,
    b: Seq<Overlay>,
    frame: int,
    p: spec_fn(Overlay) -> bool,
)
    ensures
        tally(a + b, frame, p) == tally(a, frame, p) + tally(b, frame, p),
    decreases b.len(),
{
    if b.len() == 0 {
        assert(a + b =~= a);
    } else {
        assert((a + b).drop_last() =~= a + b.drop_last());
        lemma_tally_add(a, b.drop_last(), frame, p);
    }
}

proof fn lemma_folded(overlays: Seq<Overlay>, i: int, j: int, frame: int, p: spec_fn(Overlay) -> bool)
    requires
        0 <= i < overlays.len(),
        0 <= j < overlays.len(),
        i != j,
        joins(overlays[i], overlays[j]),
        forward(overlays),
        of_look(p),
    ensures
        tally(folded(overlays, i, j), frame, p) == tally(overlays, frame, p),
        forward(folded(overlays, i, j)),
{
    let (a, b) = (overlays[i], overlays[j]);
    let range = hull(a.range, b.range);
    let (k, d) = if a.id.0 <= b.id.0 {
        (i, j)
    } else {
        (j, i)
    };
    let o = overlays[k].on(range);
    assert(p(a) == p(b));
    assert(look(o) == look(overlays[k]));
    lemma_tally_update(overlays, frame, p, k, o);
    lemma_tally_remove(overlays.update(k, o), frame, p, d);
    let after = folded(overlays, i, j);
    assert forall|x: int| 0 <= x < after.len() implies (#[trigger] after[x]).range.start
        <= after[x].range.end by {
        let y = if x < d {
            x
        } else {
            x + 1
        };
        assert(after[x] == overlays.update(k, o)[y]);
        assert(overlays[y].range.start <= overlays[y].range.end);
    }
}

/// Folding pieces together changes nothing that is seen on any frame: as many
/// overlays of any look lie on it as before. Ranges keep running forward.
pub proof fn law_coalesce_keeps_what_is_seen(
    overlays: Seq<Overlay>,
    i: int,
    frame: int,
    p: spec_fn(Overlay) -> bool,
)
    requires
        forward(overlays),
        of_look(p),
    ensures
        tally(coalesced(overlays, i), frame, p) == tally(overlays, frame, p),
        forward(coalesced(overlays, i)),
    decreases overlays.len(), overlays.len() - i,
{
    if 0 <= i < overlays.len() {
        lemma_partner(overlays, i, 0);
        let j = partner(overlays, i, 0);
        if j < overlays.len() {
            lemma_folded(overlays, i, j, frame, p);
            law_coalesce_keeps_what_is_seen(folded(overlays, i, j), i, frame, p);
        } else {
            law_coalesce_keeps_what_is_seen(overlays, i + 1, frame, p);
        }
    }
}

/// Ids are unique and below `limit`, ranges hold a frame and end by `end`.
pub open spec fn sound_stack(overlays: Seq<Overlay>, limit: int, end: int) -> bool {
    &&& forall|i: int| 0 <= i < overlays.len() ==> (#[trigger] overlays[i]).id.0 < limit
    &&& forall|i: int, j: int|
        0 <= i < j < overlays.len() ==> (#[trigger] overlays[i]).id != (#[trigger] overlays[j]).id
    &&& forall|i: int|
        0 <= i < overlays.len() ==> (#[trigger] overlays[i]).range.start < overlays[i].range.end
            <= end
}

/// Folding keeps ids unique and ranges inside the frame list, and never adds
/// an overlay.
pub proof fn law_coalesce_keeps_soundness(overlays: Seq<Overlay>, i: int, limit: int, end: int)
    requires
        sound_stack(overlays, limit, end),
    ensures
        sound_stack(coalesced(overlays, i), limit, end),
        coalesced(overlays, i).len() <= overlays.len(),
    decreases overlays.len(), overlays.len() - i,
{
    if 0 <= i < overlays.len() {
        lemma_partner(overlays, i, 0);
        let j = partner(overlays, i, 0);
        if j < overlays.len() {
            let after = folded(overlays, i, j);
            let (k, d) = if overlays[i].id.0 <= overlays[j].id.0 {
                (i, j)
            } else {
                (j, i)
            };
            assert forall|x: int| 0 <= x < after.len() implies (#[trigger] after[x]).id
                == overlays[if x < d { x } else { x + 1 }].id && after[x].range.start
                < after[x].range.end <= end by {
                let y = if x < d {
                    x
                } else {
                    x + 1
                };
                assert(overlays[y].range.start < overlays[y].range.end <= end);
                assert(overlays[i].range.end <= end);
                assert(overlays[j].range.end <= end);
            }
            assert(sound_stack(after, limit, end));
            law_coalesce_keeps_soundness(after, i, limit, end);
        } else {
            law_coalesce_keeps_soundness(overlays, i + 1, limit, end);
        }
    }
}

/// On a frame that is not moved, the shift keeps an overlay where it was.
proof fn lemma_shifted_covers(o: Overlay, from: int, to: int, i: int)
    requires
        o.range.start <= o.range.end < usize::MAX,
        0 <= from,
        0 <= to,
        0 <= i,
        i != from,
    ensures
        shifted(o, from, to).covers(place_after(i, from, to)) == o.covers(i),
        place_after(i, from, to) != to,
{
}

/// The overlays in their place and the copies, seen on a frame that was not
/// moved, are the overlays that were on it.
proof fn lemma_carried_elsewhere(
    overlays: Seq<Overlay>,
    from: int,
    to: int,
    next_id: int,
    i: int,
    p: spec_fn(Overlay) -> bool,
)
    requires
        forall|k: int|
            0 <= k < overlays.len() ==> (#[trigger] overlays[k]).range.start
                <= overlays[k].range.end < usize::MAX,
        0 <= from,
        0 <= to < usize::MAX,
        0 <= i,
        i != from,
        of_look(p),
    ensures
        tally(
            overlays.map_values(|o: Overlay| settled(o, from, to)),
            place_after(i, from, to),
            p,
        ) == tally(overlays, i, p),
        tally(copies(overlays, from, to, next_id), place_after(i, from, to), p) == 0,
    decreases overlays.len(),
{
    let at = place_after(i, from, to);
    let f = |o: Overlay| settled(o, from, to);
    if overlays.len() > 0 {
        let o = overlays.last();
        lemma_carried_elsewhere(overlays.drop_last(), from, to, next_id, i, p);
        assert(overlays.map_values(f).drop_last() =~= overlays.drop_last().map_values(f));
        lemma_shifted_covers(o, from, to, i);
        let s = settled(o, from, to);
        assert(look(s) == look(o));
        assert(s.covers(at) == o.covers(i));
        let below = copies(overlays.drop_last(), from, to, next_id);
        if splits_off(o, from, to) {
            let all = copies(overlays, from, to, next_id);
            assert(all.drop_last() =~= below);
        }
    } else {
        assert(overlays.map_values(f) =~= Seq::<Overlay>::empty());
    }
}

/// How many of the overlays satisfy `p` and show on a frame that moves from
/// `from` to `to`: each that was on it, and each whose frames it lands among,
/// once.
pub open spec fn landing(
    overlays: Seq<Overlay>,
    from: int,
    to: int,
    p: spec_fn(Overlay) -> bool,
) -> nat
    decreases overlays.len(),
{
    if overlays.len() == 0 {
        0
    } else {
        let o = overlays.last();
        landing(overlays.drop_last(), from, to, p) + if p(o) && (o.covers(from) || shifted(
            o,
            from,
            to,
        ).covers(to)) {
            1nat
        } else {
            0
        }
    }
}

/// The overlays in their place and the copies, seen on the moved frame, are
/// those that were on it and those it lands among.
proof fn lemma_carried_along(
    overlays: Seq<Overlay>,
    from: int,
    to: int,
    next_id: int,
    p: spec_fn(Overlay) -> bool,
)
    requires
        0 <= from,
        0 <= to < usize::MAX,
        of_look(p),
    ensures
        tally(overlays.map_values(|o: Overlay| settled(o, from, to)), to, p) + tally(
            copies(overlays, from, to, next_id),
            to,
            p,
        ) == landing(overlays, from, to, p),
        landing(overlays, from, to, p) >= tally(overlays, from, p),
    decreases overlays.len(),
{
    let f = |o: Overlay| settled(o, from, to);
    if overlays.len() > 0 {
        let o = overlays.last();
        lemma_carried_along(overlays.drop_last(), from, to, next_id, p);
        assert(overlays.map_values(f).drop_last() =~= overlays.drop_last().map_values(f));
        let s = settled(o, from, to);
        assert(look(s) == look(o));
        let below = copies(overlays.drop_last(), from, to, next_id);
        if splits_off(o, from, to) {
            let all = copies(overlays, from, to, next_id);
            let c = all.last();
            assert(look(c) == look(o));
            assert(all.drop_last() =~= below);
        }
    }
}

/// The overlays and copies of a move make a sound stack.
proof fn lemma_carried_sound(doc: DocView, from: int, to: int)
    requires
        doc.ids_sound(),
        doc.ranges_sound(),
        doc.can_move(from, to),
        doc.frames.len() < usize::MAX,
        doc.next_id + doc.overlays.len() <= u32::MAX,
    ensures
        sound_stack(
            doc.carried_overlays(from, to),
            doc.next_id + copies(doc.overlays, from, to, doc.next_id as int).len(),
            doc.frames.len() as int,
        ),
{
    let own = doc.overlays.map_values(|o: Overlay| settled(o, from, to));
    let along = copies(doc.overlays, from, to, doc.next_id as int);
    let all = doc.carried_overlays(from, to);
    let end = doc.frames.len() as int;
    lemma_copies_ids(doc.overlays, from, to, doc.next_id as int);
    assert forall|i: int| 0 <= i < all.len() implies (#[trigger] all[i]).range.start
        < all[i].range.end <= end by {
        if i < own.len() {
            assert(all[i] == settled(doc.overlays[i], from, to));
            assert(doc.overlays[i].range.start < doc.overlays[i].range.end <= end);
        } else {
            assert(all[i] == along[i - own.len()]);
        }
    }
    assert forall|i: int| 0 <= i < all.len() implies (#[trigger] all[i]).id.0 < doc.next_id
        + along.len() && (i < own.len() ==> all[i].id == doc.overlays[i].id) && (i >= own.len()
        ==> all[i].id.0 == doc.next_id + (i - own.len())) by {
        if i < own.len() {
            assert(all[i] == settled(doc.overlays[i], from, to));
            assert(doc.overlays[i].id.0 < doc.next_id);
        } else {
            assert(all[i] == along[i - own.len()]);
        }
    }
    assert forall|i: int, j: int| 0 <= i < j < all.len() implies (#[trigger] all[i]).id != (
    #[trigger] all[j]).id by {
        if j < own.len() {
            assert(doc.overlays[i].id != doc.overlays[j].id);
        } else if i < own.len() {
            assert(doc.overlays[i].id.0 < doc.next_id);
        }
    }
}

proof fn lemma_copies_ids(overlays: Seq<Overlay>, from: int, to: int, next_id: int)
    requires
        0 <= next_id,
        next_id + overlays.len() <= u32::MAX,
    ensures
        copies(overlays, from, to, next_id).len() <= overlays.len(),
        forall|k: int|
            0 <= k < copies(overlays, from, to, next_id).len() ==> (#[trigger] copies(
                overlays,
                from,
                to,
                next_id,
            )[k]).id.0 == next_id + k && copies(overlays, from, to, next_id)[k].range == only(to),
    decreases overlays.len(),
{
    if overlays.len() > 0 {
        lemma_copies_ids(overlays.drop_last(), from, to, next_id);
    }
}

/// Moving a frame keeps a sound document sound.
pub proof fn law_move_keeps_soundness(doc: DocView, from: int, to: int)
    requires
        doc.ids_sound(),
        doc.ranges_sound(),
        doc.frames.len() < usize::MAX,
        doc.next_id + doc.overlays.len() <= u32::MAX,
    ensures
        doc.frame_moved(from, to).ids_sound(),
        doc.frame_moved(from, to).ranges_sound(),
        doc.frame_moved(from, to).frames.len() == doc.frames.len(),
{
    if doc.can_move(from, to) {
        let limit = doc.next_id + copies(doc.overlays, from, to, doc.next_id as int).len();
        lemma_copies_len(doc.overlays, from, to, doc.next_id as int);
        lemma_carried_sound(doc, from, to);
        law_coalesce_keeps_soundness(
            doc.carried_overlays(from, to),
            0,
            limit,
            doc.frames.len() as int,
        );
    }
}

/// A frame that is not moved shows as many overlays of any look at its new
/// index as it did at its old one.
pub proof fn law_move_leaves_other_frames_alone(
    doc: DocView,
    from: int,
    to: int,
    i: int,
    p: spec_fn(Overlay) -> bool,
)
    requires
        doc.ids_sound(),
        doc.ranges_sound(),
        doc.can_move(from, to),
        doc.frames.len() < usize::MAX,
        doc.next_id + doc.overlays.len() <= u32::MAX,
        0 <= i < doc.frames.len(),
        i != from,
        of_look(p),
    ensures
        tally(doc.frame_moved(from, to).overlays, place_after(i, from, to), p) == tally(
            doc.overlays,
            i,
            p,
        ),
        doc.frame_moved(from, to).frames[place_after(i, from, to)] == doc.frames[i],
{
    let at = place_after(i, from, to);
    lemma_carried_sound(doc, from, to);
    law_coalesce_keeps_what_is_seen(doc.carried_overlays(from, to), 0, at, p);
    lemma_carried_elsewhere(doc.overlays, from, to, doc.next_id as int, i, p);
    lemma_tally_add(
        doc.overlays.map_values(|o: Overlay| settled(o, from, to)),
        copies(doc.overlays, from, to, doc.next_id as int),
        at,
        p,
    );
}

/// The overlays on a moved frame come along with it: at its new index it
/// shows at least as many of any look as before, and each overlay once: those
/// that were on it and those it lands among.
pub proof fn law_move_carries_the_overlays_along(
    doc: DocView,
    from: int,
    to: int,
    p: spec_fn(Overlay) -> bool,
)
    requires
        doc.ids_sound(),
        doc.ranges_sound(),
        doc.can_move(from, to),
        doc.frames.len() < usize::MAX,
        doc.next_id + doc.overlays.len() <= u32::MAX,
        of_look(p),
    ensures
        tally(doc.frame_moved(from, to).overlays, to, p) >= tally(doc.overlays, from, p),
        tally(doc.frame_moved(from, to).overlays, to, p) == landing(doc.overlays, from, to, p),
        doc.frame_moved(from, to).frames[to] == doc.frames[from],
{
    lemma_carried_sound(doc, from, to);
    law_coalesce_keeps_what_is_seen(doc.carried_overlays(from, to), 0, to, p);
    lemma_carried_along(doc.overlays, from, to, doc.next_id as int, p);
    lemma_tally_add(
        doc.overlays.map_values(|o: Overlay| settled(o, from, to)),
        copies(doc.overlays, from, to, doc.next_id as int),
        to,
        p,
    );
}

/// Moving a frame back where it came from puts every frame back.
pub proof fn law_move_back(frames: Seq<FrameView>, from: int, to: int)
    requires
        0 <= from < frames.len(),
        0 <= to < frames.len(),
    ensures
        relocated(relocated(frames, from, to), to, from) == frames,
{
    assert(relocated(relocated(frames, from, to), to, from) =~= frames);
}

} // verus!
