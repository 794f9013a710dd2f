//! What is painted on a frame, and in which order.

use std::ops::Range;

use vstd::prelude::*;

use crate::document::{find_id, painting, total_delay, DocView};
use crate::group::{in_runs, law_runs, on_each, runs};
use crate::model::{same_frame, same_look, FrameView, Overlay, ShapeOverlay};
use crate::moving_laws::{forward, law_coalesce_keeps_what_is_seen, lemma_tally_add, of_look, tally};
use crate::render::{paint_order, shape_byte, upright_source};
use crate::scope::{lemma_ascending, picks};

verus! {

proof fn lemma_painting(overlays: Seq<Overlay>, frame: int, k: usize)
    requires
        overlays.len() <= usize::MAX,
    ensures
        ({
            let places = painting(overlays, frame);
            &&& places.contains(k) <==> k < overlays.len() && !overlays[k as int].hidden
                && overlays[k as int].range.start <= frame && frame < overlays[k as int].range.end
            &&& forall|a: int| 0 <= a < places.len() ==> #[trigger] places[a] < overlays.len()
            &&& forall|a: int, b: int| 0 <= a < b < places.len() ==> places[a] < places[b]
        }),
    decreases overlays.len(),
{
    if overlays.len() > 0 {
        let head = overlays.drop_last();
        let n = overlays.len() - 1;
        let below = painting(head, frame);
        let places = painting(overlays, frame);
        lemma_painting(head, frame, k);
        if below.contains(k) {
            let a = choose|a: int| 0 <= a < below.len() && below[a] == k;
            assert(places[a] == k);
            assert(head[k as int] == overlays[k as int]);
        }
        if places.contains(k) {
            let a = choose|a: int| 0 <= a < places.len() && places[a] == k;
            if a < below.len() {
                assert(below[a] == k);
                assert(head[k as int] == overlays[k as int]);
            }
        }
        if k < n {
            assert(head[k as int] == overlays[k as int]);
        }
        if !overlays[n].hidden && overlays[n].covers(frame) {
            assert(places[places.len() - 1] == n);
            assert forall|a: int, b: int| 0 <= a < b < places.len() implies places[a]
                < places[b] by {
                assert(places[a] == below[a]);
                if b < below.len() {
                    assert(places[b] == below[b]);
                }
            }
        }
    }
}

/// A frame is painted with the overlays that lie on it and are not hidden, each
/// once and from the bottom of the stack up. One that was edited elsewhere is
/// painted with none, and there is nothing to paint past the last.
pub proof fn law_a_frame_is_painted_bottom_up(doc: DocView, index: int, k: usize)
    requires
        0 <= index,
        doc.overlays.len() <= usize::MAX,
    ensures
        index >= doc.frames.len() ==> paint_order(doc, index) is None,
        index < doc.frames.len() ==> {
            &&& paint_order(doc, index) matches Some(places)
            &&& doc.frames[index].detached ==> places.len() == 0
            &&& !doc.frames[index].detached ==> (places.contains(k) <==> k < doc.overlays.len()
                && !doc.overlays[k as int].hidden && doc.overlays[k as int].range.start <= index
                && index < doc.overlays[k as int].range.end)
            &&& forall|a: int, b: int| 0 <= a < b < places.len() ==> places[a] < places[b]
        },
{
    lemma_painting(doc.overlays, index, k);
}

/// A picture that is drawn upright stands with its corner at its place. Turned
/// around, it shows on one side what it showed on the other, and pixels outside
/// it are left alone.
pub proof fn law_a_flip_swaps_the_sides(
    ox: int,
    oy: int,
    sw: int,
    sh: int,
    flip_x: bool,
    flip_y: bool,
    i: int,
    j: int,
)
    ensures
        0 <= i < sw && 0 <= j < sh ==> upright_source(
            ox + i,
            oy + j,
            ox,
            oy,
            sw,
            sh,
            false,
            false,
        ) == Some((i, j)),
        !(0 <= i < sw && 0 <= j < sh) ==> upright_source(
            ox + i,
            oy + j,
            ox,
            oy,
            sw,
            sh,
            flip_x,
            flip_y,
        ) is None,
        upright_source(ox + i, oy + j, ox, oy, sw, sh, true, flip_y) == upright_source(
            ox + sw - 1 - i,
            oy + j,
            ox,
            oy,
            sw,
            sh,
            false,
            flip_y,
        ),
        upright_source(ox + i, oy + j, ox, oy, sw, sh, flip_x, true) == upright_source(
            ox + i,
            oy + sh - 1 - j,
            ox,
            oy,
            sw,
            sh,
            flip_x,
            false,
        ),
{
}

/// A shape is drawn with its line along the edge and filled inside it. Without a
/// line the fill goes up to the edge, without a fill the inside is clear, and
/// outside there is nothing.
pub proof fn law_a_shape_is_lined_and_filled(o: ShapeOverlay, c: int)
    requires
        0 <= c < 4,
    ensures
        shape_byte(o, None, c) == 0,
        o.stroke matches Some(line) ==> shape_byte(o, Some(true), c) == line.0@[c],
        o.fill matches Some(color) ==> shape_byte(o, Some(false), c) == color@[c],
        o.fill is None ==> shape_byte(o, Some(false), c) == 0,
        o.stroke is None ==> shape_byte(o, Some(true), c) == shape_byte(o, Some(false), c),
{
}

/// The times of frames add up.
pub proof fn law_times_add_up(a: Seq<FrameView>, b: Seq<FrameView>)
    ensures
        total_delay(a + b) == total_delay(a) + total_delay(b),
        a.len() == 1 ==> total_delay(a) == a[0].delay_cs,
        a.len() == 0 ==> total_delay(a) == 0,
    decreases b.len(),
{
    if b.len() > 0 {
        law_times_add_up(a, b.drop_last());
        assert((a + b).drop_last() =~= a + b.drop_last());
    } else {
        assert(a + b =~= a);
    }
    if a.len() == 1 {
        assert(total_delay(a.drop_last()) == 0);
    }
}

/// A step up or down the stack swaps an overlay with the one next to it, and a
/// step back undoes it. At the end of the stack there is no step.
pub proof fn law_a_step_swaps_neighbours(doc: DocView, p: int, up: bool, k: int)
    requires
        0 <= p < doc.overlays.len(),
        doc.ids_sound(),
        0 <= k < doc.overlays.len(),
    ensures
        ({
            let was = doc.overlays;
            let after = doc.stepped_z(was[p].id, up);
            let q = if up {
                p + 1
            } else {
                p - 1
            };
            &&& !(0 <= q < was.len()) ==> after == doc
            &&& 0 <= q < was.len() ==> {
                &&& after.overlays.len() == was.len()
                &&& after.overlays[q] == was[p]
                &&& after.overlays[p] == was[q]
                &&& k != p && k != q ==> after.overlays[k] == was[k]
                &&& after.frames == doc.frames
                &&& after.stepped_z(was[p].id, !up) == doc
            }
        }),
{
    let was = doc.overlays;
    let id = was[p].id;
    crate::document::lemma_find_id(was, id, 0);
    let i = find_id(was, id, 0);
    assert(i == p) by {
        if i < p {
            assert(was[i].id != was[p].id);
        } else if i > p {
            assert(was[p].id != id);
        }
    }
    let q = if up {
        p + 1
    } else {
        p - 1
    };
    if 0 <= q < was.len() {
        let after = doc.stepped_z(id, up);
        let now = after.overlays;
        crate::document::lemma_find_id(now, id, 0);
        let j = find_id(now, id, 0);
        assert(now[q].id == id);
        assert(j == q) by {
            if j < q {
                assert(now[j].id == id);
                if j == p {
                    assert(was[q].id != was[p].id);
                } else {
                    assert(now[j] == was[j]);
                    assert(j < p ==> was[j].id != was[p].id);
                    assert(p < j ==> was[p].id != was[j].id);
                }
            } else if j > q {
                assert(now[q].id != id);
            }
        }
        assert(after.stepped_z(id, !up).overlays =~= was);
    }
}

proof fn lemma_tally_each(
    o: Overlay,
    ranges: Seq<Range<usize>>,
    next_id: int,
    i: int,
    p: spec_fn(Overlay) -> bool,
)
    requires
        of_look(p),
        forall|k: int, l: int|
            0 <= k < l < ranges.len() ==> (#[trigger] ranges[k]).end < (
            #[trigger] ranges[l]).start,
    ensures
        tally(on_each(o, ranges, next_id), i, p) == if in_runs(ranges, i) && p(o) {
            1nat
        } else {
            0
        },
    decreases ranges.len(),
{
    let all = on_each(o, ranges, next_id);
    if ranges.len() > 0 {
        let head = ranges.drop_last();
        lemma_tally_each(o, head, next_id, i, p);
        assert(all.drop_last() =~= on_each(o, head, next_id));
        let n = ranges.len() - 1;
        if in_runs(head, i) {
            let k = choose|k: int|
                0 <= k < head.len() && (#[trigger] head[k]).start <= i < head[k].end;
            assert(ranges[k].start <= i < ranges[k].end);
            assert(ranges[k].end < ranges[n].start);
        }
        if in_runs(ranges, i) && !in_runs(head, i) {
            let k = choose|k: int|
                0 <= k < ranges.len() && (#[trigger] ranges[k]).start <= i < ranges[k].end;
            if k < n {
                assert(head[k] == ranges[k]);
            }
        }
        assert(all.last().covers(i) == (ranges[n].start <= i < ranges[n].end));
        assert(crate::coverage::look(all.last()) == crate::coverage::look(o));
        assert(p(crate::coverage::look(all.last())) == p(all.last()));
        assert(p(crate::coverage::look(o)) == p(o));
    }
}

/// An overlay that is copied onto frames lies once more on each of them that it
/// did not lie on, and every other frame shows what it showed.
pub proof fn law_a_copy_lies_on_the_frames_it_was_missing_from(
    doc: DocView,
    s: int,
    frames: Seq<usize>,
    i: int,
    p: spec_fn(Overlay) -> bool,
)
    requires
        0 <= s < doc.overlays.len(),
        doc.ids_sound(),
        doc.ranges_sound(),
        doc.frames.len() < usize::MAX,
        0 <= i < doc.frames.len(),
        of_look(p),
    ensures
        ({
            let o = doc.overlays[s];
            let targets = doc.copy_targets(o.id, frames);
            let after = doc.copied_onto(o.id, targets);
            &&& frames.contains(i as usize) && !o.covers(i) && p(o) ==> tally(after.overlays, i, p)
                == tally(doc.overlays, i, p) + 1
            &&& !(frames.contains(i as usize) && !o.covers(i) && p(o)) ==> tally(
                after.overlays,
                i,
                p,
            ) == tally(doc.overlays, i, p)
            &&& after.frames == doc.frames
        }),
{
    let all = doc.overlays;
    let o = all[s];
    crate::document::lemma_find_id(all, o.id, 0);
    let at = find_id(all, o.id, 0);
    assert(at == s) by {
        if at < s {
            assert(all[at].id != all[s].id);
        } else if at > s {
            assert(all[s].id != o.id);
        }
    }
    let source = all[find_id(all, o.id, 0)];
    let wanted = |k: int| picks(frames, k) && !source.covers(k);
    let targets = doc.copy_targets(o.id, frames);
    lemma_ascending(doc.frames.len(), wanted);
    law_runs(targets);
    let ranges = runs(targets);
    let pieces = on_each(o, ranges, doc.next_id as int);
    let spliced = crate::arrange::spliced(all, s + 1, pieces);
    lemma_tally_each(o, ranges, doc.next_id as int, i, p);
    lemma_tally_add(all.take(s + 1), pieces, i, p);
    lemma_tally_add(all.take(s + 1) + pieces, all.skip(s + 1), i, p);
    lemma_tally_add(all.take(s + 1), all.skip(s + 1), i, p);
    assert(all.take(s + 1) + all.skip(s + 1) =~= all);
    assert(forward(spliced)) by {
        assert forall|k: int| 0 <= k < spliced.len() implies (#[trigger] spliced[k]).range.start
            <= spliced[k].range.end by {
            if k < s + 1 {
                assert(spliced[k] == all[k]);
            } else if k < s + 1 + pieces.len() {
                assert(spliced[k] == pieces[k - s - 1]);
                assert(ranges[k - s - 1].start < ranges[k - s - 1].end);
            } else {
                assert(spliced[k] == all[k - pieces.len()]);
            }
        }
    }
    law_coalesce_keeps_what_is_seen(spliced, 0, i, p);
    assert(in_runs(ranges, i) <==> picks(targets, i));
    if wanted(i) {
        assert(targets.contains(i as usize));
        let k = choose|k: int| 0 <= k < targets.len() && targets[k] == i as usize;
        assert(targets[k] == i);
    }
    if picks(targets, i) {
        let k = choose|k: int| 0 <= k < targets.len() && #[trigger] targets[k] == i;
        assert(wanted(targets[k] as int));
    }
    if frames.contains(i as usize) {
        let k = choose|k: int| 0 <= k < frames.len() && frames[k] == i as usize;
        assert(frames[k] == i);
    }
    if picks(frames, i) {
        let k = choose|k: int| 0 <= k < frames.len() && #[trigger] frames[k] == i;
        assert(frames[k] == i as usize);
    }
}

/// Two frames are the same where their pixels, their times and their standing
/// are, whatever they are kept under.
pub proof fn law_frames_are_told_apart(a: FrameView, b: FrameView)
    ensures
        a.pixels != b.pixels ==> !same_frame(a, b),
        a.delay_cs != b.delay_cs ==> !same_frame(a, b),
        a.detached != b.detached ==> !same_frame(a, b),
        b == (FrameView { key: b.key, ..a }) ==> same_frame(a, b),
{
}

/// Overlays look the same only where all there is to see of them is the same:
/// name, kind, text, colors, and whether they are hidden.
pub proof fn law_overlays_are_told_apart(a: Overlay, b: Overlay)
    ensures
        a.name@ != b.name@ ==> !same_look(a, b),
        a.hidden != b.hidden ==> !same_look(a, b),
        a.kind is Text && b.kind is Shape ==> !same_look(a, b),
        a.kind is Text && b.kind is Text && a.kind->Text_0.text@ != b.kind->Text_0.text@ ==>
            !same_look(a, b),
        a.kind is Text && b.kind is Text && a.kind->Text_0.font@ != b.kind->Text_0.font@ ==>
            !same_look(a, b),
        a.kind is Text && b.kind is Text && a.kind->Text_0.color@ != b.kind->Text_0.color@ ==>
            !same_look(a, b),
        a.kind is Text && b.kind is Text && a.kind->Text_0.align != b.kind->Text_0.align ==>
            !same_look(a, b),
        a.kind is Text && b.kind is Text && a.kind->Text_0.antialias
            != b.kind->Text_0.antialias ==> !same_look(a, b),
        a.kind is Shape && b.kind is Shape && a.kind->Shape_0.shape != b.kind->Shape_0.shape ==>
            !same_look(a, b),
        a.kind is Shape && b.kind is Shape && a.kind->Shape_0.fill is Some
            != b.kind->Shape_0.fill is Some ==> !same_look(a, b),
        a.kind is Image && b.kind is Image && a.kind->Image_0.pixels@ != b.kind->Image_0.pixels@
            ==> !same_look(a, b),
{
}

} // verus!
