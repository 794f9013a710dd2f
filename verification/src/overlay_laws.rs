//! What the window does to overlays, said of what each frame shows.

use std::ops::Range;

use vstd::prelude::*;

use crate::answers::made_by;
use crate::app::{ids_on, place_of, top_hit, Aid, AppView, DragMode, EffectView};
use crate::coverage::{law_edit_stays_on_its_frames, lemma_shown_add, look, shown};
use crate::document::{find_id, lemma_find_id, painting};
use crate::edit_laws::{chosen, law_the_scope_is_what_was_chosen};
use crate::edits::with_text;
use crate::group::{in_runs, law_runs, on_each, runs};
use crate::model::{Overlay, OverlayId, OverlayKind, Shape, TextOverlay};
use crate::msg::{Msg, OverlayProp, Tool};
use crate::scope::{lemma_ascending, picks, span_of};
use crate::single::Single;

verus! {

/// Whether frame `i` lies between two chosen frames, or is one.
pub open spec fn spanned(app: AppView, i: int) -> bool {
    exists|a: int, b: int|
        0 <= a <= i <= b < app.doc().frames.len() && #[trigger] chosen(app, a) && #[trigger] chosen(
            app,
            b,
        )
}

/// Whether an edit of overlay `o`, which is on screen, is about frame `i`: the
/// part of it between the chosen frames, or the frame on screen alone where that
/// part is elsewhere.
pub open spec fn edit_reaches(app: AppView, o: Overlay, i: int) -> bool {
    o.covers(i) && if spanned(app, app.playhead as int) {
        spanned(app, i)
    } else {
        i == app.playhead
    }
}

proof fn lemma_span(app: AppView, i: int)
    requires
        app.wf(),
    ensures
        app.scope_span().start <= i < app.scope_span().end <==> spanned(app, i),
{
    let frames = app.scope_frames();
    let span = span_of(frames);
    lemma_ascending(app.count(), |k: int| app.names(k));
    if frames.len() > 0 {
        law_the_scope_is_what_was_chosen(app, frames[0]);
        law_the_scope_is_what_was_chosen(app, frames.last());
        assert(frames.contains(frames[0]));
        assert(frames.contains(frames.last()));
        assert(frames[0] < app.count());
        assert(frames[frames.len() - 1] < app.count());
        if span.start <= i < span.end {
            assert(chosen(app, frames[0] as int) && chosen(app, frames.last() as int));
        }
    }
    if spanned(app, i) {
        let (a, b) = choose|a: int, b: int|
            0 <= a <= i <= b < app.doc().frames.len() && #[trigger] chosen(app, a)
                && #[trigger] chosen(app, b);
        law_the_scope_is_what_was_chosen(app, a as usize);
        law_the_scope_is_what_was_chosen(app, b as usize);
        let x = choose|x: int| 0 <= x < frames.len() && frames[x] == a as usize;
        let y = choose|y: int| 0 <= y < frames.len() && frames[y] == b as usize;
        assert(x == 0 || frames[0] < frames[x]);
        assert(y == frames.len() - 1 || frames[y] < frames[frames.len() - 1]);
    }
}

proof fn lemma_found(overlays: Seq<Overlay>, p: int)
    requires
        0 <= p < overlays.len(),
        forall|a: int, b: int|
            0 <= a < b < overlays.len() ==> (#[trigger] overlays[a]).id != (
            #[trigger] overlays[b]).id,
    ensures
        find_id(overlays, overlays[p].id, 0) == p,
{
    lemma_find_id(overlays, overlays[p].id, 0);
    let i = find_id(overlays, overlays[p].id, 0);
    assert(overlays[p].id == overlays[p].id);
    if i < p {
        assert(overlays[i].id != overlays[p].id);
    }
}

proof fn lemma_overlay_edit(
    app: AppView,
    label: Seq<char>,
    p: int,
    f: spec_fn(Overlay) -> Overlay,
    i: int,
)
    requires
        app.wf(),
        0 <= p < app.doc().overlays.len(),
        app.doc().overlays[p].covers(app.playhead as int),
        forall|o: Overlay| (#[trigger] f(o)).range == o.range && f(o).id == o.id,
        app.doc().next_id + 2 <= u32::MAX,
    ensures
        ({
            let was = app.doc().overlays;
            let id = was[p].id;
            let after = app.overlay_changed(label, id, f);
            let now = after.doc().overlays;
            let under = shown(was.take(p), i);
            let over = shown(was.skip(p + 1), i);
            let whole = app.span_for(id);
            let piece = app.doc().piece(p, whole);
            &&& app.reaches(id)
            &&& whole.start <= app.playhead < whole.end
            &&& piece == (Overlay { id: piece.id, range: whole, ..was[p] })
            &&& edit_reaches(app, was[p], i) ==> shown(was, i) == under + seq![look(was[p])] + over
            &&& edit_reaches(app, was[p], i) ==> shown(now, i) == under + seq![look(f(piece))]
                + over
            &&& !edit_reaches(app, was[p], i) ==> shown(now, i) == shown(was, i)
            &&& after.doc().frames == app.doc().frames
            &&& after.editor.past.last().doc == app.doc()
            &&& after.playhead == app.playhead
        }),
{
    let was = app.doc().overlays;
    let o = was[p];
    let id = o.id;
    lemma_found(was, p);
    lemma_span(app, app.playhead as int);
    lemma_span(app, i);
    let span = app.span_for(id);
    assert(o.range.start < o.range.end <= app.doc().frames.len());
    let edit = app.doc().edited_frames(p, span);
    assert(edit == span);
    let piece = app.doc().piece(p, edit);
    assert(f(piece).range == edit);
    law_edit_stays_on_its_frames(app.doc(), p, edit, f(piece), i);
}

/// A text that is typed stands in the selected overlay on the frames the edit is
/// about, and no other frame shows anything else than before. The frame on
/// screen is one of them.
pub proof fn law_typing_changes_the_text(
    app: AppView,
    text: String,
    aid: Aid,
    after: AppView,
    effect: EffectView,
    p: int,
    i: int,
)
    requires
        app.wf(),
        app.roomy(),
        !app.blocked(Msg::EditText(text)),
        app.answered(Msg::EditText(text), aid, after, effect),
        0 <= p < app.doc().overlays.len(),
        app.selected_overlay == Some(app.doc().overlays[p].id),
        app.doc().overlays[p].covers(app.playhead as int),
        app.doc().overlays[p].kind is Text,
    ensures
        ({
            let (was, now) = (app.doc().overlays, after.doc().overlays);
            let under = shown(was.take(p), i);
            let over = shown(was.skip(p + 1), i);
            let line = was[p].kind->Text_0;
            let typed = Overlay {
                kind: OverlayKind::Text(TextOverlay { text, ..line }),
                ..look(was[p])
            };
            &&& edit_reaches(app, was[p], app.playhead as int)
            &&& edit_reaches(app, was[p], i) ==> shown(was, i) == under + seq![look(was[p])] + over
            &&& edit_reaches(app, was[p], i) ==> shown(now, i) == under + seq![typed] + over
            &&& !edit_reaches(app, was[p], i) ==> shown(now, i) == shown(was, i)
            &&& after.doc().frames == app.doc().frames
            &&& after.editor.past.last().doc == app.doc()
            &&& after.playhead == app.playhead
        }),
{
    let f = |o: Overlay| with_text(o, text);
    lemma_overlay_edit(app, "Text edited"@, p, f, i);
    lemma_span(app, app.playhead as int);
    assert(after == app.overlay_changed("Text edited"@, app.doc().overlays[p].id, f));
}

/// A style that is picked goes to the selected overlay on the frames the edit is
/// about, and no other frame shows anything else than before.
pub proof fn law_a_style_goes_to_the_selected_overlay(
    app: AppView,
    prop: OverlayProp,
    aid: Aid,
    after: AppView,
    effect: EffectView,
    p: int,
    i: int,
)
    requires
        app.wf(),
        app.roomy(),
        !app.blocked(Msg::SetOverlayProp(prop)),
        app.answered(Msg::SetOverlayProp(prop), aid, after, effect),
        0 <= p < app.doc().overlays.len(),
        app.selected_overlay == Some(app.doc().overlays[p].id),
        app.doc().overlays[p].covers(app.playhead as int),
        prop.makes_a_change(app.doc().overlays[p].kind, aid.resized),
    ensures
        ({
            let (was, now) = (app.doc().overlays, after.doc().overlays);
            let under = shown(was.take(p), i);
            let over = shown(was.skip(p + 1), i);
            let styled = Overlay { kind: prop.applied(was[p].kind), ..look(was[p]) };
            &&& edit_reaches(app, was[p], app.playhead as int)
            &&& edit_reaches(app, was[p], i) ==> shown(was, i) == under + seq![look(was[p])] + over
            &&& edit_reaches(app, was[p], i) ==> shown(now, i) == under + seq![styled] + over
            &&& !edit_reaches(app, was[p], i) ==> shown(now, i) == shown(was, i)
            &&& after.doc().frames == app.doc().frames
            &&& after.editor.past.last().doc == app.doc()
            &&& after.playhead == app.playhead
        }),
{
    let f = |o: Overlay| Overlay { kind: prop.applied(o.kind), ..o };
    lemma_found(app.doc().overlays, p);
    lemma_overlay_edit(app, "Overlay restyled"@, p, f, i);
    lemma_span(app, app.playhead as int);
    assert(after == app.overlay_changed("Overlay restyled"@, app.doc().overlays[p].id, f));
}

/// A style that would change nothing leaves everything as it is.
pub proof fn law_a_style_that_stands_is_no_step(
    app: AppView,
    prop: OverlayProp,
    aid: Aid,
    after: AppView,
    effect: EffectView,
    p: int,
)
    requires
        app.wf(),
        app.answered(Msg::SetOverlayProp(prop), aid, after, effect),
        0 <= p < app.doc().overlays.len(),
        app.selected_overlay == Some(app.doc().overlays[p].id),
        !prop.makes_a_change(app.doc().overlays[p].kind, aid.resized),
    ensures
        after == app,
{
    lemma_found(app.doc().overlays, p);
}

/// An overlay that is deleted is gone from the stack, and the others keep their
/// order.
pub proof fn law_deleting_an_overlay(
    app: AppView,
    aid: Aid,
    after: AppView,
    effect: EffectView,
    p: int,
    k: int,
)
    requires
        app.wf(),
        0 <= p < app.doc().overlays.len(),
        ({
            let id = app.doc().overlays[p].id;
            ||| !app.blocked(Msg::DeleteOverlay(id)) && app.answered(
                Msg::DeleteOverlay(id),
                aid,
                after,
                effect,
            )
            ||| !app.blocked(Msg::DeleteSelection) && app.selected_overlay == Some(id)
                && app.answered(Msg::DeleteSelection, aid, after, effect)
        }),
        0 <= k < app.doc().overlays.len() - 1,
    ensures
        ({
            let (was, now) = (app.doc().overlays, after.doc().overlays);
            &&& now.len() == was.len() - 1
            &&& k < p ==> now[k] == was[k]
            &&& k >= p ==> now[k] == was[k + 1]
            &&& after.doc().frames == app.doc().frames
            &&& after.editor.past.last().doc == app.doc()
            &&& after.playhead == app.playhead
        }),
{
    lemma_found(app.doc().overlays, p);
}

proof fn lemma_shown_each(o: Overlay, ranges: Seq<Range<usize>>, next_id: int, i: int)
    requires
        forall|k: int, l: int|
            0 <= k < l < ranges.len() ==> (#[trigger] ranges[k]).end < (
            #[trigger] ranges[l]).start,
    ensures
        shown(on_each(o, ranges, next_id), i) == if in_runs(ranges, i) {
            seq![look(o)]
        } else {
            seq![]
        },
    decreases ranges.len(),
{
    let all = on_each(o, ranges, next_id);
    if ranges.len() > 0 {
        let head = ranges.drop_last();
        lemma_shown_each(o, head, next_id, i);
        assert(all.drop_last() =~= on_each(o, head, next_id));
        let n = ranges.len() - 1;
        if in_runs(head, i) {
            let k = choose|k: int|
                0 <= k < head.len() && (#[trigger] head[k]).start <= i < head[k].end;
            assert(ranges[k].start <= i < ranges[k].end);
            assert(ranges[k].end < ranges[n].start);
        }
        if in_runs(ranges, i) && !in_runs(head, i) {
            let k = choose|k: int|
                0 <= k < ranges.len() && (#[trigger] ranges[k]).start <= i < ranges[k].end;
            if k < n {
                assert(head[k] == ranges[k]);
            }
        }
        assert(all.last().covers(i) == (ranges[n].start <= i < ranges[n].end));
        assert(look(all.last()) == look(o));
        assert(Seq::<Overlay>::empty().push(look(o)) =~= seq![look(o)]);
    } else {
        assert(shown(all, i) =~= seq![]);
    }
}

/// An overlay that is added lies on top of the others on every chosen frame and
/// on no other. It is what the tool makes, in plain sight, and the frames and the
/// overlays that were there stay.
pub proof fn law_an_overlay_goes_on_the_chosen_frames(
    app: AppView,
    tool: Tool,
    aid: Aid,
    after: AppView,
    effect: EffectView,
    i: int,
    k: int,
)
    requires
        app.wf(),
        app.roomy(),
        !app.blocked(Msg::AddOverlay(tool)),
        app.answered(Msg::AddOverlay(tool), aid, after, effect),
        app.scope_frames().len() > 0,
        0 <= i < app.doc().frames.len(),
        0 <= k < app.doc().overlays.len(),
    ensures
        ({
            let (was, now) = (app.doc().overlays, after.doc().overlays);
            &&& now.len() > was.len()
            &&& now[k] == was[k]
            &&& !chosen(app, i) ==> shown(now, i) == shown(was, i)
            &&& chosen(app, i) ==> exists|o: Overlay| #[trigger]
                made_by(tool, aid.spot, aid.size_px, o) && shown(now, i) == shown(was, i).push(
                    look(o),
                ) && !o.hidden && o.transform == aid.spot && match tool {
                    Tool::Text => o.kind is Text && o.kind->Text_0.size_px == aid.size_px,
                    Tool::Rect => o.kind is Shape && o.kind->Shape_0.shape == Shape::Rect,
                    Tool::Ellipse => o.kind is Shape && o.kind->Shape_0.shape == Shape::Ellipse,
                    Tool::Arrow => o.kind is Shape && o.kind->Shape_0.shape == Shape::Arrow,
                }
            &&& after.doc().frames == app.doc().frames
            &&& after.editor.past.last().doc == app.doc()
            &&& after.playhead == app.playhead
        }),
{
    let o = choose|o: Overlay|
        made_by(tool, aid.spot, aid.size_px, o) && (after, effect) == #[trigger] app.overlay_added(
            tool,
            o,
        );
    let frames = app.scope_frames();
    let ranges = runs(frames);
    lemma_ascending(app.count(), |k: int| app.names(k));
    law_runs(frames);
    law_the_scope_is_what_was_chosen(app, i as usize);
    let was = app.doc().overlays;
    lemma_shown_each(o, ranges, app.doc().next_id as int, i);
    lemma_shown_add(was, on_each(o, ranges, app.doc().next_id as int), i);
    assert(in_runs(ranges, i) <==> picks(frames, i));
    assert(shown(was, i) + seq![look(o)] =~= shown(was, i).push(look(o)));
    assert(shown(was, i) + seq![] =~= shown(was, i));
}

proof fn lemma_ids_on(overlays: Seq<Overlay>, frame: int, p: int)
    requires
        0 <= p <= overlays.len(),
    ensures
        ({
            let ids = ids_on(overlays, frame);
            let below = ids_on(overlays.take(p), frame);
            &&& below.len() <= ids.len()
            &&& forall|k: int| 0 <= k < below.len() ==> ids[k] == below[k]
            &&& p < overlays.len() && overlays[p].covers(frame) ==> below.len() < ids.len()
                && ids[below.len() as int] == overlays[p].id
        }),
    decreases overlays.len(),
{
    if p == overlays.len() {
        assert(overlays.take(p) =~= overlays);
    } else {
        let head = overlays.drop_last();
        lemma_ids_on(head, frame, p);
        assert(head.take(p) =~= overlays.take(p));
        if p < head.len() {
            assert(head[p] == overlays[p]);
        }
    }
}

proof fn lemma_ids_known(overlays: Seq<Overlay>, frame: int, k: int)
    requires
        0 <= k < ids_on(overlays, frame).len(),
    ensures
        exists|a: int|
            0 <= a < overlays.len() && (#[trigger] overlays[a]).covers(frame) && overlays[a].id
                == ids_on(overlays, frame)[k],
    decreases overlays.len(),
{
    let head = overlays.drop_last();
    if k < ids_on(head, frame).len() {
        lemma_ids_known(head, frame, k);
        let a = choose|a: int|
            0 <= a < head.len() && (#[trigger] head[a]).covers(frame) && head[a].id == ids_on(
                head,
                frame,
            )[k];
        assert(overlays[a] == head[a]);
    } else {
        assert(overlays[overlays.len() - 1].covers(frame));
    }
}

proof fn lemma_place_of(ids: Seq<OverlayId>, id: OverlayId, from: int, at: int)
    requires
        0 <= from <= at < ids.len(),
        ids[at] == id,
        forall|k: int| from <= k < at ==> #[trigger] ids[k] != id,
    ensures
        place_of(ids, id, from) == at,
    decreases at - from,
{
    if from < at {
        lemma_place_of(ids, id, from + 1, at);
    }
}

proof fn lemma_none_on(overlays: Seq<Overlay>, frame: int, from: int, to: int)
    requires
        0 <= from <= to <= overlays.len(),
        forall|k: int| from <= k < to ==> !(#[trigger] overlays[k]).covers(frame),
    ensures
        ids_on(overlays.take(to), frame) == ids_on(overlays.take(from), frame),
    decreases to - from,
{
    if from < to {
        lemma_none_on(overlays, frame, from, to - 1);
        assert(overlays.take(to).drop_last() =~= overlays.take(to - 1));
        assert(overlays.take(to).last() == overlays[to - 1]);
    }
}

proof fn lemma_place(overlays: Seq<Overlay>, frame: int, p: int)
    requires
        0 <= p < overlays.len(),
        overlays[p].covers(frame),
        forall|a: int, b: int|
            0 <= a < b < overlays.len() ==> (#[trigger] overlays[a]).id != (
            #[trigger] overlays[b]).id,
    ensures
        place_of(ids_on(overlays, frame), overlays[p].id, 0) == ids_on(
            overlays.take(p),
            frame,
        ).len(),
{
    let ids = ids_on(overlays, frame);
    let below = ids_on(overlays.take(p), frame);
    let id = overlays[p].id;
    lemma_ids_on(overlays, frame, p);
    assert forall|k: int| 0 <= k < below.len() implies #[trigger] ids[k] != id by {
        lemma_ids_known(overlays.take(p), frame, k);
        let a = choose|a: int|
            0 <= a < overlays.take(p).len() && (#[trigger] overlays.take(p)[a]).covers(frame)
                && overlays.take(p)[a].id == below[k];
        assert(overlays[a].id != overlays[p].id);
    }
    lemma_place_of(ids, id, 0, below.len() as int);
}

/// Raising an overlay takes it past the next one up that is on screen, and no
/// further; every other overlay keeps its order.
pub proof fn law_raising_passes_the_next_one_on_screen(
    app: AppView,
    aid: Aid,
    after: AppView,
    effect: EffectView,
    p: int,
    q: int,
    k: int,
)
    requires
        app.wf(),
        0 <= p < q < app.doc().overlays.len(),
        app.doc().overlays[p].covers(app.playhead as int),
        app.doc().overlays[q].covers(app.playhead as int),
        forall|a: int|
            p < a < q ==> !(#[trigger] app.doc().overlays[a]).covers(app.playhead as int),
        ({
            let msg = Msg::RestackOverlay { id: app.doc().overlays[p].id, up: true };
            !app.blocked(msg) && app.answered(msg, aid, after, effect)
        }),
        0 <= k < app.doc().overlays.len(),
    ensures
        ({
            let (was, now) = (app.doc().overlays, after.doc().overlays);
            &&& now.len() == was.len()
            &&& now[q] == was[p]
            &&& k < p || q < k ==> now[k] == was[k]
            &&& p <= k < q ==> now[k] == was[k + 1]
            &&& after.doc().frames == app.doc().frames
            &&& after.editor.past.last().doc == app.doc()
        }),
{
    let was = app.doc().overlays;
    let frame = app.playhead as int;
    lemma_place(was, frame, p);
    lemma_ids_on(was, frame, p);
    lemma_ids_on(was, frame, q);
    lemma_none_on(was, frame, p + 1, q);
    assert(was.take(p + 1).drop_last() =~= was.take(p));
    assert(app.neighbour(was[p].id, true) == Some(was[q].id));
    lemma_found(was, p);
    let rest = was.remove(p);
    assert forall|a: int, b: int| 0 <= a < b < rest.len() implies (#[trigger] rest[a]).id != (
    #[trigger] rest[b]).id by {
        let (x, y) = (
            if a < p {
                a
            } else {
                a + 1
            },
            if b < p {
                b
            } else {
                b + 1
            },
        );
        assert(was[x].id != was[y].id);
    }
    assert(rest[q - 1] == was[q]);
    lemma_found(rest, q - 1);
    assert(was[p].id != was[q].id);
}

/// Lowering an overlay takes it under the next one down that is on screen, and
/// no further; every other overlay keeps its order.
pub proof fn law_lowering_passes_the_next_one_on_screen(
    app: AppView,
    aid: Aid,
    after: AppView,
    effect: EffectView,
    q: int,
    p: int,
    k: int,
)
    requires
        app.wf(),
        0 <= q < p < app.doc().overlays.len(),
        app.doc().overlays[p].covers(app.playhead as int),
        app.doc().overlays[q].covers(app.playhead as int),
        forall|a: int|
            q < a < p ==> !(#[trigger] app.doc().overlays[a]).covers(app.playhead as int),
        ({
            let msg = Msg::RestackOverlay { id: app.doc().overlays[p].id, up: false };
            !app.blocked(msg) && app.answered(msg, aid, after, effect)
        }),
        0 <= k < app.doc().overlays.len(),
    ensures
        ({
            let (was, now) = (app.doc().overlays, after.doc().overlays);
            &&& now.len() == was.len()
            &&& now[q] == was[p]
            &&& k < q || p < k ==> now[k] == was[k]
            &&& q < k <= p ==> now[k] == was[k - 1]
            &&& after.doc().frames == app.doc().frames
            &&& after.editor.past.last().doc == app.doc()
        }),
{
    let was = app.doc().overlays;
    let frame = app.playhead as int;
    lemma_place(was, frame, p);
    lemma_ids_on(was, frame, p);
    lemma_ids_on(was, frame, q);
    lemma_none_on(was, frame, q + 1, p);
    assert(was.take(q + 1).drop_last() =~= was.take(q));
    assert(app.neighbour(was[p].id, false) == Some(was[q].id));
    lemma_found(was, p);
    let rest = was.remove(p);
    assert forall|a: int, b: int| 0 <= a < b < rest.len() implies (#[trigger] rest[a]).id != (
    #[trigger] rest[b]).id by {
        let (x, y) = (
            if a < p {
                a
            } else {
                a + 1
            },
            if b < p {
                b
            } else {
                b + 1
            },
        );
        assert(was[x].id != was[y].id);
    }
    assert(rest[q] == was[q]);
    lemma_found(rest, q);
    assert(was[q].id != was[p].id);
}

/// Whether a press can land on overlay `k`: it is on screen, in plain sight, and
/// the pointer is over it.
pub open spec fn under_pointer(app: AppView, aid: Aid, k: int) -> bool {
    let o = app.doc().overlays[k];
    !o.hidden && o.covers(app.playhead as int) && aid.inside@[k]
}

proof fn lemma_top_hit(overlays: Seq<Overlay>, frame: int, inside: Seq<bool>)
    requires
        overlays.len() <= usize::MAX,
    ensures
        match top_hit(painting(overlays, frame), inside) {
            Some(k) => {
                &&& k < overlays.len()
                &&& !overlays[k as int].hidden && overlays[k as int].covers(frame)
                    && inside[k as int]
                &&& forall|a: int|
                    k < a < overlays.len() ==> !(!(#[trigger] overlays[a]).hidden
                        && overlays[a].covers(frame) && inside[a])
            },
            None => forall|a: int|
                0 <= a < overlays.len() ==> !(!(#[trigger] overlays[a]).hidden
                    && overlays[a].covers(frame) && inside[a]),
        },
    decreases overlays.len(),
{
    if overlays.len() > 0 {
        let head = overlays.drop_last();
        lemma_top_hit(head, frame, inside);
        let below = painting(head, frame);
        let n = overlays.len() - 1;
        assert forall|a: int| 0 <= a < n implies #[trigger] overlays[a] == head[a] by {}
        if !overlays[n].hidden && overlays[n].covers(frame) {
            assert(below.push(n as usize).drop_last() =~= below);
        }
    }
}

/// A press picks up the topmost overlay under the pointer, or lets go of the
/// selected one where there is none. Nothing moves yet.
pub proof fn law_a_press_takes_the_topmost(
    app: AppView,
    x: Single,
    y: Single,
    state: crate::chord::Mods,
    aid: Aid,
    after: AppView,
    effect: EffectView,
    k: int,
)
    requires
        app.wf(),
        app.roomy(),
        !app.blocked(Msg::CanvasPress { x, y, state }),
        app.answered(Msg::CanvasPress { x, y, state }, aid, after, effect),
        !app.crop_tool,
        app.grabbable() is None || aid.grip is None && !crate::app::is_held(
            app.keymap@.modals[crate::actions::Modal::Rotate.rank()],
            state,
        ),
        0 <= k < app.doc().overlays.len(),
    ensures
        ({
            let o = app.doc().overlays[k];
            &&& after.editor == app.editor
            &&& under_pointer(app, aid, k) && (forall|a: int|
                k < a < app.doc().overlays.len() ==> !#[trigger] under_pointer(app, aid, a)) ==> {
                &&& after.selected_overlay == Some(o.id)
                &&& after.drag matches Some(drag)
                &&& drag.from == (x, y)
                &&& drag.origin == o.transform
                &&& drag.current == o.transform
                &&& !drag.moved
            }
            &&& (forall|a: int|
                0 <= a < app.doc().overlays.len() ==> !#[trigger] under_pointer(app, aid, a)) ==>
                after.selected_overlay is None && after.drag == app.drag
        }),
{
    let overlays = app.doc().overlays;
    lemma_top_hit(overlays, app.playhead as int, aid.inside@);
    let hit = top_hit(painting(overlays, app.playhead as int), aid.inside@);
    if hit is Some {
        let a = hit->Some_0 as int;
        assert(under_pointer(app, aid, a));
        if k < a {
            assert(under_pointer(app, aid, a));
        }
        if a < k {
            assert(!under_pointer(app, aid, k)) by {
                assert(overlays[k] == overlays[k]);
            }
        }
    } else {
        assert(!under_pointer(app, aid, k)) by {
            assert(overlays[k] == overlays[k]);
        }
    }
}

/// Letting go of an overlay that was dragged puts it where it was dragged to, on
/// the frames the edit is about and no others. One step back it stands where it
/// was picked up.
pub proof fn law_a_drag_lands_as_one_step(
    app: AppView,
    aid: Aid,
    after: AppView,
    effect: EffectView,
    p: int,
    i: int,
)
    requires
        app.wf(),
        app.roomy(),
        !app.blocked(Msg::CanvasRelease),
        app.answered(Msg::CanvasRelease, aid, after, effect),
        0 <= p < app.doc().overlays.len(),
        app.selected_overlay == Some(app.doc().overlays[p].id),
        app.doc().overlays[p].covers(app.playhead as int),
        app.drag is Some,
        app.drag->Some_0.moved,
        app.drag->Some_0.mode != DragMode::CropRect,
    ensures
        ({
            let drag = app.drag->Some_0;
            let was = app.doc().overlays;
            let back = was.update(p, Overlay { transform: drag.origin, ..was[p] });
            let now = after.doc().overlays;
            let under = shown(was.take(p), i);
            let over = shown(was.skip(p + 1), i);
            let put = Overlay { transform: drag.current, ..look(was[p]) };
            &&& after.drag is None
            &&& edit_reaches(app, was[p], i) ==> shown(now, i) == under + seq![put] + over
            &&& !edit_reaches(app, was[p], i) ==> shown(now, i) == shown(back, i)
            &&& after.doc().frames == app.doc().frames
            &&& after.editor.past.last().doc.overlays == back
            &&& after.editor.past.last().doc.frames == app.doc().frames
            &&& after.editor.future.len() == 0
        }),
{
    let drag = app.drag->Some_0;
    let was = app.doc().overlays;
    let id = was[p].id;
    lemma_found(was, p);
    let held = AppView { drag: None, ..app };
    let back = held.placed(id, drag.origin);
    crate::app_laws::lemma_placed_keeps_wf(held, id, drag.origin);
    let f = |o: Overlay| Overlay { transform: drag.current, ..o };
    lemma_overlay_edit(back, AppView::drag_label(drag.mode), p, f, i);
    let others = back.doc().overlays;
    assert(others.take(p) =~= was.take(p));
    assert(others.skip(p + 1) =~= was.skip(p + 1));
    lemma_same_choice(app, back);
    assert(edit_reaches(back, others[p], i) == edit_reaches(app, was[p], i));
}

proof fn lemma_same_choice(a: AppView, b: AppView)
    requires
        a.scope == b.scope,
        a.selection == b.selection,
        a.playhead == b.playhead,
        a.doc().frames == b.doc().frames,
    ensures
        forall|i: int| chosen(a, i) == #[trigger] chosen(b, i),
        forall|i: int| spanned(a, i) == #[trigger] spanned(b, i),
{
    assert forall|i: int| spanned(a, i) == #[trigger] spanned(b, i) by {
        if spanned(a, i) {
            let (x, y) = choose|x: int, y: int|
                0 <= x <= i <= y < a.doc().frames.len() && #[trigger] chosen(a, x)
                    && #[trigger] chosen(a, y);
            assert(chosen(b, x) && chosen(b, y));
        }
        if spanned(b, i) {
            let (x, y) = choose|x: int, y: int|
                0 <= x <= i <= y < b.doc().frames.len() && #[trigger] chosen(b, x)
                    && #[trigger] chosen(b, y);
            assert(chosen(a, x) && chosen(a, y));
        }
    }
}

/// The overlay that was added is the selected one, and of its pieces the one on
/// screen where one is.
pub proof fn law_the_new_overlay_is_selected(
    app: AppView,
    tool: Tool,
    aid: Aid,
    after: AppView,
    effect: EffectView,
)
    requires
        app.wf(),
        app.roomy(),
        !app.blocked(Msg::AddOverlay(tool)),
        app.answered(Msg::AddOverlay(tool), aid, after, effect),
        app.scope_frames().len() > 0,
    ensures
        exists|q: int|
            app.doc().overlays.len() <= q < after.doc().overlays.len() && after.selected_overlay
                == Some((#[trigger] after.doc().overlays[q]).id) && (chosen(
                app,
                app.playhead as int,
            ) ==> after.doc().overlays[q].covers(app.playhead as int)),
{
    let o = choose|o: Overlay|
        made_by(tool, aid.spot, aid.size_px, o) && (after, effect) == #[trigger] app.overlay_added(
            tool,
            o,
        );
    let frames = app.scope_frames();
    let ranges = runs(frames);
    lemma_ascending(app.count(), |k: int| app.names(k));
    law_runs(frames);
    crate::group::lemma_runs_len(frames);
    law_the_scope_is_what_was_chosen(app, app.playhead);
    let was = app.doc().overlays;
    let now = after.doc().overlays;
    let next = app.doc().next_id as int;
    let k = crate::answers::run_with(ranges, app.playhead as int, 0);
    lemma_run_with(ranges, app.playhead as int, 0);
    let at = if k < ranges.len() {
        k
    } else {
        0
    };
    let q = was.len() + at;
    assert(frames.len() <= app.count());
    assert(now == was + on_each(o, ranges, next));
    assert(now[q] == on_each(o, ranges, next)[at]);
    let id = OverlayId((next + at) as u32);
    assert(now[q].id == id);
    lemma_find_id(now, id, 0);
    if find_id(now, id, 0) >= now.len() {
        assert(now[q].id != id);
    }
    if chosen(app, app.playhead as int) && app.playhead < app.count() {
        assert(picks(frames, app.playhead as int));
        assert(in_runs(ranges, app.playhead as int));
        let a = choose|a: int|
            0 <= a < ranges.len() && (#[trigger] ranges[a]).start <= app.playhead < ranges[a].end;
        assert(k < ranges.len());
        assert(now[q].covers(app.playhead as int));
    }
    assert(frames[0] < app.count());
    assert(app.playhead < app.count());
    assert(was.len() <= q < now.len());
    assert(chosen(app, app.playhead as int) ==> now[q].covers(app.playhead as int));
    assert(after.selected_overlay == Some(now[q].id));
}

proof fn lemma_run_with(ranges: Seq<Range<usize>>, frame: int, from: int)
    requires
        0 <= from <= ranges.len(),
    ensures
        ({
            let k = crate::answers::run_with(ranges, frame, from);
            &&& from <= k <= ranges.len()
            &&& k < ranges.len() ==> ranges[k].start <= frame < ranges[k].end
            &&& forall|a: int|
                from <= a < k ==> !((#[trigger] ranges[a]).start <= frame < ranges[a].end)
        }),
    decreases ranges.len() - from,
{
    if from < ranges.len() && !(ranges[from].start <= frame < ranges[from].end) {
        lemma_run_with(ranges, frame, from + 1);
    }
}

/// The list of layers names the overlays on screen from the top down.
pub proof fn law_layers_are_listed_from_the_top(overlays: Seq<Overlay>, frame: int, k: int)
    requires
        0 <= k < ids_on(overlays, frame).len(),
    ensures
        crate::app::layers(overlays, frame).len() == ids_on(overlays, frame).len(),
        crate::app::layers(overlays, frame)[k].0 == ids_on(overlays, frame)[ids_on(
            overlays,
            frame,
        ).len() - 1 - k],
    decreases overlays.len(),
{
    let head = overlays.drop_last();
    let (ids, rest) = (ids_on(overlays, frame), ids_on(head, frame));
    lemma_layers_len(head, frame);
    if overlays.last().covers(frame) {
        if k > 0 {
            law_layers_are_listed_from_the_top(head, frame, k - 1);
        }
    } else {
        law_layers_are_listed_from_the_top(head, frame, k);
    }
}

proof fn lemma_layers_len(overlays: Seq<Overlay>, frame: int)
    ensures
        crate::app::layers(overlays, frame).len() == ids_on(overlays, frame).len(),
    decreases overlays.len(),
{
    if overlays.len() > 0 {
        lemma_layers_len(overlays.drop_last(), frame);
    }
}

/// With the crop tool out a press starts a box where it falls, and with a grip of
/// the selected overlay under it a press takes hold of that grip.
pub proof fn law_a_press_takes_hold(
    app: AppView,
    x: Single,
    y: Single,
    state: crate::chord::Mods,
    aid: Aid,
    after: AppView,
    effect: EffectView,
    p: int,
)
    requires
        app.wf(),
        !app.blocked(Msg::CanvasPress { x, y, state }),
        app.answered(Msg::CanvasPress { x, y, state }, aid, after, effect),
    ensures
        app.crop_tool ==> {
            &&& after.crop_rect matches Some(corner)
            &&& corner.0 == x && corner.1 == y
            &&& after.drag matches Some(drag)
            &&& drag.mode == DragMode::CropRect && drag.from == (x, y) && !drag.moved
            &&& after.selected_overlay == app.selected_overlay
        },
        ({
            let o = app.doc().overlays[p];
            &&& !app.crop_tool && aid.grip is Some && 0 <= p < app.doc().overlays.len()
                && app.selected_overlay == Some(o.id) && !o.hidden && o.covers(app.playhead as int)
                ==> {
                let turning = crate::app::is_held(
                    app.keymap@.modals[crate::actions::Modal::Rotate.rank()],
                    state,
                );
                &&& after.drag matches Some(drag)
                &&& drag.mode == if turning {
                    DragMode::Rotate
                } else {
                    DragMode::Resize(aid.grip->Some_0)
                }
                &&& drag.from == (x, y) && drag.origin == o.transform && !drag.moved
                &&& after.selected_overlay == app.selected_overlay
            }
        }),
{
    if 0 <= p < app.doc().overlays.len() {
        lemma_found(app.doc().overlays, p);
    }
}

/// A drag moves nothing until the pointer leaves its place. From then on the
/// selected overlay stands where it is dragged to, and nothing else moves.
pub proof fn law_a_drag_moves_the_selected_overlay(
    app: AppView,
    msg: Msg,
    aid: Aid,
    after: AppView,
    effect: EffectView,
    p: int,
    k: int,
)
    requires
        app.wf(),
        msg is CanvasDrag,
        !app.blocked(msg),
        app.answered(msg, aid, after, effect),
        0 <= p < app.doc().overlays.len(),
        app.selected_overlay == Some(app.doc().overlays[p].id),
        app.drag is Some,
        app.drag->Some_0.mode != DragMode::CropRect,
        0 <= k < app.doc().overlays.len(),
    ensures
        ({
            let (was, now) = (app.doc().overlays, after.doc().overlays);
            let starts = aid.away || app.drag->Some_0.moved;
            &&& !starts ==> after == app
            &&& starts ==> {
                &&& now.len() == was.len()
                &&& now[p] == (Overlay { transform: aid.dragged, ..was[p] })
                &&& k != p ==> now[k] == was[k]
                &&& after.doc().frames == app.doc().frames
                &&& after.editor.past == app.editor.past
                &&& after.drag matches Some(drag)
                &&& drag.moved && drag.current == aid.dragged
                &&& drag.origin == app.drag->Some_0.origin && drag.mode == app.drag->Some_0.mode
            }
        }),
{
    lemma_found(app.doc().overlays, p);
}

} // verus!
