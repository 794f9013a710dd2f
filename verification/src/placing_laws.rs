//! Where frames that move, come and go stand afterwards.

use vstd::prelude::*;

use crate::app::{Aid, AppView, EffectView};
use crate::document::total_delay;
use crate::drag::{law_set_lands_as_one_run, places, removed_all};
use crate::model::FrameView;
use crate::msg::Msg;
use crate::retain::{count_kept, kept_before, lemma_count_kept, lemma_retained_len, retained};
use crate::retain_laws::{delays_fit, law_retain_preserves_duration, law_survivors_keep_their_place};
use crate::scope::{lemma_ascending, picks};
use crate::selection::{count_below, law_the_rest_close_up, lemma_count_below, nudge_gap};

verus! {

/// A frame that is moved stands at its new place and is on screen there, and the
/// others keep their order.
pub proof fn law_a_moved_frame_stands_at_its_place(
    app: AppView,
    from: usize,
    to: usize,
    aid: Aid,
    after: AppView,
    effect: EffectView,
    i: int,
)
    requires
        app.wf(),
        !app.blocked(Msg::MoveFrame(from, to)),
        app.answered(Msg::MoveFrame(from, to), aid, after, effect),
        from < app.doc().frames.len(),
        to < app.doc().frames.len(),
        from != to,
        0 <= i < app.doc().frames.len(),
    ensures
        ({
            let (was, now) = (app.doc().frames, after.doc().frames);
            &&& now.len() == was.len()
            &&& now[to as int] == was[from as int]
            &&& from < to && from <= i < to ==> now[i] == was[i + 1]
            &&& to < from && to < i <= from ==> now[i] == was[i - 1]
            &&& i < from && i < to || i > from && i > to ==> now[i] == was[i]
            &&& after.playhead == to
            &&& after.editor.past.last().doc == app.doc()
        }),
{
}

/// How many of the picked frames come before place `x`.
pub open spec fn so_many_before(picked: Seq<usize>, x: int, c: int) -> bool {
    &&& 0 <= c <= picked.len()
    &&& c > 0 ==> picked[c - 1] < x
    &&& c < picked.len() ==> x <= picked[c]
}

proof fn lemma_before(picked: Seq<usize>, n: nat, x: int, c: int)
    requires
        places(picked, n),
        0 <= x,
        so_many_before(picked, x, c),
    ensures
        count_below(picked, x) == c,
{
    lemma_count_below(picked, x);
    let b = count_below(picked, x) as int;
    if c < b {
        assert(picked[c] < x);
    }
    if b < c {
        assert(!(picked[b] < x));
        assert(b == c - 1 || picked[b] < picked[c - 1]);
    }
}

proof fn lemma_same_places(a: Seq<usize>, n: nat)
    requires
        places(a, n),
        n <= usize::MAX,
    ensures
        crate::scope::ascending(n, |i: int| picks(a, i)) == a,
{
    let p = |i: int| picks(a, i);
    let b = crate::scope::ascending(n, p);
    lemma_ascending(n, p);
    assert forall|i: int| picks(a, i) == picks(b, i) by {
        if picks(a, i) {
            let k = choose|k: int| 0 <= k < a.len() && #[trigger] a[k] == i;
            assert(p(i));
            assert(b.contains(i as usize));
            let l = choose|l: int| 0 <= l < b.len() && b[l] == i as usize;
            assert(b[l] == i);
        }
        if picks(b, i) {
            let l = choose|l: int| 0 <= l < b.len() && #[trigger] b[l] == i;
            assert(p(b[l] as int));
        }
    }
    crate::selection::lemma_same_set(a, b);
}

proof fn lemma_set_moved(app: AppView, picked: Seq<usize>, gap: int, g: int, i: int, c: int, k: int)
    requires
        app.wf(),
        app.roomy(),
        picked.len() > 0,
        places(picked, app.count()),
        0 <= gap <= app.count(),
        so_many_before(picked, gap, g),
        0 <= i < app.count(),
        so_many_before(picked, i, c),
        0 <= k < picked.len(),
    ensures
        ({
            let n = picked.len();
            let to = gap - g;
            let (was, now) = (app.doc().frames, app.picked_moved(picked, to).doc().frames);
            &&& 0 <= to
            &&& to + n <= was.len()
            &&& now.len() == was.len()
            &&& now[to + k] == was[picked[k] as int]
            &&& !picked.contains(i as usize) && i < gap ==> now[i - c] == was[i]
            &&& !picked.contains(i as usize) && i >= gap ==> now[i - c + n] == was[i]
        }),
{
    let n = picked.len();
    let to = gap - g;
    let doc = app.doc();
    lemma_before(picked, app.count(), gap, g);
    lemma_before(picked, app.count(), i, c);
    crate::selection::law_set_lands_at_the_divider(doc.frames, picked, gap);
    lemma_same_places(picked, app.count());
    assert(doc.picked_frames(picked) == picked);
    law_set_lands_as_one_run(doc, picked, to);
    let stay = removed_all(doc.frames, picked);
    if !picked.contains(i as usize) {
        if picks(picked, i) {
            let a = choose|a: int| 0 <= a < picked.len() && #[trigger] picked[a] == i;
            assert(picked[a] == i as usize);
        }
        law_the_rest_close_up(doc.frames, picked, i);
        lemma_count_below(picked, i);
        lemma_count_below(picked, gap);
        if i < gap {
            if c < g {
                crate::selection::lemma_rising_from(picked, c, g - 1);
                assert(picked[c] != i);
            }
            assert(i - c < to);
        } else {
            if g < c {
                crate::selection::lemma_rising_from(picked, g, c - 1);
            }
            assert(i - c >= to);
        }
    }
    crate::drag::lemma_removed_all(doc.frames, picked);
}

/// Frames that are dragged to a divider stand there together and in order, and
/// the frames left of it stay left of it, those right of it stay right. So do
/// frames that are nudged, one place past the frame next to them.
pub proof fn law_dragged_frames_land_at_the_divider(
    app: AppView,
    from: usize,
    gap: usize,
    aid: Aid,
    after: AppView,
    effect: EffectView,
    g: int,
    i: int,
    c: int,
    k: int,
)
    requires
        app.wf(),
        app.roomy(),
        !app.blocked(Msg::MoveSelectionTo { from, gap }),
        app.answered(Msg::MoveSelectionTo { from, gap }, aid, after, effect),
        from < app.doc().frames.len(),
        gap <= app.doc().frames.len(),
        0 <= i < app.doc().frames.len(),
        ({
            let picked = if app.selection.len() > 1 && app.selection.contains(from) {
                app.selection
            } else {
                seq![from]
            };
            &&& so_many_before(picked, gap as int, g)
            &&& so_many_before(picked, i, c)
            &&& 0 <= k < picked.len()
        }),
    ensures
        ({
            let picked = if app.selection.len() > 1 && app.selection.contains(from) {
                app.selection
            } else {
                seq![from]
            };
            let n = picked.len();
            let (was, now) = (app.doc().frames, after.doc().frames);
            &&& now.len() == was.len()
            &&& now[gap - g + k] == was[picked[k] as int]
            &&& !picked.contains(i as usize) && i < gap ==> now[i - c] == was[i]
            &&& !picked.contains(i as usize) && i >= gap ==> now[i - c + n] == was[i]
            &&& after.playhead < now.len()
            &&& now[after.playhead as int] == was[app.playhead as int]
        }),
{
    let picked = if app.selection.len() > 1 && app.selection.contains(from) {
        app.selection
    } else {
        seq![from]
    };
    if picks(app.selection, from as int) {
        let a = choose|a: int| 0 <= a < app.selection.len() && #[trigger] app.selection[a] == from;
        assert(app.selection.contains(from));
    }
    if app.selection.contains(from) {
        let a = choose|a: int| 0 <= a < app.selection.len() && app.selection[a] == from;
        assert(app.selection[a] == from);
        assert(picks(app.selection, from as int));
    }
    let to = gap - g;
    lemma_before(picked, app.count(), gap as int, g);
    lemma_set_moved(app, picked, gap as int, g, i, c, k);
    if AppView::stands_at(picked, to) {
        lemma_stood(picked, app.count(), gap as int, g, i, c);
        assert(picked[k] == to + k);
    } else {
        crate::app_laws::law_the_playhead_rides_its_frame(app, picked, to);
    }
}

proof fn lemma_stood(picked: Seq<usize>, n: nat, gap: int, g: int, i: int, c: int)
    requires
        places(picked, n),
        n <= usize::MAX,
        picked == crate::selection::run_of(gap - g, picked.len() as int),
        0 <= gap - g,
        gap - g + picked.len() <= n,
        so_many_before(picked, gap, g),
        so_many_before(picked, i, c),
        0 <= i < n,
        picked.len() > 0,
    ensures
        !picked.contains(i as usize) && i < gap ==> c == 0,
        !picked.contains(i as usize) && i >= gap ==> c == picked.len(),
{
    let to = gap - g;
    if to <= i < to + picked.len() {
        assert(picked[i - to] == i as usize);
        assert(picked.contains(i as usize));
    } else if i < to {
        if c > 0 {
            assert(picked[c - 1] == to + c - 1);
        }
    } else {
        if c < picked.len() {
            assert(picked[c] == to + c);
        }
    }
}

/// Nudging the chosen frames takes them together one place past the frame next
/// to them, the rest in order around them. At the end they stay.
pub proof fn law_nudging_passes_one_frame(
    app: AppView,
    earlier: bool,
    aid: Aid,
    after: AppView,
    effect: EffectView,
    gap: int,
    g: int,
    i: int,
    c: int,
    k: int,
)
    requires
        app.wf(),
        app.roomy(),
        !app.blocked(Msg::MoveSelection { earlier }),
        app.answered(Msg::MoveSelection { earlier }, aid, after, effect),
        0 <= i < app.doc().frames.len(),
        ({
            let picked = app.scope_frames();
            &&& 0 <= k < picked.len()
            &&& gap == if earlier {
                picked[0] - 1
            } else {
                picked.last() + 2
            }
            &&& so_many_before(picked, gap, g)
            &&& so_many_before(picked, i, c)
        }),
    ensures
        ({
            let picked = app.scope_frames();
            let n = picked.len();
            let (was, now) = (app.doc().frames, after.doc().frames);
            &&& !(0 <= gap <= was.len()) ==> after == app
            &&& 0 <= gap <= was.len() ==> {
                &&& now.len() == was.len()
                &&& now[gap - g + k] == was[picked[k] as int]
                &&& !picked.contains(i as usize) && i < gap ==> now[i - c] == was[i]
                &&& !picked.contains(i as usize) && i >= gap ==> now[i - c + n] == was[i]
                &&& after.playhead < now.len()
                &&& now[after.playhead as int] == was[app.playhead as int]
            }
        }),
{
    let picked = app.scope_frames();
    lemma_ascending(app.count(), |k: int| app.names(k));
    assert(picked[0] < app.count());
    assert(picked[picked.len() - 1] < app.count());
    if 0 <= gap <= app.count() {
        let to = gap - g;
        lemma_before(picked, app.count(), gap, g);
        assert(nudge_gap(picked, earlier, app.count() as int) == Some(gap));
        lemma_set_moved(app, picked, gap, g, i, c, k);
        if AppView::stands_at(picked, to) {
            lemma_stood(picked, app.count(), gap, g, i, c);
            assert(picked[k] == to + k);
        } else {
            crate::app_laws::law_the_playhead_rides_its_frame(app, picked, to);
        }
    }
}

/// A picture that is inserted becomes the frame right behind the one it was
/// inserted at, with that one's delay and the canvas's size, and is on screen.
/// The others keep their order. Past the end it comes last.
pub proof fn law_an_inserted_picture_stands_behind_its_frame(
    app: AppView,
    index: usize,
    img: crate::raster::Raster,
    aid: Aid,
    after: AppView,
    effect: EffectView,
    i: int,
)
    requires
        app.wf(),
        app.roomy(),
        !app.blocked(Msg::InsertImageFrame(index, Some(img))),
        app.answered(Msg::InsertImageFrame(index, Some(img)), aid, after, effect),
        0 <= i < app.doc().frames.len(),
    ensures
        ({
            let (was, now) = (app.doc().frames, after.doc().frames);
            let at = if index < was.len() {
                index + 1
            } else {
                was.len() as int
            };
            let size = (was[0].pixels.width, was[0].pixels.height);
            &&& now.len() == was.len() + 1
            &&& i < at ==> now[i] == was[i]
            &&& i >= at ==> now[i + 1] == was[i]
            &&& index < was.len() ==> now[at].delay_cs == was[index as int].delay_cs
            &&& index >= was.len() ==> now[at].delay_cs == 10
            &&& (img@.width, img@.height) == size ==> now[at].pixels == img@
            &&& now[at].key == app.next_key
            &&& !now[at].detached
            &&& after.next_key != app.next_key
            &&& after.playhead == at
            &&& after.editor.past.last().doc == app.doc()
        }),
{
}

/// A picture that is appended becomes the last frame, with the delay of the one
/// before it, and is on screen.
pub proof fn law_an_appended_picture_comes_last(
    app: AppView,
    img: crate::raster::Raster,
    aid: Aid,
    after: AppView,
    effect: EffectView,
)
    requires
        app.wf(),
        app.roomy(),
        !app.blocked(Msg::AppendImageFrame(Some(img))),
        app.answered(Msg::AppendImageFrame(Some(img)), aid, after, effect),
    ensures
        ({
            let (was, now) = (app.doc().frames, after.doc().frames);
            &&& now.len() == was.len() + 1
            &&& now.drop_last() == was
            &&& was.len() > 0 ==> now.last().delay_cs == was.last().delay_cs
            &&& was.len() == 0 ==> now.last().delay_cs == 10 && now.last().pixels == img@
            &&& after.playhead == was.len()
            &&& after.editor.past.last().doc == app.doc()
        }),
{
    assert(after.doc().frames.drop_last() =~= app.doc().frames);
}

/// A picture that cannot be read changes nothing and is spoken of.
pub proof fn law_an_unreadable_picture_changes_nothing(
    app: AppView,
    msg: Msg,
    aid: Aid,
    after: AppView,
    effect: EffectView,
)
    requires
        !app.blocked(msg),
        app.answered(msg, aid, after, effect),
        msg == Msg::AppendImageFrame(None) || (msg matches Msg::InsertImageFrame(_, img)
            && img is None),
    ensures
        after == app,
        effect is Say,
{
}

proof fn lemma_every_nth(total: nat, n: int, i: int)
    requires
        n >= 2,
        0 <= i <= total,
    ensures
        ({
            let keep = Seq::new(total, |k: int| (k + 1) % n != 0);
            &&& kept_before(keep, i) == i - i / n
            &&& count_kept(keep.take(i)) == i - i / n
        }),
    decreases i,
{
    let keep = Seq::new(total, |k: int| (k + 1) % n != 0);
    if i > 0 {
        lemma_every_nth(total, n, i - 1);
        assert(keep.take(i).drop_last() =~= keep.take(i - 1));
        assert(keep.take(i).last() == keep[i - 1]);
        if i % n == 0 {
            assert((i - 1) / n == i / n - 1) by (nonlinear_arith)
                requires
                    i % n == 0,
                    n >= 2,
                    i > 0,
            ;
        } else {
            assert((i - 1) / n == i / n) by (nonlinear_arith)
                requires
                    i % n != 0,
                    n >= 2,
                    i > 0,
            ;
        }
    } else {
        assert(0int / n == 0) by (nonlinear_arith)
            requires
                n >= 2,
        ;
        assert(keep.take(0) =~= seq![]);
    }
}

/// Dropping every n-th frame takes the n-th out, the next n-th, and so on. The
/// others close up, and the time it all takes stays where the delays have room.
pub proof fn law_every_nth_frame_goes(
    app: AppView,
    every: usize,
    aid: Aid,
    after: AppView,
    effect: EffectView,
    i: int,
)
    requires
        app.wf(),
        !app.blocked(Msg::DropEveryNth(every)),
        app.answered(Msg::DropEveryNth(every), aid, after, effect),
        every >= 2,
        0 <= i < app.doc().frames.len(),
        (i + 1) % (every as int) != 0,
    ensures
        ({
            let n = every as int;
            let (was, now) = (app.doc().frames, after.doc().frames);
            let keep = Seq::new(was.len(), |k: int| (k + 1) % n != 0);
            &&& now.len() == was.len() - was.len() as int / n
            &&& now[i - i / n].pixels == was[i].pixels
            &&& now[i - i / n].key == was[i].key
            &&& delays_fit(was, keep) ==> total_delay(now) == total_delay(was)
            &&& after.playhead == 0
        }),
{
    let n = every as int;
    let doc = app.doc();
    let total = doc.frames.len();
    let keep = Seq::new(total, |k: int| (k + 1) % n != 0);
    let doomed = |k: int| (k + 1) % n == 0;
    let used = Seq::new(total, |k: int| !doomed(k));
    assert(keep =~= used);
    lemma_every_nth(total, n, i);
    lemma_every_nth(total, n, total as int);
    assert(keep.take(total as int) =~= keep);
    lemma_count_kept(keep);
    lemma_retained_len(doc.frames, keep);
    law_survivors_keep_their_place(doc.frames, keep, i);
    if delays_fit(doc.frames, keep) {
        law_retain_preserves_duration(doc.frames, keep);
    }
    assert(doc.without(doomed).frames == retained(doc.frames, keep)) by {
        if crate::retain::all_kept(keep) {
            lemma_all_kept(doc.frames, keep);
        }
    }
}

proof fn lemma_all_kept(frames: Seq<FrameView>, keep: Seq<bool>)
    requires
        frames.len() == keep.len(),
        crate::retain::all_kept(keep),
    ensures
        retained(frames, keep) == frames,
    decreases frames.len(),
{
    if frames.len() > 0 {
        lemma_all_kept(frames.drop_last(), keep.drop_last());
        assert(keep[keep.len() - 1]);
        assert(frames.drop_last().push(frames.last()) =~= frames);
    } else {
        assert(retained(frames, keep) =~= frames);
    }
}

} // verus!
