//! What the edits of the window do to the document, said of each frame.

use std::ops::Range;

use vstd::prelude::*;

use crate::app::{duplicated, Aid, AppView, EffectView};
use crate::document::{total_delay, DocView};
use crate::model::{FrameView, Overlay};
use crate::msg::{FrameOp, Msg, ScopeChoice};
use crate::retain::{count_kept, kept_before, lemma_count_kept, lemma_retained_len, retained};
use crate::retain_laws::{delays_fit, law_retain_preserves_duration, law_survivors_keep_their_place};
use crate::scope::{lemma_ascending, picks};

verus! {

/// Whether the window's edits are about frame `i`: every frame, those that are
/// picked, or the one on screen.
pub open spec fn chosen(app: AppView, i: int) -> bool {
    if app.scope == ScopeChoice::AllFrames {
        true
    } else if app.scope == ScopeChoice::Range && app.selection.len() > 0 {
        exists|k: int| 0 <= k < app.selection.len() && #[trigger] app.selection[k] == i
    } else {
        i == app.playhead
    }
}

/// The frames in scope are the chosen ones, each once and in order.
pub proof fn law_the_scope_is_what_was_chosen(app: AppView, i: usize)
    requires
        app.count() <= usize::MAX,
    ensures
        ({
            let frames = app.scope_frames();
            &&& forall|a: int, b: int| 0 <= a < b < frames.len() ==> frames[a] < frames[b]
            &&& frames.contains(i) <==> i < app.doc().frames.len() && chosen(app, i as int)
            &&& picks(frames, i as int) <==> i < app.doc().frames.len() && chosen(app, i as int)
        }),
{
    let p = |k: int| app.names(k);
    let frames = app.scope_frames();
    lemma_ascending(app.count(), p);
    if frames.contains(i) {
        let a = choose|a: int| 0 <= a < frames.len() && frames[a] == i;
        assert(p(frames[a] as int));
        assert(frames[a] == i);
    }
    if picks(frames, i as int) {
        let a = choose|a: int| 0 <= a < frames.len() && #[trigger] frames[a] == i;
        assert(frames.contains(i));
        assert(p(frames[a] as int));
    }
    if i < app.count() && chosen(app, i as int) {
        assert(p(i as int));
        assert(frames.contains(i));
        let a = choose|a: int| 0 <= a < frames.len() && frames[a] == i;
        assert(frames[a] == i);
    }
}

/// What is dropped of a list leaves each kept frame with the time of the dropped
/// ones that followed it, and the first with the time of those ahead of it too.
pub proof fn law_a_dropped_frame_lengthens_the_one_before(
    frames: Seq<FrameView>,
    keep: Seq<bool>,
    i: int,
    j: int,
)
    requires
        frames.len() == keep.len(),
        0 <= i < j <= frames.len(),
        keep[i],
        forall|k: int| i < k < j ==> !#[trigger] keep[k],
        j < keep.len() ==> keep[j],
    ensures
        ({
            let lo = if kept_before(keep, i) == 0 {
                0
            } else {
                i
            };
            let time = total_delay(frames.subrange(lo, j));
            retained(frames, keep)[kept_before(keep, i) as int].delay_cs == if time > 0xffff {
                0xffff
            } else {
                time
            }
        }),
    decreases frames.len(),
{
    let (f, k) = (frames.drop_last(), keep.drop_last());
    let before = retained(f, k);
    lemma_retained_len(f, k);
    lemma_retained_len(frames, keep);
    crate::document::lemma_total_delay_nonnegative(f);
    let p = kept_before(keep, i) as int;
    let lo = if p == 0 {
        0
    } else {
        i
    };
    let last = frames.len() - 1;
    if i < last {
        assert(k.take(i) =~= keep.take(i));
        law_survivors_keep_their_place(f, k, i);
    }
    if j <= last {
        assert(f.subrange(lo, j) =~= frames.subrange(lo, j));
        law_a_dropped_frame_lengthens_the_one_before(f, k, i, j);
        if j < last {
            assert(k[j]);
            law_survivors_keep_their_place(f, k, j);
            lemma_kept_rises(k, i, j);
        }
        assert(retained(frames, keep)[p] == before[p]);
    } else {
        crate::document::lemma_total_delay_nonnegative(frames.subrange(lo, j));
        assert(frames.subrange(lo, j).drop_last() =~= f.subrange(lo, j - 1));
        if i == last {
            assert(keep.take(i) =~= k);
            if lo == 0 {
                assert(f.subrange(0, j - 1) =~= f);
            } else {
                assert(f.subrange(i, j - 1) =~= Seq::<FrameView>::empty());
                assert(total_delay(Seq::<FrameView>::empty()) == 0);
            }
            assert(frames.subrange(lo, j).last() == frames.last());
            assert(retained(frames, keep)[p] == retained(frames, keep).last());
        } else {
            law_a_dropped_frame_lengthens_the_one_before(f, k, i, j - 1);
            lemma_none_kept_after(k, i);
            crate::document::lemma_total_delay_nonnegative(f.subrange(lo, j - 1));
            assert(p == before.len() - 1);
            assert(frames.subrange(lo, j).last() == frames.last());
        }
    }
}

proof fn lemma_kept_rises(keep: Seq<bool>, i: int, j: int)
    requires
        0 <= i < j <= keep.len(),
        keep[i],
    ensures
        count_kept(keep.take(i)) < count_kept(keep.take(j)),
    decreases j - i,
{
    assert(keep.take(j).drop_last() =~= keep.take(j - 1));
    if i < j - 1 {
        lemma_kept_rises(keep, i, j - 1);
    }
}

proof fn lemma_none_kept_after(keep: Seq<bool>, i: int)
    requires
        0 <= i < keep.len(),
        keep[i],
        forall|k: int| i < k < keep.len() ==> !#[trigger] keep[k],
    ensures
        count_kept(keep) == count_kept(keep.take(i)) + 1,
    decreases keep.len(),
{
    if i < keep.len() - 1 {
        let head = keep.drop_last();
        assert forall|k: int| i < k < head.len() implies !#[trigger] head[k] by {
            assert(!keep[k]);
        }
        lemma_none_kept_after(head, i);
        assert(head.take(i) =~= keep.take(i));
        assert(!keep[keep.len() - 1]);
    } else {
        assert(keep.take(i) =~= keep.drop_last());
    }
}

/// Frames that are put in stand together at their place, the others keep their
/// order around them, and an overlay stays on its frames. It takes in frames put
/// in right behind one it lies on, where they are the document's own.
pub proof fn law_a_run_goes_in_at_its_place(doc: DocView, at: int, run: Seq<FrameView>, i: int, k: int)
    requires
        0 <= at <= doc.frames.len(),
        doc.frames.len() + run.len() <= usize::MAX,
        0 <= i < doc.frames.len() + run.len(),
        0 <= k < doc.overlays.len(),
        doc.overlays[k].range.start < doc.overlays[k].range.end <= doc.frames.len(),
    ensures
        ({
            let after = doc.with_run(at, run);
            let (was, now) = (doc.overlays[k], after.overlays[k]);
            let n = run.len();
            &&& after.frames.len() == doc.frames.len() + n
            &&& after.overlays.len() == doc.overlays.len()
            &&& after.next_id == doc.next_id
            &&& i < at ==> after.frames[i] == doc.frames[i]
            &&& at <= i < at + n ==> after.frames[i] == run[i - at]
            &&& i >= at + n ==> after.frames[i] == doc.frames[i - n]
            &&& i < at ==> now.covers(i) == was.covers(i)
            &&& at <= i < at + n ==> now.covers(i) == was.covers(at - 1)
            &&& i >= at + n ==> now.covers(i) == was.covers(i - n)
            &&& now == (Overlay { range: now.range, ..was })
        }),
{
}

/// Frames from a file that are put in stand together at their place too, but an
/// overlay takes them in only where it goes on behind them.
pub proof fn law_a_foreign_run_goes_in_at_its_place(
    doc: DocView,
    at: int,
    run: Seq<FrameView>,
    i: int,
    k: int,
)
    requires
        0 <= at <= doc.frames.len(),
        doc.frames.len() + run.len() <= usize::MAX,
        0 <= i < doc.frames.len() + run.len(),
        0 <= k < doc.overlays.len(),
        doc.overlays[k].range.start < doc.overlays[k].range.end <= doc.frames.len(),
    ensures
        ({
            let after = doc.with_foreign_run(at, run);
            let (was, now) = (doc.overlays[k], after.overlays[k]);
            let n = run.len();
            &&& after.frames.len() == doc.frames.len() + n
            &&& after.overlays.len() == doc.overlays.len()
            &&& after.next_id == doc.next_id
            &&& i < at ==> after.frames[i] == doc.frames[i]
            &&& at <= i < at + n ==> after.frames[i] == run[i - at]
            &&& i >= at + n ==> after.frames[i] == doc.frames[i - n]
            &&& i < at ==> now.covers(i) == was.covers(i)
            &&& at <= i < at + n ==> now.covers(i) == (was.covers(at - 1) && was.covers(at))
            &&& i >= at + n ==> now.covers(i) == was.covers(i - n)
            &&& now == (Overlay { range: now.range, ..was })
        }),
{
}

/// Past the end is at the end.
pub proof fn law_a_run_past_the_end_goes_to_the_end(doc: DocView, at: int, run: Seq<FrameView>)
    requires
        at >= doc.frames.len(),
    ensures
        doc.with_run(at, run).frames == doc.frames + run,
        doc.with_foreign_run(at, run).frames == doc.frames + run,
{
    assert(doc.with_run(at, run).frames =~= doc.frames + run);
    assert(doc.frames + seq![] =~= doc.frames);
    if run.len() == 0 {
        assert(run =~= seq![]);
    }
    assert(doc.with_foreign_run(at, run).frames =~= doc.frames + run);
}

proof fn lemma_deleted(app: AppView, doc: DocView, frames: Seq<usize>, i: int)
    requires
        doc == app.doc(),
        doc.frames.len() <= usize::MAX,
        frames == app.scope_frames(),
        frames.len() > 0,
        0 <= i < doc.frames.len(),
    ensures
        ({
            let keep = Seq::new(doc.frames.len(), |k: int| !chosen(app, k));
            let after = doc.without(|k: int| picks(frames, k));
            &&& after.frames == retained(doc.frames, keep)
            &&& after.frames.len() == count_kept(keep)
            &&& after.next_id == doc.next_id
            &&& !chosen(app, i) ==> {
                let place = kept_before(keep, i) as int;
                &&& place < after.frames.len()
                &&& after.frames[place] == doc.frames[i].with_delay(after.frames[place].delay_cs)
                &&& crate::coverage::shown(after.overlays, place) == crate::coverage::shown(
                    doc.overlays,
                    i,
                )
            }
            &&& count_kept(keep) > 0 && delays_fit(doc.frames, keep) ==> total_delay(after.frames)
                == total_delay(doc.frames)
        }),
{
    let keep = Seq::new(doc.frames.len(), |k: int| !chosen(app, k));
    let doomed = |k: int| picks(frames, k);
    let used = Seq::new(doc.frames.len(), |k: int| !doomed(k));
    assert forall|k: int| 0 <= k < keep.len() implies keep[k] == used[k] by {
        law_the_scope_is_what_was_chosen(app, k as usize);
    }
    assert(keep =~= used);
    lemma_ascending(app.count(), |k: int| app.names(k));
    let first = frames[0] as int;
    assert(picks(frames, first));
    assert(!keep[first]);
    lemma_count_kept(keep);
    lemma_retained_len(doc.frames, keep);
    if !chosen(app, i) {
        law_survivors_keep_their_place(doc.frames, keep, i);
        crate::retain_laws::law_survivors_keep_their_overlays(doc.overlays, keep, i);
    }
    if count_kept(keep) > 0 && delays_fit(doc.frames, keep) {
        law_retain_preserves_duration(doc.frames, keep);
    }
}

/// Deleting or cutting takes out the chosen frames and no others. Those that
/// stay keep their order, their pixels and their overlays, and the time it all
/// takes stays, where the delays have room. Cutting puts the frames on the
/// clipboard, and undoing brings the document back.
pub proof fn law_deleting_takes_the_chosen_frames(
    app: AppView,
    op: FrameOp,
    aid: Aid,
    after: AppView,
    effect: EffectView,
    i: int,
)
    requires
        app.wf(),
        !app.blocked(Msg::FrameOp(op)),
        app.answered(Msg::FrameOp(op), aid, after, effect),
        op == FrameOp::Delete || op == FrameOp::Cut,
        0 <= i < app.doc().frames.len(),
        app.scope_frames().len() > 0,
    ensures
        ({
            let (was, now) = (app.doc(), after.doc());
            let keep = Seq::new(was.frames.len(), |k: int| !chosen(app, k));
            &&& now.frames.len() == count_kept(keep)
            &&& !chosen(app, i) ==> {
                let place = kept_before(keep, i) as int;
                &&& now.frames[place].pixels == was.frames[i].pixels
                &&& now.frames[place].detached == was.frames[i].detached
                &&& now.frames[place].key == was.frames[i].key
                &&& crate::coverage::shown(now.overlays, place) == crate::coverage::shown(
                    was.overlays,
                    i,
                )
            }
            &&& count_kept(keep) > 0 && delays_fit(was.frames, keep) ==> total_delay(now.frames)
                == total_delay(was.frames)
            &&& after.editor.past.last().doc == was
            &&& op == FrameOp::Delete ==> after.clipboard == app.clipboard
            &&& op == FrameOp::Cut ==> after.clipboard.len() == app.scope_frames().len()
            &&& op == FrameOp::Cut ==> forall|k: int|
                0 <= k < after.clipboard.len() ==> #[trigger] after.clipboard[k]
                    == was.frames[app.scope_frames()[k] as int]
            &&& after.selection.len() == 0
            &&& now.frames.len() > 0 ==> after.playhead < now.frames.len()
        }),
{
    lemma_deleted(app, app.doc(), app.scope_frames(), i);
    lemma_below_none(app.count());
}

proof fn lemma_all_below(picked: Seq<usize>, n: nat)
    requires
        forall|k: int| 0 <= k < picked.len() ==> #[trigger] picked[k] < n,
    ensures
        crate::canvas::below(picked, n) == picked,
    decreases picked.len(),
{
    if picked.len() > 0 {
        lemma_all_below(picked.drop_last(), n);
        assert(picked.drop_last().push(picked.last()) =~= picked);
    } else {
        assert(picked =~= seq![]);
    }
}

proof fn lemma_below_none(n: nat)
    ensures
        crate::canvas::below(Seq::<usize>::empty(), n) == Seq::<usize>::empty(),
{
    assert(crate::canvas::below(Seq::<usize>::empty(), n) =~= seq![]);
}

proof fn lemma_duplicated(doc: DocView, picked: Seq<usize>, k: int, i: int, j: int)
    requires
        forall|a: int, b: int| 0 <= a < b < picked.len() ==> picked[a] < picked[b],
        forall|a: int| 0 <= a < picked.len() ==> #[trigger] picked[a] < doc.frames.len(),
        doc.frames.len() + picked.len() <= usize::MAX,
        0 <= k <= picked.len(),
        0 <= i < doc.frames.len(),
        k > 0 ==> picked[k - 1] < i,
        k < picked.len() ==> i <= picked[k],
        0 <= j < doc.overlays.len() ==> doc.overlays[j].range.start < doc.overlays[j].range.end
            <= doc.frames.len(),
    ensures
        ({
            let now = duplicated(doc, picked);
            &&& now.frames.len() == doc.frames.len() + picked.len()
            &&& now.overlays.len() == doc.overlays.len()
            &&& now.frames[i + k] == doc.frames[i]
            &&& k < picked.len() && i == picked[k] ==> now.frames[i + k + 1] == doc.frames[i]
            &&& 0 <= j < doc.overlays.len() ==> {
                &&& now.overlays[j].covers(i + k) == doc.overlays[j].covers(i)
                &&& k < picked.len() && i == picked[k] ==> now.overlays[j].covers(i + k + 1)
                    == doc.overlays[j].covers(i)
            }
        }),
    decreases picked.len(),
{
    if picked.len() > 0 {
        let head = picked.drop_last();
        let at = picked.last() as int;
        let run = seq![doc.frames[at]];
        let doc1 = doc.with_run(at + 1, run);
        assert forall|a: int| 0 <= a < head.len() implies #[trigger] head[a] < doc1.frames.len() by {
            assert(head[a] == picked[a]);
        }
        if k < picked.len() {
            lemma_duplicated(doc1, head, k, i, j);
            if k == head.len() && i == at {
                lemma_duplicated(doc1, head, k, at + 1, j);
            }
        } else {
            lemma_duplicated(doc1, head, head.len() as int, i + 1, j);
        }
    }
}

/// Duplicating puts a second one right behind each chosen frame, under the same
/// overlays. Every frame moves back by the number of copies made before it.
pub proof fn law_duplicating_doubles_the_chosen_frames(
    app: AppView,
    aid: Aid,
    after: AppView,
    effect: EffectView,
    k: int,
    i: int,
    j: int,
)
    requires
        app.wf(),
        app.roomy(),
        !app.blocked(Msg::FrameOp(FrameOp::Duplicate)),
        app.answered(Msg::FrameOp(FrameOp::Duplicate), aid, after, effect),
        0 <= k <= app.scope_frames().len(),
        0 <= i < app.doc().frames.len(),
        k > 0 ==> app.scope_frames()[k - 1] < i,
        k < app.scope_frames().len() ==> i <= app.scope_frames()[k],
        0 <= j < app.doc().overlays.len(),
        app.scope_frames().len() > 0,
    ensures
        ({
            let frames = app.scope_frames();
            let (was, now) = (app.doc(), after.doc());
            &&& now.frames.len() == was.frames.len() + frames.len()
            &&& now.overlays.len() == was.overlays.len()
            &&& now.frames[i + k] == was.frames[i]
            &&& now.overlays[j].covers(i + k) == was.overlays[j].covers(i)
            &&& chosen(app, i) ==> now.frames[i + k + 1] == was.frames[i]
            &&& chosen(app, i) ==> now.overlays[j].covers(i + k + 1) == was.overlays[j].covers(i)
            &&& after.editor.past.last().doc == was
            &&& after.clipboard == app.clipboard
            &&& after.playhead == app.playhead
        }),
{
    let frames = app.scope_frames();
    lemma_ascending(app.count(), |k: int| app.names(k));
    assert(frames.len() <= app.count());
    lemma_duplicated(app.doc(), frames, k, i, j);
    law_the_scope_is_what_was_chosen(app, i as usize);
    if chosen(app, i) {
        let a = choose|a: int| 0 <= a < frames.len() && frames[a] == i as usize;
        assert(frames[a] == i);
        if k < frames.len() {
            assert(a == k) by {
                if a < k {
                    assert(a == k - 1 || frames[a] < frames[k - 1]);
                }
                if k < a {
                    assert(frames[k] < frames[a]);
                }
            }
        } else {
            assert(a == k - 1 || frames[a] < frames[k - 1]);
        }
    }
}

/// Reversing turns the frames from the first chosen one to the last around, and
/// leaves every other frame and every overlay where it is.
pub proof fn law_reversing_turns_the_span_around(
    app: AppView,
    aid: Aid,
    after: AppView,
    effect: EffectView,
    first: int,
    last: int,
    i: int,
)
    requires
        app.wf(),
        !app.blocked(Msg::FrameOp(FrameOp::Reverse)),
        app.answered(Msg::FrameOp(FrameOp::Reverse), aid, after, effect),
        0 <= first <= last < app.doc().frames.len(),
        chosen(app, first),
        chosen(app, last),
        forall|k: int|
            0 <= k < app.doc().frames.len() && #[trigger] chosen(app, k) ==> first <= k <= last,
        0 <= i < app.doc().frames.len(),
    ensures
        after.doc().frames.len() == app.doc().frames.len(),
        first <= i <= last ==> after.doc().frames[i] == app.doc().frames[first + last - i],
        i < first || last < i ==> after.doc().frames[i] == app.doc().frames[i],
        after.doc().overlays == app.doc().overlays,
        after.doc().next_id == app.doc().next_id,
        after.editor.past.last().doc == app.doc(),
        after.playhead == app.playhead,
{
    let frames = app.scope_frames();
    lemma_ascending(app.count(), |k: int| app.names(k));
    law_the_scope_is_what_was_chosen(app, first as usize);
    law_the_scope_is_what_was_chosen(app, last as usize);
    let a = choose|a: int| 0 <= a < frames.len() && frames[a] == first as usize;
    let b = choose|b: int| 0 <= b < frames.len() && frames[b] == last as usize;
    law_the_scope_is_what_was_chosen(app, frames[0]);
    law_the_scope_is_what_was_chosen(app, frames.last());
    assert(frames.contains(frames[0]));
    assert(frames.contains(frames.last()));
    assert(chosen(app, frames[0] as int));
    assert(chosen(app, frames.last() as int));
    assert(frames[0] == first) by {
        assert(a == 0 || frames[0] < frames[a]);
    }
    assert(frames.last() == last) by {
        assert(b == frames.len() - 1 || frames[b] < frames[frames.len() - 1]);
    }
}

/// Copying puts the chosen frames on the clipboard in order and changes nothing
/// else.
pub proof fn law_copying_takes_the_chosen_frames(
    app: AppView,
    aid: Aid,
    after: AppView,
    effect: EffectView,
    k: int,
)
    requires
        app.wf(),
        !app.blocked(Msg::FrameCopy),
        app.answered(Msg::FrameCopy, aid, after, effect),
        0 <= k < app.scope_frames().len(),
    ensures
        after.clipboard.len() == app.scope_frames().len(),
        after.clipboard[k] == app.doc().frames[app.scope_frames()[k] as int],
        after == (AppView { clipboard: after.clipboard, ..app }),
        effect == EffectView::Copied(app.scope_frames().len() as usize),
{
}

/// Pasting puts the frames on the clipboard right behind the one on screen, or
/// first where there is none, and shows the last of them.
pub proof fn law_pasting_goes_behind_the_frame_on_screen(
    app: AppView,
    aid: Aid,
    after: AppView,
    effect: EffectView,
    i: int,
    k: int,
)
    requires
        app.wf(),
        app.roomy(),
        !app.blocked(Msg::FramePaste),
        app.answered(Msg::FramePaste, aid, after, effect),
        app.clipboard.len() > 0,
        0 <= i < app.doc().frames.len(),
        0 <= k < app.clipboard.len(),
    ensures
        ({
            let (was, now) = (app.doc(), after.doc());
            let n = app.clipboard.len();
            &&& now.frames.len() == was.frames.len() + n
            &&& i <= app.playhead ==> now.frames[i] == was.frames[i]
            &&& now.frames[app.playhead + 1 + k] == app.clipboard[k]
            &&& i > app.playhead ==> now.frames[i + n] == was.frames[i]
            &&& after.playhead == app.playhead + n
            &&& after.clipboard == app.clipboard
            &&& after.editor.past.last().doc == was
            &&& n > 1 ==> (chosen(after, i) <==> app.playhead < i <= app.playhead + n)
        }),
{
    let n = app.clipboard.len();
    let at = app.playhead + 1;
    let picked = crate::selection::run_of(at, n as int);
    lemma_all_below(picked, app.count() + n);
    if n > 1 {
        assert(after.selection == picked);
        if app.playhead < i <= app.playhead + n {
            assert(picked[i - at] == i);
        }
    }
}

/// Pasting into an empty document makes it the clipboard.
pub proof fn law_pasting_into_nothing(app: AppView, aid: Aid, after: AppView, effect: EffectView)
    requires
        app.wf(),
        app.roomy(),
        !app.blocked(Msg::FramePaste),
        app.answered(Msg::FramePaste, aid, after, effect),
        app.clipboard.len() > 0,
        app.doc().frames.len() == 0,
    ensures
        after.doc().frames == app.clipboard,
        after.playhead == app.clipboard.len() - 1,
{
    assert(after.doc().frames =~= app.clipboard);
}

/// A delay goes to the chosen frames, at the shortest one hundredth, and nothing
/// else about the document changes.
pub proof fn law_a_delay_goes_to_the_chosen_frames(
    app: AppView,
    cs: u16,
    aid: Aid,
    after: AppView,
    effect: EffectView,
    i: int,
)
    requires
        app.wf(),
        !app.blocked(Msg::SetScopeDelay(cs)),
        app.answered(Msg::SetScopeDelay(cs), aid, after, effect),
        0 <= i < app.doc().frames.len(),
    ensures
        ({
            let (was, now) = (app.doc().frames[i], after.doc().frames[i]);
            &&& after.doc().frames.len() == app.doc().frames.len()
            &&& chosen(app, i) && cs >= 1 ==> now.delay_cs == cs
            &&& chosen(app, i) && cs == 0 ==> now.delay_cs == 1
            &&& !chosen(app, i) ==> now.delay_cs == was.delay_cs
            &&& now == (FrameView { delay_cs: now.delay_cs, ..was })
            &&& after.doc().overlays == app.doc().overlays
            &&& after.doc().next_id == app.doc().next_id
            &&& chosen(app, i) ==> after.editor.past.last().doc == app.doc()
            &&& after.playhead == app.playhead
        }),
{
    law_the_scope_is_what_was_chosen(app, i as usize);
    lemma_all_below(app.selection, app.count());
}

/// The one delay for all goes to every frame.
pub proof fn law_one_delay_for_all(
    app: AppView,
    cs: u16,
    aid: Aid,
    after: AppView,
    effect: EffectView,
    i: int,
)
    requires
        app.wf(),
        !app.blocked(Msg::SetAllFramesDelay(cs)),
        app.answered(Msg::SetAllFramesDelay(cs), aid, after, effect),
        0 <= i < app.doc().frames.len(),
    ensures
        ({
            let (was, now) = (app.doc().frames[i], after.doc().frames[i]);
            &&& after.doc().frames.len() == app.doc().frames.len()
            &&& cs >= 1 ==> now.delay_cs == cs
            &&& cs == 0 ==> now.delay_cs == 1
            &&& now == (FrameView { delay_cs: now.delay_cs, ..was })
            &&& after.doc().overlays == app.doc().overlays
            &&& after.editor.past.last().doc == app.doc()
            &&& after.playhead == app.playhead
        }),
{
}

/// Deleting the picked frames takes those out and no others, whatever the scope.
/// Those that stay keep their order, their pixels and their overlays.
pub proof fn law_deleting_the_selection_takes_it_out(
    app: AppView,
    aid: Aid,
    after: AppView,
    effect: EffectView,
    i: int,
)
    requires
        app.wf(),
        !app.blocked(Msg::DeleteSelection),
        app.answered(Msg::DeleteSelection, aid, after, effect),
        app.selected_overlay is None,
        app.selection.len() > 0,
        0 <= i < app.doc().frames.len(),
    ensures
        ({
            let (was, now) = (app.doc(), after.doc());
            let keep = Seq::new(was.frames.len(), |k: int| !app.selection.contains(k as usize));
            &&& now.frames.len() == count_kept(keep)
            &&& !app.selection.contains(i as usize) ==> {
                let place = kept_before(keep, i) as int;
                &&& now.frames[place].pixels == was.frames[i].pixels
                &&& now.frames[place].key == was.frames[i].key
                &&& crate::coverage::shown(now.overlays, place) == crate::coverage::shown(
                    was.overlays,
                    i,
                )
            }
            &&& after.editor.past.last().doc == was
            &&& after.clipboard == app.clipboard
            &&& after.selection.len() == 0
        }),
{
    let doc = app.doc();
    let picked = app.selection;
    let keep = Seq::new(doc.frames.len(), |k: int| !picked.contains(k as usize));
    let doomed = |k: int| picks(picked, k);
    let used = Seq::new(doc.frames.len(), |k: int| !doomed(k));
    assert forall|k: int| 0 <= k < keep.len() implies keep[k] == used[k] by {
        if picked.contains(k as usize) {
            let a = choose|a: int| 0 <= a < picked.len() && picked[a] == k as usize;
            assert(picked[a] == k);
        }
        if picks(picked, k) {
            let a = choose|a: int| 0 <= a < picked.len() && #[trigger] picked[a] == k;
            assert(picked[a] == k as usize);
        }
    }
    assert(keep =~= used);
    assert(picked[0] < app.room());
    assert(picks(picked, picked[0] as int));
    assert(!keep[picked[0] as int]);
    lemma_count_kept(keep);
    lemma_retained_len(doc.frames, keep);
    lemma_below_none(after.count());
    if !picked.contains(i as usize) {
        law_survivors_keep_their_place(doc.frames, keep, i);
        crate::retain_laws::law_survivors_keep_their_overlays(doc.overlays, keep, i);
    }
}

} // verus!
