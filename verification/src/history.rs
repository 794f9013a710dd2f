//! Undo as a pure state machine over the model.
//!
//! Every edit snapshots the document. That is only affordable because frame
//! pixels are `Arc`-shared, so a snapshot of 300 frames is 300 pointer copies
//! plus the overlay list. Nothing is ever a raster diff, which is what makes
//! stepping to the first history item rebuild everything exactly.

use vstd::prelude::*;

use crate::document::{DocView, Document};
use crate::i18n::{fill, filled, lookup, pair_views, t, translated, Catalog};
use crate::model::{Frame, Overlay};
use crate::text::{decimal, decimal_of, text_of};

verus! {

/// How many steps can be undone.
pub const LIMIT: usize = 200;

/// What an edit did, for the toast that names the scope.
#[derive(Debug)]
pub struct Change {
    pub label: String,
    pub frames_touched: usize,
}

/// What a `Change` holds.
pub struct ChangeView {
    pub label: Seq<char>,
    pub frames_touched: usize,
}

impl View for Change {
    type V = ChangeView;

    open spec fn view(&self) -> ChangeView {
        ChangeView { label: self.label@, frames_touched: self.frames_touched }
    }
}

impl Clone for Change {
    fn clone(&self) -> (r: Change)
        ensures
            r == *self,
    {
        Change { label: self.label.clone(), frames_touched: self.frames_touched }
    }
}

impl PartialEq for Change {
    fn eq(&self, other: &Change) -> (r: bool) {
        self.label == other.label && self.frames_touched == other.frames_touched
    }
}

impl vstd::std_specs::cmp::PartialEqSpecImpl for Change {
    open spec fn obeys_eq_spec() -> bool {
        true
    }

    open spec fn eq_spec(&self, other: &Change) -> bool {
        self@ == other@
    }
}

impl Change {
    /// "Text added on 24 frames", or just the label when only one frame moved.
    ///
    /// Translated here rather than at the toast: the label is a marked literal
    /// (`i18n::n`) chosen where the edit happens, and this is the only place
    /// that knows whether the count belongs in the sentence.
    pub fn message(&self, catalog: &Catalog) -> (r: String)
        requires
            catalog.wf(),
        ensures
            r@ == if self.frames_touched > 1 {
                filled(
                    translated(catalog@, "{change} on {count} frames"@),
                    seq![
                        ("change"@, translated(catalog@, self.label@)),
                        ("count"@, decimal(self.frames_touched as nat)),
                    ],
                )
            } else {
                translated(catalog@, self.label@)
            },
    {
        let label = lookup(catalog, self.label.as_str());
        if self.frames_touched > 1 {
            let count = text_of(&decimal_of(self.frames_touched as u64));
            let template = t(catalog, "{change} on {count} frames");
            let values = [("change", label.as_str()), ("count", count.as_str())];
            assert(pair_views(values@) =~= seq![("change"@, label@), ("count"@, count@)]);
            fill(template.as_str(), &values)
        } else {
            label
        }
    }
}

impl Clone for Document {
    fn clone(&self) -> (r: Document)
        ensures
            r@ == self@,
            r.frames@ == self.frames@,
    {
        let mut frames: Vec<Frame> = Vec::new();
        let mut i: usize = 0;
        while i < self.frames.len()
            invariant
                i <= self.frames@.len(),
                frames@ == self.frames@.take(i as int),
            decreases self.frames@.len() - i,
        {
            frames.push(self.frames[i].clone());
            i = i + 1;
            assert(frames@ =~= self.frames@.take(i as int));
        }
        assert(self.frames@.take(i as int) =~= self.frames@);
        let mut overlays: Vec<Overlay> = Vec::new();
        let mut j: usize = 0;
        while j < self.overlays.len()
            invariant
                j <= self.overlays@.len(),
                overlays@ == self.overlays@.take(j as int),
            decreases self.overlays@.len() - j,
        {
            overlays.push(self.overlays[j].clone());
            j = j + 1;
            assert(overlays@ =~= self.overlays@.take(j as int));
        }
        assert(self.overlays@.take(j as int) =~= self.overlays@);
        Document { frames, overlays, next_id: self.next_id }
    }
}

/// One step of history: what was done, and the document on its other side.
pub struct Step {
    pub change: ChangeView,
    pub doc: DocView,
}

/// What an `Editor` holds: the document, the steps that can be undone, oldest
/// first, and the steps that can be redone, the next one last.
pub struct EditorView {
    pub doc: DocView,
    pub past: Seq<Step>,
    pub future: Seq<Step>,
}

/// The document and what can be undone and redone of it.
#[derive(Debug)]
pub struct Editor {
    pub doc: Document,
    pub past: Vec<(Change, Document)>,
    pub future: Vec<(Change, Document)>,
}

/// What a list of steps holds.
pub open spec fn steps(list: Seq<(Change, Document)>) -> Seq<Step> {
    Seq::new(list.len(), |i: int| Step { change: list[i].0@, doc: list[i].1@ })
}

/// The newest `LIMIT` of the steps.
pub open spec fn newest(past: Seq<Step>) -> Seq<Step> {
    if past.len() > LIMIT {
        past.skip(past.len() - LIMIT)
    } else {
        past
    }
}

impl EditorView {
    /// At most `LIMIT` steps can be undone, and at most as many redone.
    pub open spec fn wf(self) -> bool {
        self.past.len() + self.future.len() <= LIMIT
    }

    /// After an edit that made `doc` of the document.
    pub open spec fn edited(self, change: ChangeView, doc: DocView) -> EditorView {
        EditorView {
            doc,
            past: newest(self.past.push(Step { change, doc: self.doc })),
            future: seq![],
        }
    }

    /// After one step back, where there is one.
    pub open spec fn undone(self) -> EditorView {
        if self.past.len() == 0 {
            self
        } else {
            let step = self.past.last();
            EditorView {
                doc: step.doc,
                past: self.past.drop_last(),
                future: self.future.push(Step { change: step.change, doc: self.doc }),
            }
        }
    }

    /// After one step forward, where there is one.
    pub open spec fn redone(self) -> EditorView {
        if self.future.len() == 0 {
            self
        } else {
            let step = self.future.last();
            EditorView {
                doc: step.doc,
                past: self.past.push(Step { change: step.change, doc: self.doc }),
                future: self.future.drop_last(),
            }
        }
    }

    /// After `n` steps back.
    pub open spec fn undone_by(self, n: nat) -> EditorView
        decreases n,
    {
        if n == 0 {
            self
        } else {
            self.undone_by((n - 1) as nat).undone()
        }
    }

    /// After `n` steps forward.
    pub open spec fn redone_by(self, n: nat) -> EditorView
        decreases n,
    {
        if n == 0 {
            self
        } else {
            self.redone().redone_by((n - 1) as nat)
        }
    }
}

impl View for Editor {
    type V = EditorView;

    open spec fn view(&self) -> EditorView {
        EditorView { doc: self.doc@, past: steps(self.past@), future: steps(self.future@) }
    }
}

impl Editor {
    pub fn new(doc: Document) -> (r: Editor)
        ensures
            r.doc == doc,
            r@ == (EditorView { doc: doc@, past: seq![], future: seq![] }),
    {
        let r = Editor { doc, past: Vec::new(), future: Vec::new() };
        assert(r@.past =~= seq![]);
        assert(r@.future =~= seq![]);
        r
    }

    /// Remember the document as it is as one step, for an edit that is about
    /// to change it.
    pub fn begin(&mut self, label: &str, frames_touched: usize) -> (change: Change)
        requires
            old(self)@.wf(),
        ensures
            change@ == (ChangeView { label: label@, frames_touched }),
            final(self).doc == old(self).doc,
            final(self)@ == old(self)@.edited(change@, old(self).doc@),
            final(self)@.wf(),
    {
        let change = Change { label: label.to_owned(), frames_touched };
        let ghost before = self.past@;
        self.past.push((change.clone(), self.doc.clone()));
        assert(steps(self.past@) =~= steps(before).push(
            Step { change: change@, doc: self.doc@ },
        ));
        if self.past.len() > LIMIT {
            self.past.remove(0);
            assert(steps(self.past@) =~= newest(
                steps(before).push(Step { change: change@, doc: self.doc@ }),
            ));
        }
        self.future = Vec::new();
        assert(steps(self.future@) =~= seq![]);
        change
    }

    /// Run `f` against the document as one tracked step. `frames_touched` is
    /// what the toast reports; a wide edit that stays silent is the wrong
    /// feedback.
    pub fn edit<T, F: FnOnce(&mut Document) -> T>(
        &mut self,
        label: &str,
        frames_touched: usize,
        f: F,
    ) -> (r: (Change, T))
        requires
            old(self)@.wf(),
            forall|m: &mut Document| *m == old(self).doc ==> #[trigger] call_requires(f, (m,)),
        ensures
            r.0@ == (ChangeView { label: label@, frames_touched }),
            exists|m: &mut Document, out: T| #[trigger]
                call_ensures(f, (m,), out) && out == r.1 && *m == old(self).doc && final(self).doc
                    == *final(m),
            final(self)@ == old(self)@.edited(r.0@, final(self).doc@),
            final(self)@.wf(),
    {
        let change = self.begin(label, frames_touched);
        let out = f(&mut self.doc);
        (change, out)
    }

    pub fn can_undo(&self) -> (r: bool)
        ensures
            r == (self@.past.len() > 0),
    {
        self.past.len() > 0
    }

    pub fn can_redo(&self) -> (r: bool)
        ensures
            r == (self@.future.len() > 0),
    {
        self.future.len() > 0
    }

    /// Label of the step undo would reverse, for the button tooltip.
    pub fn undo_label(&self) -> (r: Option<&str>)
        ensures
            match r {
                Some(label) => self@.past.len() > 0 && label@ == self@.past.last().change.label,
                None => self@.past.len() == 0,
            },
    {
        if self.past.len() == 0 {
            None
        } else {
            Some(self.past[self.past.len() - 1].0.label.as_str())
        }
    }

    pub fn redo_label(&self) -> (r: Option<&str>)
        ensures
            match r {
                Some(label) => self@.future.len() > 0 && label@ == self@.future.last().change.label,
                None => self@.future.len() == 0,
            },
    {
        if self.future.len() == 0 {
            None
        } else {
            Some(self.future[self.future.len() - 1].0.label.as_str())
        }
    }

    pub fn undo(&mut self) -> (r: bool)
        ensures
            r == (old(self)@.past.len() > 0),
            final(self)@ == old(self)@.undone(),
            final(self)@.doc == final(self).doc@,
    {
        let ghost (past, future) = (self.past@, self.future@);
        match self.past.pop() {
            Some((change, doc)) => {
                let mut other = doc;
                std::mem::swap(&mut self.doc, &mut other);
                self.future.push((change, other));
                assert(steps(self.past@) =~= steps(past).drop_last());
                assert(steps(self.future@) =~= steps(future).push(
                    Step { change: change@, doc: other@ },
                ));
                true
            },
            None => false,
        }
    }

    pub fn redo(&mut self) -> (r: bool)
        ensures
            r == (old(self)@.future.len() > 0),
            final(self)@ == old(self)@.redone(),
            final(self)@.doc == final(self).doc@,
    {
        let ghost (past, future) = (self.past@, self.future@);
        match self.future.pop() {
            Some((change, doc)) => {
                let mut other = doc;
                std::mem::swap(&mut self.doc, &mut other);
                self.past.push((change, other));
                assert(steps(self.future@) =~= steps(future).drop_last());
                assert(steps(self.past@) =~= steps(past).push(
                    Step { change: change@, doc: other@ },
                ));
                true
            },
            None => false,
        }
    }
}

/// Undoing an edit gives back the document from before it, whatever the edit
/// made of it, and redoing it gives back the edited one.
pub proof fn law_undo_restores(e: EditorView, change: ChangeView, doc: DocView)
    ensures
        e.edited(change, doc).undone().doc == e.doc,
        e.edited(change, doc).undone().redone() == e.edited(change, doc),
{
    let after = e.edited(change, doc);
    assert(after.past.last() == (Step { change, doc: e.doc }));
    law_redo_undoes_undo(after);
}

/// A redo undoes an undo.
pub proof fn law_redo_undoes_undo(e: EditorView)
    requires
        e.past.len() > 0,
    ensures
        e.undone().redone() == e,
{
    assert(e.undone().redone().past =~= e.past);
    assert(e.undone().redone().future =~= e.future);
}

/// An undo undoes a redo.
pub proof fn law_undo_undoes_redo(e: EditorView)
    requires
        e.future.len() > 0,
    ensures
        e.redone().undone() == e,
{
    assert(e.redone().undone().past =~= e.past);
    assert(e.redone().undone().future =~= e.future);
}

/// Going back any number of steps and forward as many lands on the same
/// document with the same history.
pub proof fn law_history_round_trip(e: EditorView, n: nat)
    requires
        n <= e.past.len(),
    ensures
        e.undone_by(n).redone_by(n) == e,
        e.undone_by(n).past.len() == e.past.len() - n,
    decreases n,
{
    if n > 0 {
        law_history_round_trip(e, (n - 1) as nat);
        law_redo_undoes_undo(e.undone_by((n - 1) as nat));
    }
}

/// A new edit leaves nothing to redo.
pub proof fn law_edit_forgets_the_future(e: EditorView, change: ChangeView, doc: DocView)
    ensures
        e.edited(change, doc).future.len() == 0,
{
}

/// History never holds more than `LIMIT` steps.
pub proof fn law_history_is_bounded(e: EditorView, change: ChangeView, doc: DocView)
    requires
        e.wf(),
    ensures
        e.edited(change, doc).wf(),
        e.undone().wf(),
        e.redone().wf(),
{
}

} // verus!
