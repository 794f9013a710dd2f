//! What comes back from the workers, and what it does to the window's state.

use vstd::prelude::*;

use crate::app::{
    toast_for, toast_if_document_wide, App, AppView, Busy, CropBox, Drag, Effect, EffectView,
};
use crate::app_laws::{lemma_done, lemma_settled_wf};
use crate::canvas::{list_views, scaled_overlays, sized, with_frames, OverlayBox};
use crate::document::{views, DocView, Document};
use crate::history::{Editor, EditorView};
use crate::model::{Frame, FrameView};
use crate::msg::ScopeChoice;
use crate::soundness::{
    law_appending_keeps_sound, law_putting_keeps_sound, law_scaling_keeps_sound, whole,
};
use crate::work::{can_join, joined_to, resize_frames_to};

verus! {

/// What a finished frame job hands back: the produced frames by index, and
/// what the new canvas makes of the overlays' boxes, bottom-to-top, and of a
/// gesture that was under way.
#[derive(Debug)]
pub struct WorkDone {
    pub label: &'static str,
    pub frames: Vec<(usize, Frame)>,
    pub boxes: Vec<OverlayBox>,
    pub drag: Option<Drag>,
    pub crop_rect: Option<CropBox>,
}

/// How an import ended. A cancelled one is not a failure: the user asked for
/// it, so nothing is toasted and whatever decoded is dropped.
#[derive(Debug)]
pub enum ImportOutcome {
    Loaded(Vec<Frame>),
    Cancelled,
    Failed(String),
}

impl ImportOutcome {
    /// How an import ended. The decoders come back with whatever decoded
    /// before the stop, so the flag, not the result, is what says the user
    /// cancelled.
    pub fn of(cancelled: bool, decoded: Result<Vec<Frame>, String>) -> (r: ImportOutcome)
        ensures
            r == if cancelled {
                ImportOutcome::Cancelled
            } else {
                match decoded {
                    Ok(frames) => ImportOutcome::Loaded(frames),
                    Err(e) => ImportOutcome::Failed(e),
                }
            },
    {
        if cancelled {
            return ImportOutcome::Cancelled;
        }
        match decoded {
            Ok(frames) => ImportOutcome::Loaded(frames),
            Err(e) => ImportOutcome::Failed(e),
        }
    }
}

#[derive(Debug)]
pub enum Cmd {
    /// Frames decoded so far, and the estimate to expect.
    ImportProgress(usize, Option<usize>),
    /// Pre-flight probe: whether the file would come in smaller than it is.
    Planned(Result<bool, String>),
    /// Frame work done so far, and the total it is working through.
    WorkProgress(usize, usize),
    /// Measured export size, if it could be, and the revision it was measured
    /// at.
    Estimated(u64, Option<usize>),
    /// A finished resize or zoom, or a worker that failed.
    Worked(Result<WorkDone, &'static str>),
    Imported(ImportOutcome),
    /// An export ended, with this to say.
    Exported(String),
}

impl AppView {
    pub open spec fn progressed(self, done: usize, total: Option<usize>) -> AppView {
        AppView {
            busy: match self.busy {
                Some(busy) => Some(Busy { kind: busy.kind, done, total }),
                None => None,
            },
            ..self
        }
    }

    /// The bar is free.
    pub open spec fn idle(self) -> AppView {
        AppView { busy: None, ..self }
    }

    /// After the produced frames landed as one step of history.
    pub open spec fn landed(self, work: WorkDone) -> (AppView, EffectView) {
        let touched = work.frames@.len() as int;
        let doc = DocView {
            frames: with_frames(self.doc().frames, list_views(work.frames@)),
            overlays: scaled_overlays(self.doc().overlays, work.boxes@),
            next_id: self.doc().next_id,
        };
        (
            AppView {
                drag: work.drag,
                crop_rect: work.crop_rect,
                ..self.idle().edited(work.label@, touched, doc)
            }.settled(),
            toast_for(work.label@, touched, self.count() as int),
        )
    }

    pub open spec fn estimated(self, rev: u64, bytes: Option<usize>) -> AppView {
        AppView {
            estimate: match bytes {
                Some(bytes) => Some((rev, bytes)),
                None => self.estimate,
            },
            estimate_pending: if self.estimate_pending == Some(rev) {
                None
            } else {
                self.estimate_pending
            },
            ..self
        }
    }

    pub open spec fn planned(self, plan: Result<bool, String>) -> (AppView, EffectView) {
        match plan {
            Ok(reduced) => if reduced {
                (self.idle(), EffectView::ConfirmOversize)
            } else {
                (self, EffectView::StartLoad)
            },
            Err(e) => (self.idle(), EffectView::Tell(e@)),
        }
    }

    /// After the frames of another file were put on the end.
    pub open spec fn appended(self, frames: Seq<FrameView>) -> (AppView, EffectView) {
        let (joined, key) = joined_to(frames, self.doc().size(), self.next_key);
        let touched = frames.len() as int;
        let doc = DocView { frames: self.doc().frames + joined, ..self.doc() };
        (
            AppView { next_key: key, ..self }.edited("Frames added"@, touched, doc).settled(),
            EffectView::Toast(
                crate::history::ChangeView {
                    label: "Frames added"@,
                    frames_touched: touched as usize,
                },
            ),
        )
    }

    /// After a file was opened.
    pub open spec fn opened(self, frames: Seq<FrameView>) -> AppView {
        AppView {
            editor: EditorView {
                doc: DocView { frames, overlays: seq![], next_id: 0 },
                past: seq![],
                future: seq![],
            },
            playhead: 0,
            selection: seq![],
            selected_overlay: None,
            scope: ScopeChoice::ThisFrame,
            ..self
        }.settled()
    }

    pub open spec fn imported(self, outcome: ImportOutcome) -> (AppView, EffectView) {
        let ended = AppView { import_append: false, ..self.idle() };
        match outcome {
            ImportOutcome::Loaded(frames) => if !self.import_append {
                (ended.opened(views(frames@)), EffectView::Nothing)
            } else if frames@.len() == 0 {
                (ended, EffectView::Nothing)
            } else {
                ended.appended(views(frames@))
            },
            ImportOutcome::Cancelled => (ended, EffectView::Nothing),
            ImportOutcome::Failed(e) => (ended, EffectView::Tell(e@)),
        }
    }

    /// Whether the frames that `after` has on top of these are as large as the
    /// canvas, where there is one.
    pub open spec fn grown_to_size(self, after: AppView) -> bool {
        let (w, h) = self.doc().size();
        w > 0 && h > 0 ==> forall|i: int|
            self.count() <= i < after.count() ==> sized(#[trigger] after.doc().frames[i], w, h)
    }

    /// What a worker hands back is what it has to be: whole frames that can
    /// join, and a box for each overlay.
    pub open spec fn fits_cmd(self, cmd: Cmd) -> bool {
        match cmd {
            Cmd::Worked(Ok(work)) => {
                &&& forall|k: int| 0 <= k < work.frames@.len() ==> (#[trigger] work.frames@[k]).1.wf()
                &&& work.boxes@.len() == self.doc().overlays.len()
            },
            Cmd::Imported(ImportOutcome::Loaded(frames)) => {
                &&& whole(views(frames@))
                &&& self.import_append ==> {
                    &&& self.count() + frames@.len() <= usize::MAX
                    &&& forall|i: int|
                        0 <= i < frames@.len() ==> can_join(
                            (#[trigger] frames@[i])@.pixels.width,
                            frames@[i]@.pixels.height,
                            self.doc().size(),
                        )
                }
            },
            // The probe of an import that nothing waits for any more.
            Cmd::Planned(Ok(reduced)) => reduced || self.busy is Some,
            _ => true,
        }
    }

    /// What the result of a worker makes of the state, and has the window do.
    pub open spec fn answered_cmd(self, cmd: Cmd) -> (AppView, EffectView) {
        match cmd {
            Cmd::ImportProgress(done, expected) => (
                self.progressed(done, expected),
                EffectView::Nothing,
            ),
            Cmd::WorkProgress(done, total) => (
                self.progressed(done, Some(total)),
                EffectView::Nothing,
            ),
            Cmd::Worked(Ok(work)) => self.landed(work),
            Cmd::Worked(Err(error)) => (self.idle(), EffectView::Say(error@)),
            Cmd::Estimated(rev, bytes) => (self.estimated(rev, bytes), EffectView::Nothing),
            Cmd::Planned(plan) => self.planned(plan),
            Cmd::Imported(outcome) => self.imported(outcome),
            Cmd::Exported(text) => (self, EffectView::Tell(text@)),
        }
    }

    /// The revision an export size is to be measured for, if none is measured
    /// or about to be.
    pub open spec fn wants_estimate(self) -> bool {
        &&& self.count() > 0
        &&& !(self.estimate matches Some((rev, _)) && rev == self.rev)
        &&& self.estimate_pending != Some(self.rev)
    }
}

impl App {
    fn progress(&mut self, done: usize, total: Option<usize>)
        ensures
            final(self)@ == old(self)@.progressed(done, total),
    {
        self.busy = match self.busy {
            Some(busy) => Some(Busy { kind: busy.kind, done, total }),
            None => None,
        };
    }

    fn land(&mut self, work: WorkDone) -> (r: Effect)
        requires
            old(self).wf(),
            old(self)@.roomy(),
            old(self)@.fits_cmd(Cmd::Worked(Ok(work))),
        ensures
            (final(self)@, r@) == old(self)@.landed(work),
            final(self).wf(),
    {
        let ghost before = self@;
        let ghost list = list_views(work.frames@);
        self.busy = None;
        let touched = work.frames.len();
        let change = self.editor.begin(work.label, touched);
        proof {
            assert forall|k: int| 0 <= k < list.len() implies (#[trigger] list[k]).1.wf() by {
                assert(work.frames@[k].1.wf());
            }
            law_putting_keeps_sound(before.doc(), list);
            law_scaling_keeps_sound(
                DocView { frames: with_frames(before.doc().frames, list), ..before.doc() },
                work.boxes@,
            );
        }
        self.editor.doc.put_frames(work.frames);
        self.editor.doc.scale_overlays(&work.boxes);
        self.drag = work.drag;
        self.crop_rect = work.crop_rect;
        proof {
            lemma_done(before.idle(), work.label@, touched as int, self.editor.doc@, self@);
        }
        self.after_edit();
        toast_if_document_wide(change, self.frame_count())
    }

    fn append(&mut self, frames: Vec<Frame>) -> (r: Effect)
        requires
            old(self).wf(),
            old(self)@.roomy(),
            whole(views(frames@)),
            old(self)@.count() + frames@.len() <= usize::MAX,
            forall|i: int|
                0 <= i < frames@.len() ==> can_join(
                    (#[trigger] frames@[i])@.pixels.width,
                    frames@[i]@.pixels.height,
                    old(self)@.doc().size(),
                ),
        ensures
            (final(self)@, r@) == old(self)@.appended(views(frames@)),
            old(self)@.grown_to_size(final(self)@),
            final(self).wf(),
    {
        let ghost before = self@;
        let touched = frames.len();
        let size = self.editor.doc.size();
        let mut joined = resize_frames_to(frames, size, &mut self.keys);
        let ghost run = joined@;
        let ghost held = self.editor.doc.frames@;
        proof {
            law_appending_keeps_sound(before.doc(), views(run));
        }
        let change = self.editor.begin("Frames added", touched);
        let ghost taken = AppView { next_key: self.keys.next, ..before };
        self.editor.doc.frames.append(&mut joined);
        assert(views(self.editor.doc.frames@) =~= views(held) + views(run));
        proof {
            lemma_done(taken, "Frames added"@, touched as int, self.editor.doc@, self@);
        }
        self.after_edit();
        assert forall|i: int| before.count() <= i < self@.count() && size.0 > 0 && size.1 > 0 implies sized(
            #[trigger] self@.doc().frames[i],
            size.0,
            size.1,
        ) by {
            assert(self@.doc().frames[i] == views(run)[i - before.count()]);
            assert(sized(run[i - before.count()]@, size.0, size.1));
        }
        Effect::Toast(change)
    }

    fn open(&mut self, frames: Vec<Frame>)
        requires
            old(self).wf(),
            old(self)@.roomy(),
            whole(views(frames@)),
        ensures
            final(self)@ == old(self)@.opened(views(frames@)),
            final(self).wf(),
    {
        self.editor = Editor::new(Document::from_frames(frames));
        self.playhead = 0;
        self.selection = Vec::new();
        self.selected_overlay = None;
        self.scope = ScopeChoice::ThisFrame;
        proof {
            assert(self.editor.doc@.frames.len() == self.editor.doc.frames.len());
            lemma_settled_wf(self@);
        }
        self.after_edit();
    }

    fn import(&mut self, outcome: ImportOutcome) -> (r: Effect)
        requires
            old(self).wf(),
            old(self)@.roomy(),
            old(self)@.fits_cmd(Cmd::Imported(outcome)),
        ensures
            (final(self)@, r@) == old(self)@.imported(outcome),
            old(self)@.import_append ==> old(self)@.grown_to_size(final(self)@),
            final(self).wf(),
    {
        // An import ends the bar it started.
        self.busy = None;
        let append = self.import_append;
        self.import_append = false;
        match outcome {
            ImportOutcome::Loaded(frames) => {
                if !append {
                    self.open(frames);
                    Effect::Nothing
                } else if frames.len() == 0 {
                    Effect::Nothing
                } else {
                    self.append(frames)
                }
            },
            ImportOutcome::Cancelled => Effect::Nothing,
            ImportOutcome::Failed(e) => Effect::Tell(e),
        }
    }

    /// Carry out what a worker handed back.
    pub fn update_cmd(&mut self, cmd: Cmd) -> (r: Effect)
        requires
            old(self).wf(),
            old(self)@.roomy(),
            old(self)@.fits_cmd(cmd),
        ensures
            (final(self)@, r@) == old(self)@.answered_cmd(cmd),
            cmd is Imported && old(self)@.import_append ==> old(self)@.grown_to_size(final(self)@),
            final(self).wf(),
    {
        match cmd {
            Cmd::ImportProgress(done, expected) => {
                self.progress(done, expected);
                Effect::Nothing
            },
            Cmd::WorkProgress(done, total) => {
                // The worker keeps counting under whatever bar is up; only the
                // numbers move, the bar never clears here.
                self.progress(done, Some(total));
                Effect::Nothing
            },
            Cmd::Worked(Ok(work)) => self.land(work),
            Cmd::Worked(Err(error)) => {
                self.busy = None;
                Effect::Say(error)
            },
            Cmd::Estimated(rev, bytes) => {
                match bytes {
                    Some(bytes) => {
                        self.estimate = Some((rev, bytes));
                    },
                    None => {},
                }
                let pending = match self.estimate_pending {
                    Some(queued) => queued == rev,
                    None => false,
                };
                if pending {
                    self.estimate_pending = None;
                }
                Effect::Nothing
            },
            Cmd::Planned(Ok(reduced)) => {
                if reduced {
                    self.busy = None;
                    Effect::ConfirmOversize
                } else {
                    // The probe never checks the stop flag, so a click during
                    // the probe still stands.
                    Effect::StartLoad
                }
            },
            Cmd::Planned(Err(e)) => {
                self.busy = None;
                Effect::Tell(e)
            },
            Cmd::Imported(outcome) => self.import(outcome),
            Cmd::Exported(text) => Effect::Tell(text),
        }
    }

    /// Queue a measurement of the export size, debounced so a run of
    /// keystrokes measures once, not once per character.
    pub fn schedule_estimate(&mut self) -> (r: Option<u64>)
        ensures
            if old(self)@.wants_estimate() {
                &&& r == Some(old(self).rev)
                &&& final(self)@ == (AppView {
                    estimate_pending: Some(old(self).rev),
                    ..old(self)@
                })
            } else {
                r is None && final(self)@ == old(self)@
            },
            old(self).wf() ==> final(self).wf(),
    {
        let measured = match self.estimate {
            Some((rev, _)) => rev == self.rev,
            None => false,
        };
        let queued = match self.estimate_pending {
            Some(rev) => rev == self.rev,
            None => false,
        };
        if self.frame_count() == 0 || measured || queued {
            return None;
        }
        self.estimate_pending = Some(self.rev);
        Some(self.rev)
    }
}

/// A revision is measured once: with its measurement queued, none is asked for
/// again until the document changes.
pub proof fn law_one_measurement_per_revision(app: AppView)
    ensures
        !(AppView { estimate_pending: Some(app.rev), ..app }).wants_estimate(),
        forall|bytes: usize|
            !(#[trigger] app.estimated(app.rev, Some(bytes))).wants_estimate(),
{
}

} // verus!
