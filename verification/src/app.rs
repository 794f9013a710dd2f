//! The editor window's state: the document with its history, what is on
//! screen, what is picked, and what the next edit lands on.

use std::ops::Range;

use vstd::prelude::*;

use crate::canvas::{below, Rect};
use crate::chord::Mods;
use crate::document::{find_id, total_delay, views, DocView, Document};
use crate::history::{Change, ChangeView, Editor, EditorView};
use crate::keymap::Keymap;
use crate::model::{Frame, FrameKeys, FrameView, Overlay, OverlayId, Transform};
use crate::msg::ScopeChoice;
use crate::scope::{ascending, copy_indices, lemma_ascending, lemma_ascending_same, picks, span_of, Scope};
use crate::selection::{rising};
use crate::single::Single;
use crate::soundness::whole;
use crate::work::{BusyKind, FrameWork, WorkView};

verus! {

/// A box on the canvas in image pixels: its corner, its width and its height.
pub type CropBox = (Single, Single, Single, Single);

/// What a canvas drag is doing. Corner order is TL, TR, BL, BR.
#[derive(Clone, Copy, PartialEq, Eq, Debug, Structural)]
pub enum DragMode {
    Move,
    Resize(usize),
    Rotate,
    CropRect,
}

#[derive(Clone, Copy, Debug)]
pub struct Drag {
    pub mode: DragMode,
    /// Where the press landed, in image pixels.
    pub from: (Single, Single),
    /// The transform the drag started from, so every motion is computed against
    /// it rather than accumulating rounding.
    pub origin: Transform,
    pub current: Transform,
    pub moved: bool,
}

/// What the one progress bar is showing, whichever long job holds the app.
/// The bar sits in the toolbar, so it is visible with a document open and not
/// only on the welcome page.
#[derive(Clone, Copy, Debug)]
pub struct Busy {
    pub kind: BusyKind,
    pub done: usize,
    /// Known when the job is countable; the import's is not until the
    /// container says how long it is.
    pub total: Option<usize>,
}

/// What only floating-point geometry can tell about a message.
#[derive(Debug)]
pub struct Aid {
    /// Where a new overlay goes, and the size of its text.
    pub spot: Transform,
    pub size_px: Single,
    /// What the drawn crop box covers of the canvas in whole pixels, if
    /// anything.
    pub rect: Option<Rect>,
    /// Whether the pointer lies in each overlay's box, bottom-to-top.
    pub inside: Vec<bool>,
    /// The grip of the selected overlay's box under the pointer.
    pub grip: Option<usize>,
    /// Whether the pointer has left where the drag started.
    pub away: bool,
    /// The box the drag makes of the one it started from.
    pub dragged: Transform,
    /// The crop box the drag makes.
    pub crop: CropBox,
    /// Whether a text size that is set differs noticeably from the one the
    /// overlay has.
    pub resized: bool,
}

/// What the window does after a message, besides showing the new state.
#[derive(Debug)]
pub enum Effect {
    Nothing,
    /// Ask for a file to open.
    OpenDialog,
    /// Ask for a file to add frames from.
    ImportMoreDialog,
    /// Probe the file that is being loaded.
    PlanImport,
    /// There is nothing to append to: open the file instead.
    OpenInstead,
    /// Decode the file that is being loaded.
    StartLoad,
    /// The file cannot come in whole: ask at what size it should.
    ConfirmOversize,
    /// Raise the running import's stop flag.
    StopImport,
    /// Measure the export size of this revision of so many frames.
    Measure { rev: u64, total: usize },
    ExportDialog,
    /// Show the next frame after so many milliseconds.
    Tick { ms: u64 },
    /// Name an edit that reached the whole document.
    Toast(Change),
    /// Show a text of the catalog.
    Say(&'static str),
    /// Show a text as it is.
    Tell(String),
    /// Say how many frames were copied.
    Copied(usize),
    /// Show a toast, with a button to undo or without.
    Show { text: String, undo: bool },
    MoveFrameDialog { index: usize, count: usize },
    DelayAllDialog { count: usize, delay_cs: u16 },
    CropDialog { width: u32, height: u32 },
    /// Run this on the document as it is.
    Work(FrameWork),
    SaveKeymap,
    StripZoom(crate::msg::ZoomStep),
}

/// What an `Effect` asks for.
pub enum EffectView {
    Nothing,
    OpenDialog,
    ImportMoreDialog,
    PlanImport,
    OpenInstead,
    StartLoad,
    ConfirmOversize,
    StopImport,
    Measure { rev: u64, total: usize },
    ExportDialog,
    Tick { ms: u64 },
    Toast(ChangeView),
    Say(Seq<char>),
    Tell(Seq<char>),
    Copied(usize),
    Show { text: Seq<char>, undo: bool },
    MoveFrameDialog { index: usize, count: usize },
    DelayAllDialog { count: usize, delay_cs: u16 },
    CropDialog { width: u32, height: u32 },
    Work(WorkView),
    SaveKeymap,
    StripZoom(crate::msg::ZoomStep),
}

impl View for Effect {
    type V = EffectView;

    open spec fn view(&self) -> EffectView {
        match self {
            Effect::Nothing => EffectView::Nothing,
            Effect::OpenDialog => EffectView::OpenDialog,
            Effect::ImportMoreDialog => EffectView::ImportMoreDialog,
            Effect::PlanImport => EffectView::PlanImport,
            Effect::OpenInstead => EffectView::OpenInstead,
            Effect::StartLoad => EffectView::StartLoad,
            Effect::ConfirmOversize => EffectView::ConfirmOversize,
            Effect::StopImport => EffectView::StopImport,
            Effect::Measure { rev, total } => EffectView::Measure { rev: *rev, total: *total },
            Effect::ExportDialog => EffectView::ExportDialog,
            Effect::Tick { ms } => EffectView::Tick { ms: *ms },
            Effect::Toast(change) => EffectView::Toast(change@),
            Effect::Say(text) => EffectView::Say(text@),
            Effect::Tell(text) => EffectView::Tell(text@),
            Effect::Copied(count) => EffectView::Copied(*count),
            Effect::Show { text, undo } => EffectView::Show { text: text@, undo: *undo },
            Effect::MoveFrameDialog { index, count } => EffectView::MoveFrameDialog {
                index: *index,
                count: *count,
            },
            Effect::DelayAllDialog { count, delay_cs } => EffectView::DelayAllDialog {
                count: *count,
                delay_cs: *delay_cs,
            },
            Effect::CropDialog { width, height } => EffectView::CropDialog {
                width: *width,
                height: *height,
            },
            Effect::Work(work) => EffectView::Work(work@),
            Effect::SaveKeymap => EffectView::SaveKeymap,
            Effect::StripZoom(step) => EffectView::StripZoom(*step),
        }
    }
}

#[derive(Debug)]
pub struct App {
    pub editor: Editor,
    pub playhead: usize,
    pub playing: bool,
    pub scope: ScopeChoice,
    /// The frames Ctrl+ and Shift+click have picked. A set, not a range: Ctrl
    /// takes one frame at a time and they need not touch.
    pub selection: Vec<usize>,
    /// Where the next Shift+click measures its run from.
    pub anchor: Option<usize>,
    pub selected_overlay: Option<OverlayId>,
    /// What the one progress bar is showing, if anything: an import, or frame
    /// work (a resize, a zoom) running off the main thread. The work is keyed
    /// to frame indices, so frame-moving messages wait while it runs.
    pub busy: Option<Busy>,
    /// Measured export size and the revision it describes. Kept on show while a
    /// newer one is being measured, because a number that blinks out on every
    /// keystroke is worse than one that is a moment stale.
    pub estimate: Option<(u64, usize)>,
    /// Revision an estimate is already queued for.
    pub estimate_pending: Option<u64>,
    pub keymap: Keymap,
    /// In-flight canvas drag, if any.
    pub drag: Option<Drag>,
    /// Crop tool armed, and the rect it has been given, in image pixels.
    pub crop_tool: bool,
    pub crop_rect: Option<CropBox>,
    pub bands_expanded: bool,
    pub rev: u64,
    /// Set right before a load starts and consumed when it lands: whether the
    /// decode should replace the document or append its frames to the end of
    /// the current one.
    pub import_append: bool,
    /// Cut or copied frames, waiting for a paste. App-local rather than the
    /// system clipboard: what a paste needs is the frame with its delay and
    /// its cached thumbnail, and a GIF frame has no interchange format that
    /// carries either.
    pub clipboard: Vec<Frame>,
    /// Where new frames get their keys.
    pub keys: FrameKeys,
    /// The memory an import, or a resize's result, may use.
    pub max_import_bytes: u64,
}

/// What an `App` holds.
#[verifier::ext_equal]
pub struct AppView {
    pub editor: EditorView,
    pub playhead: usize,
    pub playing: bool,
    pub scope: ScopeChoice,
    pub selection: Seq<usize>,
    pub anchor: Option<usize>,
    pub selected_overlay: Option<OverlayId>,
    pub busy: Option<Busy>,
    pub estimate: Option<(u64, usize)>,
    pub estimate_pending: Option<u64>,
    pub keymap: Keymap,
    pub drag: Option<Drag>,
    pub crop_tool: bool,
    pub crop_rect: Option<CropBox>,
    pub bands_expanded: bool,
    pub rev: u64,
    pub import_append: bool,
    pub clipboard: Seq<FrameView>,
    pub next_key: u64,
    pub max_import_bytes: u64,
}

impl View for App {
    type V = AppView;

    open spec fn view(&self) -> AppView {
        AppView {
            editor: self.editor@,
            playhead: self.playhead,
            playing: self.playing,
            scope: self.scope,
            selection: self.selection@,
            anchor: self.anchor,
            selected_overlay: self.selected_overlay,
            busy: self.busy,
            estimate: self.estimate,
            estimate_pending: self.estimate_pending,
            keymap: self.keymap,
            drag: self.drag,
            crop_tool: self.crop_tool,
            crop_rect: self.crop_rect,
            bands_expanded: self.bands_expanded,
            rev: self.rev,
            import_append: self.import_append,
            clipboard: views(self.clipboard@),
            next_key: self.keys.next,
            max_import_bytes: self.max_import_bytes,
        }
    }
}

/// Whether every modifier of `wanted`, of which there is one at least, is
/// down.
pub open spec fn is_held(wanted: Mods, state: Mods) -> bool {
    wanted != Mods::none() && (wanted.ctrl ==> state.ctrl) && (wanted.shift ==> state.shift) && (
    wanted.alt ==> state.alt)
}

/// The smaller of the index and the last place of `count`.
pub open spec fn last_at_most(i: int, count: int) -> int {
    if i < count {
        i
    } else if count > 0 {
        count - 1
    } else {
        0
    }
}

/// The topmost of the overlays at `places` the pointer is inside of.
pub open spec fn top_hit(places: Seq<usize>, inside: Seq<bool>) -> Option<usize>
    decreases places.len(),
{
    if places.len() == 0 {
        None
    } else if inside[places.last() as int] {
        Some(places.last())
    } else {
        top_hit(places.drop_last(), inside)
    }
}

/// The document after an edit of overlay `id` on the frames `span`, and the
/// overlay the edit landed on.
pub open spec fn overlay_edited(
    doc: DocView,
    id: OverlayId,
    span: Range<usize>,
    f: spec_fn(Overlay) -> Overlay,
) -> (DocView, OverlayId) {
    let i = find_id(doc.overlays, id, 0);
    let edit = doc.edited_frames(i, span);
    if i == doc.overlays.len() || edit.end <= edit.start {
        (doc, id)
    } else {
        (
            doc.split(i, edit, f(doc.piece(i, edit))),
            if doc.is_whole(i, edit) {
                id
            } else {
                f(doc.piece(i, edit)).id
            },
        )
    }
}

/// The document with each of the picked frames doubled.
pub open spec fn duplicated(doc: DocView, picked: Seq<usize>) -> DocView
    decreases picked.len(),
{
    if picked.len() == 0 {
        doc
    } else {
        let at = picked.last() as int;
        duplicated(
            if at < doc.frames.len() {
                doc.with_run(at + 1, seq![doc.frames[at]])
            } else {
                doc
            },
            picked.drop_last(),
        )
    }
}

/// The ids of the overlays on `frame`, bottom-to-top, shown or hidden.
pub open spec fn ids_on(overlays: Seq<Overlay>, frame: int) -> Seq<OverlayId>
    decreases overlays.len(),
{
    if overlays.len() == 0 {
        seq![]
    } else {
        let below = ids_on(overlays.drop_last(), frame);
        if overlays.last().covers(frame) {
            below.push(overlays.last().id)
        } else {
            below
        }
    }
}

/// Where `id` stands in the list, or its length.
pub open spec fn place_of(ids: Seq<OverlayId>, id: OverlayId, from: int) -> int
    decreases ids.len() - from,
{
    if from < 0 || from >= ids.len() {
        ids.len() as int
    } else if ids[from] == id {
        from
    } else {
        place_of(ids, id, from + 1)
    }
}

/// A document that is sound and whose frames a list can hold.
pub open spec fn kept_sound(doc: DocView) -> bool {
    doc.sound() && doc.frames.len() <= usize::MAX
}

impl AppView {
    pub open spec fn doc(self) -> DocView {
        self.editor.doc
    }

    pub open spec fn count(self) -> nat {
        self.editor.doc.frames.len()
    }

    /// Whether the scope names frame `i`.
    pub open spec fn names(self, i: int) -> bool {
        match self.scope {
            ScopeChoice::AllFrames => true,
            ScopeChoice::Range if self.selection.len() > 0 => picks(self.selection, i),
            _ => i == self.playhead,
        }
    }

    /// The frames the scope names, in strip order.
    pub open spec fn scope_frames(self) -> Seq<usize> {
        ascending(self.count(), |i: int| self.names(i))
    }

    /// The contiguous range over the frames the scope names.
    pub open spec fn scope_span(self) -> Range<usize> {
        span_of(self.scope_frames())
    }

    /// The frames of overlay `id`, or none.
    pub open spec fn range_of(self, id: OverlayId) -> Range<usize> {
        let i = find_id(self.doc().overlays, id, 0);
        if i < self.doc().overlays.len() {
            self.doc().overlays[i].range
        } else {
            Range { start: 0, end: 0 }
        }
    }

    /// Where an edit of overlay `id` lands.
    pub open spec fn span_for(self, id: OverlayId) -> Range<usize> {
        crate::selection::edit_span(self.range_of(id), self.scope_span(), self.playhead)
    }

    /// What follows every change of the document: a new revision, and nothing
    /// on screen or picked that is no longer there.
    pub open spec fn settled(self) -> AppView {
        let count = self.count();
        let selection = below(self.selection, count);
        AppView {
            rev: (self.rev + 1) as u64,
            playhead: last_at_most(self.playhead as int, count as int) as usize,
            selection,
            scope: if selection.len() == 0 && self.scope == ScopeChoice::Range {
                ScopeChoice::ThisFrame
            } else {
                self.scope
            },
            anchor: match self.anchor {
                Some(i) if i < count => Some(i),
                _ => None,
            },
            selected_overlay: match self.selected_overlay {
                Some(id) if find_id(self.doc().overlays, id, 0) < self.doc().overlays.len() => Some(
                    id,
                ),
                _ => None,
            },
            ..self
        }
    }

    /// After an edit that made `doc` of the document.
    pub open spec fn edited(self, label: Seq<char>, touched: int, doc: DocView) -> AppView {
        AppView {
            editor: self.editor.edited(
                ChangeView { label, frames_touched: touched as usize },
                doc,
            ),
            ..self
        }
    }

    /// Every document there is to go back or forward to is sound.
    pub open spec fn history_sound(self) -> bool {
        &&& self.editor.wf()
        &&& kept_sound(self.doc())
        &&& forall|i: int|
            0 <= i < self.editor.past.len() ==> kept_sound((#[trigger] self.editor.past[i]).doc)
        &&& forall|i: int|
            0 <= i < self.editor.future.len() ==> kept_sound((#[trigger] self.editor.future[i]).doc)
    }

    /// How many places there are to stand at: one at least.
    pub open spec fn room(self) -> int {
        if self.count() > 0 {
            self.count() as int
        } else {
            1
        }
    }

    /// The history is sound, and what is on screen and picked is in the strip.
    pub open spec fn wf(self) -> bool {
        &&& self.history_sound()
        &&& whole(self.clipboard)
        &&& self.playhead < self.room()
        &&& rising(self.selection)
        &&& forall|k: int|
            0 <= k < self.selection.len() ==> #[trigger] self.selection[k] < self.room()
        &&& self.anchor matches Some(i) ==> i < self.room()
        &&& self.keymap@.wf()
    }

    /// The counters have room for any one edit: overlay ids, frame indices and
    /// the revision.
    pub open spec fn roomy(self) -> bool {
        &&& self.rev < u64::MAX
        &&& 2 * self.count() + self.clipboard.len() + 2 <= u32::MAX
        &&& self.doc().overlays.len() <= u32::MAX
        &&& self.doc().next_id + 2 + self.count() + (2 * self.count() + 1)
            * self.doc().overlays.len() <= u32::MAX
    }
}

/// The toast an edit earns: the strip and the canvas already show what a
/// scoped edit did, so only one that reached every frame there was.
pub open spec fn toast_for(label: Seq<char>, touched: int, total: int) -> EffectView {
    if touched >= total && touched >= 1 {
        EffectView::Toast(ChangeView { label, frames_touched: touched as usize })
    } else {
        EffectView::Nothing
    }
}

impl App {
    pub open spec fn wf(&self) -> bool {
        self@.wf()
    }

    pub fn new(keymap: Keymap, max_import_bytes: u64) -> (r: App)
        requires
            keymap@.wf(),
        ensures
            r@ == (AppView {
                editor: EditorView {
                    doc: DocView { frames: seq![], overlays: seq![], next_id: 0 },
                    past: seq![],
                    future: seq![],
                },
                playhead: 0,
                playing: false,
                scope: ScopeChoice::ThisFrame,
                selection: seq![],
                anchor: None,
                selected_overlay: None,
                busy: None,
                estimate: None,
                estimate_pending: None,
                keymap,
                drag: None,
                crop_tool: false,
                crop_rect: None,
                bands_expanded: false,
                rev: 0,
                import_append: false,
                clipboard: seq![],
                next_key: 0,
                max_import_bytes,
            }),
            r@.wf(),
            r@.roomy(),
    {
        let r = App {
            editor: Editor::new(Document::from_frames(Vec::new())),
            playhead: 0,
            playing: false,
            scope: ScopeChoice::ThisFrame,
            selection: Vec::new(),
            anchor: None,
            selected_overlay: None,
            busy: None,
            estimate: None,
            estimate_pending: None,
            keymap,
            drag: None,
            crop_tool: false,
            crop_rect: None,
            bands_expanded: false,
            rev: 0,
            import_append: false,
            clipboard: Vec::new(),
            keys: FrameKeys::new(),
            max_import_bytes,
        };
        assert(r@.editor.doc.frames =~= seq![]);
        assert(r@.editor.doc.overlays =~= seq![]);
        assert(r@.clipboard =~= seq![]);
        r
    }

    /// Whether the counters have room for one more edit.
    pub fn has_room(&self) -> (r: bool)
        ensures
            r == self@.roomy(),
    {
        let frames: u64 = self.editor.doc.frames.len() as u64;
        let overlays: u64 = self.editor.doc.overlays.len() as u64;
        let kept: u64 = self.clipboard.len() as u64;
        let most: u64 = 0xffff_ffff;
        if self.rev == u64::MAX || frames > most || kept > most || overlays > most {
            return false;
        }
        assert((2 * frames + 1) * overlays <= 0x2_0000_0000 * 0x1_0000_0000) by (nonlinear_arith)
            requires
                frames <= 0xffff_ffff,
                overlays <= 0xffff_ffff,
        ;
        let crossed: u128 = (2 * frames as u128 + 1) * overlays as u128;
        2 * frames + kept + 2 <= most && self.editor.doc.next_id as u128 + 2 + frames as u128 + crossed
            <= most as u128
    }

    pub fn frame_count(&self) -> (r: usize)
        ensures
            r == self@.count(),
    {
        self.editor.doc.frames.len()
    }

    pub fn scope(&self) -> (r: Scope)
        ensures
            forall|i: int| r.names(self.playhead as int, i) == self@.names(i),
            match self.scope {
                ScopeChoice::ThisFrame => r is ThisFrame,
                ScopeChoice::AllFrames => r is AllFrames,
                ScopeChoice::Range => if self.selection@.len() > 0 {
                    r matches Scope::Frames(picked) && picked@ == self.selection@
                } else {
                    r is ThisFrame
                },
            },
    {
        match self.scope {
            ScopeChoice::ThisFrame => Scope::ThisFrame,
            ScopeChoice::AllFrames => Scope::AllFrames,
            ScopeChoice::Range => if self.selection.len() > 0 {
                Scope::Frames(copy_indices(&self.selection))
            } else {
                Scope::ThisFrame
            },
        }
    }

    pub fn scope_frames(&self) -> (r: Vec<usize>)
        ensures
            r@ == self@.scope_frames(),
            rising(r@),
            forall|k: int| 0 <= k < r@.len() ==> #[trigger] r@[k] < self@.count(),
    {
        let scope = self.scope();
        let r = scope.resolve(self.playhead, self.frame_count());
        proof {
            lemma_ascending_same(
                self@.count(),
                |i: int| scope.names(self.playhead as int, i),
                |i: int| self@.names(i),
            );
            lemma_ascending(self@.count(), |i: int| self@.names(i));
        }
        r
    }

    /// The contiguous range an overlay would take. A gappy selection widens.
    pub fn scope_span(&self) -> (r: Range<usize>)
        ensures
            r == self@.scope_span(),
    {
        let frames = self.scope_frames();
        if frames.len() == 0 {
            0..0
        } else {
            assert(frames@[frames@.len() - 1] < self@.count() == self.editor.doc.frames.len());
            frames[0]..frames[frames.len() - 1] + 1
        }
    }

    /// Overlays sitting on `frame`, in document order.
    pub fn overlays_on(&self, frame: usize) -> (r: Vec<OverlayId>)
        ensures
            r@ == ids_on(self@.doc().overlays, frame as int),
    {
        let mut r: Vec<OverlayId> = Vec::new();
        let mut i: usize = 0;
        let overlays = &self.editor.doc.overlays;
        while i < overlays.len()
            invariant
                i <= overlays@.len(),
                r@ == ids_on(overlays@.take(i as int), frame as int),
            decreases overlays@.len() - i,
        {
            assert(overlays@.take(i + 1).drop_last() =~= overlays@.take(i as int));
            if overlays[i].range.start <= frame && frame < overlays[i].range.end {
                r.push(overlays[i].id);
            }
            i = i + 1;
        }
        assert(overlays@.take(i as int) =~= overlays@);
        r
    }

    /// The sidebar's layer list for the frame on screen: topmost overlay
    /// first. `doc.overlays` is bottom-to-top — list order *is* z-order —
    /// but a layer list reads the way the layers stack, so the row above
    /// another names the overlay painted over it.
    pub fn stacked_overlays(&self) -> (r: Vec<(OverlayId, String)>)
        ensures
            stack_of(r@) == layers(self@.doc().overlays, self@.playhead as int),
    {
        let mut r: Vec<(OverlayId, String)> = Vec::new();
        let overlays = &self.editor.doc.overlays;
        let ghost all = layers(overlays@, self.playhead as int);
        let mut i: usize = overlays.len();
        assert(overlays@.take(i as int) =~= overlays@);
        assert(stack_of(r@) + layers(overlays@, self.playhead as int) =~= all);
        while i > 0
            invariant
                i <= overlays@.len(),
                overlays == &self.editor.doc.overlays,
                all == stack_of(r@) + layers(overlays@.take(i as int), self.playhead as int),
            decreases i,
        {
            let ghost before = r@;
            i = i - 1;
            assert(overlays@.take(i + 1).drop_last() =~= overlays@.take(i as int));
            let o = &overlays[i];
            if o.range.start <= self.playhead && self.playhead < o.range.end {
                r.push((o.id, o.name.clone()));
                assert(stack_of(r@) =~= stack_of(before).push((o.id, o.name@)));
            }
            assert(all =~= stack_of(r@) + layers(overlays@.take(i as int), self.playhead as int));
        }
        assert(layers(overlays@.take(0), self.playhead as int) =~= seq![]);
        assert(all =~= stack_of(r@));
        r
    }

    /// The overlay the sidebar edits: the selection, but only while it is on
    /// the frame on screen. Off its frame the sidebar drops to the plain frame
    /// view; returning to that frame brings the editor back.
    pub fn editing_overlay(&self) -> (r: Option<OverlayId>)
        ensures
            r == self@.editing(),
    {
        match self.selected_overlay {
            Some(id) => {
                let ids = self.overlays_on(self.playhead);
                match find_place(&ids, id) {
                    Some(_) => Some(id),
                    None => None,
                }
            },
            None => None,
        }
    }

    /// Frames a zoom touches. The panel's "Zoom and resize" follows the frame
    /// scope (`all` false); the Image menu's "Zoom and resize all frames"
    /// ignores it and takes the whole document (`all` true).
    pub fn zoom_frames(&self, all: bool) -> (r: Vec<usize>)
        ensures
            r@ == self@.zoomed(all),
    {
        if all {
            let r = crate::selection::frames_from(0, self.frame_count());
            assert(r@ =~= self@.zoomed(all));
            r
        } else {
            self.scope_frames()
        }
    }

    /// The crop-and-keep-size work for a given box, or `None` if the box is
    /// off canvas. Which frames it touches follows the scope exactly, the
    /// same as a frame operation does: the frame on screen, a selection, or
    /// every frame — never hardcoded to just the frame on screen.
    pub fn shrink_work(&self, rect: Option<Rect>) -> (r: Option<FrameWork>)
        ensures
            match rect {
                Some(rect) => r matches Some(work) && work@ == (WorkView::Shrink {
                    frames: self@.scope_frames(),
                    rect,
                }),
                None => r is None,
            },
    {
        match rect {
            Some(rect) => Some(FrameWork::Shrink { frames: self.scope_frames(), rect }),
            None => None,
        }
    }

    /// The canvas only shows the playhead frame, so an overlay being edited
    /// must sit on it: seek to its first frame rather than edit something
    /// unseen. Unlike a strip seek this is bookkeeping for the panel, not
    /// navigation — the selection and the scope stay as they are.
    pub fn seek_to_overlay(&mut self, id: OverlayId)
        ensures
            final(self)@ == old(self)@.sought_overlay(id),
            final(self).editor == old(self).editor,
    {
        match self.editor.doc.overlay(id) {
            Some(o) => {
                if !(o.range.start <= self.playhead && self.playhead < o.range.end) {
                    let start: usize = o.range.start;
                    self.playhead = at_most_last(start, self.frame_count());
                }
            },
            None => {},
        }
    }

    /// How far into the animation the frame on screen starts.
    pub fn elapsed_cs(&self) -> (r: u32)
        requires
            total_delay(self@.doc().frames) <= u32::MAX,
        ensures
            r == total_delay(
                self@.doc().frames.take(
                    if self@.playhead < self@.count() {
                        self@.playhead as int
                    } else {
                        self@.count() as int
                    },
                ),
            ),
    {
        let n: usize = if self.playhead < self.frame_count() {
            self.playhead
        } else {
            self.frame_count()
        };
        let ghost frames = self@.doc().frames;
        let mut total: u32 = 0;
        let mut i: usize = 0;
        while i < n
            invariant
                i <= n <= self.editor.doc.frames@.len(),
                frames == self@.doc().frames,
                total == total_delay(frames.take(i as int)),
                total_delay(frames) <= u32::MAX,
            decreases n - i,
        {
            proof {
                crate::document::lemma_total_delay_prefix(frames, i + 1);
                assert(frames.take(i + 1).drop_last() =~= frames.take(i as int));
            }
            total = total + self.editor.doc.frames[i].delay_cs as u32;
            i = i + 1;
        }
        total
    }

    /// Everything a document change invalidates.
    pub fn after_edit(&mut self)
        requires
            old(self).rev < u64::MAX,
        ensures
            final(self)@ == old(self)@.settled(),
            final(self).editor == old(self).editor,
    {
        self.rev = self.rev + 1;
        let count = self.frame_count();
        self.playhead = at_most_last(self.playhead, count);
        self.selection = keep_below(&self.selection, count);
        if self.selection.len() == 0 && self.scope == ScopeChoice::Range {
            self.scope = ScopeChoice::ThisFrame;
        }
        self.anchor = match self.anchor {
            Some(i) => if i < count {
                Some(i)
            } else {
                None
            },
            None => None,
        };
        self.selected_overlay = match self.selected_overlay {
            Some(id) => match self.editor.doc.position(id) {
                Some(_) => Some(id),
                None => None,
            },
            None => None,
        };
    }

    /// Take a copy of the named frames onto the clipboard, in strip order.
    pub fn copy_frames(&mut self, frames: &Vec<usize>)
        requires
            forall|k: int| 0 <= k < frames@.len() ==> #[trigger] frames@[k] < old(self)@.count(),
        ensures
            final(self)@ == old(self)@.with_copied(frames@),
            final(self).editor == old(self).editor,
            final(self).clipboard@.len() == frames@.len(),
    {
        let mut copied: Vec<Frame> = Vec::new();
        let mut k: usize = 0;
        while k < frames.len()
            invariant
                k <= frames@.len(),
                forall|k: int| 0 <= k < frames@.len() ==> #[trigger] frames@[k] < self@.count(),
                views(copied@) == crate::drag::items_at(self@.doc().frames, frames@.take(k as int)),
                copied@.len() == k,
            decreases frames@.len() - k,
        {
            let ghost before = copied@;
            let at: usize = frames[k];
            copied.push(self.editor.doc.frames[at].clone());
            k = k + 1;
            assert(views(copied@) =~= views(before).push(self@.doc().frames[at as int]));
            assert(frames@.take(k as int)[k - 1] == at);
            assert forall|j: int| 0 <= j < k - 1 implies views(before)[j]
                == self@.doc().frames[#[trigger] frames@.take(k as int)[j] as int] by {
                assert(frames@.take(k - 1)[j] == frames@.take(k as int)[j]);
                assert(views(before)[j] == crate::drag::items_at(
                    self@.doc().frames,
                    frames@.take(k - 1),
                )[j]);
            }
            assert(views(copied@) =~= crate::drag::items_at(
                self@.doc().frames,
                frames@.take(k as int),
            ));
        }
        assert(frames@.take(k as int) =~= frames@);
        self.clipboard = copied;
    }

    /// The overlay a z-order step lands next to: the one shown beside `id`
    /// in the layer list, which lists the overlays on the frame on screen.
    /// Not the neighbouring entry in `doc.overlays` — that one may sit on
    /// frames nowhere near here, and stepping past it would move nothing
    /// the user can see. `up` is toward the top of the list, which is the
    /// overlay painted last.
    pub fn restack_neighbour(&self, id: OverlayId, up: bool) -> (r: Option<OverlayId>)
        ensures
            r == self@.neighbour(id, up),
    {
        let on_frame = self.overlays_on(self.playhead);
        let at = match find_place(&on_frame, id) {
            Some(at) => at,
            None => {
                return None;
            },
        };
        if up {
            if at < on_frame.len() - 1 {
                Some(on_frame[at + 1])
            } else {
                None
            }
        } else if at > 0 {
            Some(on_frame[at - 1])
        } else {
            None
        }
    }
}

/// What the layer list holds.
pub open spec fn stack_of(rows: Seq<(OverlayId, String)>) -> Seq<(OverlayId, Seq<char>)> {
    Seq::new(rows.len(), |k: int| (rows[k].0, rows[k].1@))
}

/// The overlays on `frame`, topmost first.
pub open spec fn layers(overlays: Seq<Overlay>, frame: int) -> Seq<(OverlayId, Seq<char>)>
    decreases overlays.len(),
{
    if overlays.len() == 0 {
        seq![]
    } else {
        let rest = layers(overlays.drop_last(), frame);
        let top = overlays.last();
        if top.covers(frame) {
            seq![(top.id, top.name@)] + rest
        } else {
            rest
        }
    }
}

impl AppView {
    pub open spec fn editing(self) -> Option<OverlayId> {
        match self.selected_overlay {
            Some(id) if ids_on(self.doc().overlays, self.playhead as int).contains(id) => Some(id),
            _ => None,
        }
    }

    pub open spec fn zoomed(self, all: bool) -> Seq<usize> {
        if all {
            Seq::new(self.count(), |i: int| i as usize)
        } else {
            self.scope_frames()
        }
    }

    pub open spec fn sought_overlay(self, id: OverlayId) -> AppView {
        let i = find_id(self.doc().overlays, id, 0);
        if i < self.doc().overlays.len() && !self.doc().overlays[i].covers(self.playhead as int) {
            AppView {
                playhead: last_at_most(
                    self.doc().overlays[i].range.start as int,
                    self.count() as int,
                ) as usize,
                ..self
            }
        } else {
            self
        }
    }

    pub open spec fn with_copied(self, frames: Seq<usize>) -> AppView {
        AppView { clipboard: crate::drag::items_at(self.doc().frames, frames), ..self }
    }

    pub open spec fn neighbour(self, id: OverlayId, up: bool) -> Option<OverlayId> {
        let ids = ids_on(self.doc().overlays, self.playhead as int);
        let at = place_of(ids, id, 0);
        let beside = if up {
            at + 1
        } else {
            at - 1
        };
        if at < ids.len() && 0 <= beside < ids.len() {
            Some(ids[beside])
        } else {
            None
        }
    }
}

/// Where `id` stands in the list.
pub fn find_place(ids: &Vec<OverlayId>, id: OverlayId) -> (r: Option<usize>)
    ensures
        match r {
            Some(at) => at == place_of(ids@, id, 0) && at < ids@.len() && ids@[at as int] == id,
            None => place_of(ids@, id, 0) == ids@.len() && !ids@.contains(id),
        },
{
    let mut i: usize = 0;
    while i < ids.len()
        invariant
            i <= ids@.len(),
            place_of(ids@, id, 0) == place_of(ids@, id, i as int),
            forall|k: int| 0 <= k < i ==> #[trigger] ids@[k] != id,
        decreases ids@.len() - i,
    {
        if ids[i] == id {
            return Some(i);
        }
        i = i + 1;
    }
    None
}

/// The smaller of the index and the last place of `count`.
pub fn at_most_last(i: usize, count: usize) -> (r: usize)
    ensures
        r == last_at_most(i as int, count as int),
{
    if i < count {
        i
    } else if count > 0 {
        count - 1
    } else {
        0
    }
}

/// Those of the indices below `n`, in the order they came in.
fn keep_below(indices: &Vec<usize>, n: usize) -> (r: Vec<usize>)
    ensures
        r@ == below(indices@, n as nat),
{
    let mut r: Vec<usize> = Vec::new();
    let mut k: usize = 0;
    while k < indices.len()
        invariant
            k <= indices@.len(),
            r@ == below(indices@.take(k as int), n as nat),
        decreases indices@.len() - k,
    {
        assert(indices@.take(k + 1).drop_last() =~= indices@.take(k as int));
        if indices[k] < n {
            r.push(indices[k]);
        }
        k = k + 1;
    }
    assert(indices@.take(k as int) =~= indices@);
    r
}

/// The toast an edit earns.
pub fn toast_if_document_wide(change: Change, total: usize) -> (r: Effect)
    ensures
        r@ == toast_for(change@.label, change@.frames_touched as int, total as int),
{
    if change.frames_touched >= total && change.frames_touched >= 1 {
        Effect::Toast(change)
    } else {
        Effect::Nothing
    }
}

} // verus!
