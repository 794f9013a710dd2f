//! What can be asked of the window, and which of it has to wait while a long
//! job holds the document.

use vstd::prelude::*;

use crate::actions::Action;
use crate::canvas::Rect;
use crate::chord::Mods;
use crate::i18n::n;
use crate::keymap::Keymap;
use crate::model::{same_color, same_fill, same_kind, same_line, Line, OverlayId, OverlayKind, TextAlign};
use crate::raster::{Raster, Rgba8};
use crate::single::{same_number, Single};

verus! {

#[derive(Clone, Copy, PartialEq, Eq, Debug, Structural)]
pub enum ScopeChoice {
    ThisFrame,
    AllFrames,
    Range,
}

#[derive(Clone, Copy, PartialEq, Eq, Debug, Structural)]
pub enum FrameOp {
    Delete,
    Duplicate,
    Reverse,
    /// Delete, but onto the frame clipboard first.
    Cut,
}

#[derive(Clone, Copy, PartialEq, Eq, Debug, Structural)]
pub enum Tool {
    Text,
    Rect,
    Ellipse,
    Arrow,
}

/// A step of the strip's thumbnail zoom.
#[derive(Clone, Copy, PartialEq, Eq, Debug, Structural)]
pub enum ZoomStep {
    In,
    Out,
    Reset,
}

/// One field of the selected overlay. Grouped so the update arm is one branch
/// rather than a dozen near-identical ones.
#[derive(Debug)]
pub enum OverlayProp {
    Font(String),
    TextSize(Single),
    Fill(Option<Rgba8>),
    Stroke(Option<Line>),
    Outline(Option<Line>),
    Align(TextAlign),
    Antialias(bool),
}

impl OverlayProp {
    /// Whether applying this changes anything; see `changes`.
    pub open spec fn makes_a_change(self, kind: OverlayKind, resized: bool) -> bool {
        match (kind, self) {
            (OverlayKind::Text(t), OverlayProp::Font(f)) => t.font@ != f@,
            (OverlayKind::Text(_), OverlayProp::TextSize(_)) => resized,
            (OverlayKind::Text(t), OverlayProp::Fill(Some(c))) => !same_color(t.color, c),
            (OverlayKind::Text(t), OverlayProp::Outline(o)) => !same_line(t.outline, o),
            (OverlayKind::Text(t), OverlayProp::Align(a)) => t.align != a,
            (OverlayKind::Text(t), OverlayProp::Antialias(on)) => t.antialias != on,
            (OverlayKind::Shape(s), OverlayProp::Fill(c)) => !same_fill(s.fill, c),
            (OverlayKind::Shape(s), OverlayProp::Stroke(v)) => !same_line(s.stroke, v),
            _ => false,
        }
    }

    /// The overlay's look with this set.
    pub open spec fn applied(self, kind: OverlayKind) -> OverlayKind {
        match (kind, self) {
            (OverlayKind::Text(t), OverlayProp::Font(font)) => OverlayKind::Text(
                crate::model::TextOverlay { font, ..t },
            ),
            (OverlayKind::Text(t), OverlayProp::TextSize(size_px)) => OverlayKind::Text(
                crate::model::TextOverlay { size_px, ..t },
            ),
            (OverlayKind::Text(t), OverlayProp::Fill(Some(color))) => OverlayKind::Text(
                crate::model::TextOverlay { color, ..t },
            ),
            (OverlayKind::Text(t), OverlayProp::Outline(outline)) => OverlayKind::Text(
                crate::model::TextOverlay { outline, ..t },
            ),
            (OverlayKind::Text(t), OverlayProp::Align(align)) => OverlayKind::Text(
                crate::model::TextOverlay { align, ..t },
            ),
            (OverlayKind::Text(t), OverlayProp::Antialias(antialias)) => OverlayKind::Text(
                crate::model::TextOverlay { antialias, ..t },
            ),
            (OverlayKind::Shape(s), OverlayProp::Fill(fill)) => OverlayKind::Shape(
                crate::model::ShapeOverlay { fill, ..s },
            ),
            (OverlayKind::Shape(s), OverlayProp::Stroke(stroke)) => OverlayKind::Shape(
                crate::model::ShapeOverlay { stroke, ..s },
            ),
            _ => kind,
        }
    }

    /// Whether applying this would actually change anything. Setting a sidebar
    /// widget fires its own notify handler, so selecting an overlay echoes
    /// every one of its properties straight back — and a no-op edit still costs
    /// an undo step. `resized` says whether a text size that is set differs
    /// noticeably from the one the overlay has.
    pub fn changes(&self, kind: &OverlayKind, resized: bool) -> (r: bool)
        ensures
            r == self.makes_a_change(*kind, resized),
    {
        match (kind, self) {
            (OverlayKind::Text(t), OverlayProp::Font(f)) => t.font != *f,
            (OverlayKind::Text(_), OverlayProp::TextSize(_)) => resized,
            (OverlayKind::Text(t), OverlayProp::Fill(Some(c))) => !crate::model::colors_equal(
                t.color,
                *c,
            ),
            (OverlayKind::Text(t), OverlayProp::Outline(o)) => !crate::model::lines_equal(
                t.outline,
                *o,
            ),
            (OverlayKind::Text(t), OverlayProp::Align(a)) => t.align != *a,
            (OverlayKind::Text(t), OverlayProp::Antialias(on)) => t.antialias != *on,
            (OverlayKind::Shape(s), OverlayProp::Fill(c)) => !crate::model::fills_equal(s.fill, *c),
            (OverlayKind::Shape(s), OverlayProp::Stroke(v)) => !crate::model::lines_equal(
                s.stroke,
                *v,
            ),
            _ => false,
        }
    }

    /// Set this on an overlay's look.
    pub fn apply(self, kind: &mut OverlayKind)
        ensures
            *final(kind) == self.applied(*old(kind)),
    {
        match (kind, self) {
            (OverlayKind::Text(t), OverlayProp::Font(f)) => {
                t.font = f;
            },
            (OverlayKind::Text(t), OverlayProp::TextSize(px)) => {
                t.size_px = px;
            },
            (OverlayKind::Text(t), OverlayProp::Fill(Some(c))) => {
                t.color = c;
            },
            (OverlayKind::Text(t), OverlayProp::Outline(o)) => {
                t.outline = o;
            },
            (OverlayKind::Text(t), OverlayProp::Align(a)) => {
                t.align = a;
            },
            (OverlayKind::Text(t), OverlayProp::Antialias(on)) => {
                t.antialias = on;
            },
            (OverlayKind::Shape(s), OverlayProp::Fill(c)) => {
                s.fill = c;
            },
            (OverlayKind::Shape(s), OverlayProp::Stroke(v)) => {
                s.stroke = v;
            },
            _ => {},
        }
    }
}

/// Everything the window is asked. A file that a message is about stays with
/// the caller; what was read of it comes along.
#[derive(Debug)]
pub enum Msg {
    Open,
    /// Probe first, then import; the user gets a say if the file is too big to
    /// come in whole.
    Load,
    /// Import at the settings the dialog came back with.
    LoadConfirmed,
    /// The user pressed the X beside the import progress bar.
    CancelImport,
    /// Debounced: measure the export size for this document revision, unless
    /// the document has moved on since.
    Estimate(u64),
    Export,
    Undo,
    Redo,
    TogglePlay,
    Tick,
    Seek(usize),
    /// Right-click on a frame already inside the active selection: navigate
    /// to it without throwing the selection away, which a plain `Seek`
    /// (navigation *is* picking one frame) would do.
    SeekKeepSelection(usize),
    ExtendSelection(usize),
    SetScope(ScopeChoice),
    AddOverlay(Tool),
    SelectOverlay(Option<OverlayId>),
    FrameOp(FrameOp),
    /// Put the frames in scope on the app's frame clipboard, changing
    /// nothing. Cutting is `FrameOp::Cut`, which copies and then deletes.
    FrameCopy,
    /// Splice the frame clipboard in after the frame on screen.
    FramePaste,
    /// Nudge every frame in scope one slot toward the start or the end,
    /// swapping the block with the one unselected frame beside it.
    MoveSelection { earlier: bool },
    /// A drag-and-drop landing: `from` is the frame the drag started on, and
    /// `gap` is the divider position it was released at. The model widens
    /// `from` to the whole selection when it was dragged from inside one.
    MoveSelectionTo { from: usize, gap: usize },
    /// The sidebar's delay spin button and the frame context menu's
    /// "Set delay…": applies to every frame the current scope names (just
    /// the playhead, for `ThisFrame`).
    SetScopeDelay(u16),
    /// Open the "set delay for all frames" dialog. Needs the live frame count
    /// and a default value, which only the model knows.
    DelayAllDialog,
    SetAllFramesDelay(u16),
    EditText(String),
    /// Every overlay property the sidebar can change, in one message: they all
    /// do the same thing to history and the view.
    SetOverlayProp(OverlayProp),
    /// Delete one named overlay — the X on its row in the layer list, which
    /// acts on the row it sits on rather than on whatever is selected.
    DeleteOverlay(OverlayId),
    /// Move one overlay a step up or down the z-order, past the overlay
    /// shown next to it in the layer list. `up` is toward the top of that
    /// list, which is the overlay painted last.
    RestackOverlay { id: OverlayId, up: bool },
    DeleteSelection,
    SelectAllFrames,
    /// Ctrl+click: add or remove this one frame, wherever it is.
    ToggleSelection(usize),
    ToggleBandsExpanded,
    /// Canvas pointer, in image pixels.
    CanvasPress { x: Single, y: Single, state: Mods },
    CanvasDrag { state: Mods },
    CanvasRelease,
    ToggleCropTool,
    /// Esc: leave the crop tool if it is on, otherwise drop the overlay
    /// selection so the sidebar falls back to the plain frame view.
    Escape,
    ApplyCrop,
    /// Fill the canvas from the crop box on the frames in scope.
    ApplyZoom,
    /// Fill the canvas from the crop box on every frame in the document.
    ApplyZoomAll,
    /// Open the crop-all dialog. The dialog needs the live canvas size, which
    /// only the model knows — action closures do not.
    CropAllDialog,
    /// Crop every frame to this box, the four dialog fields in pixels.
    CropAll(u32, u32, u32, u32),
    /// Keep the crop box and blank everything outside it, on every frame in
    /// scope. Unlike `ApplyZoom` the kept region is not scaled back up.
    ApplyShrink,
    DropEveryNth(usize),
    SmartDrop(usize),
    Resize(u32, u32),
    /// A frame's own context menu: splice a decoded image in right after it.
    /// Without the image if the file would not decode.
    InsertImageFrame(usize, Option<Raster>),
    /// A still image chosen from "Add frames from file": append one frame,
    /// fitted to the canvas. Videos and animations take the async
    /// `LoadAppend` path instead.
    AppendImageFrame(Option<Raster>),
    /// Pick another clip or image from "Add frames from file".
    ImportMore,
    /// Like `Load`, but appends the decoded frames instead of replacing the
    /// document — `import_append` carries the mode across the async decode.
    LoadAppend,
    /// Reorder: pull the frame at `.0` out and reinsert it at `.1`.
    MoveFrame(usize, usize),
    /// A frame's own context menu: ask where to move it.
    MoveFrameDialog(usize),
    SetKeymap(Keymap),
    /// An edit landed: the toast offers Undo.
    Toast(String),
    /// Feedback for something that changed nothing undoable, so its toast
    /// carries no Undo button.
    Notice(String),
    /// Scale the timeline strip's thumbnails.
    StripZoom(ZoomStep),
}

impl Msg {
    /// Whether acting on this would reorder or remove frames; see
    /// `changes_frames`.
    pub open spec fn moves_frames(self) -> bool {
        ||| self is Load
        ||| self is LoadConfirmed
        ||| self is LoadAppend
        ||| self is Undo
        ||| self is Redo
        ||| self is DeleteSelection
        ||| self is FrameOp
        ||| self is FramePaste
        ||| self is MoveSelection
        ||| self is MoveSelectionTo
        ||| self is SetScopeDelay
        ||| self is SetAllFramesDelay
        ||| self is ApplyCrop
        ||| self is CropAll
        ||| self is ApplyZoom
        ||| self is ApplyZoomAll
        ||| self is ApplyShrink
        ||| self is DropEveryNth
        ||| self is SmartDrop
        ||| self is Resize
        ||| self is InsertImageFrame
        ||| self is AppendImageFrame
        ||| self is MoveFrame
    }

    /// See `requires_idle`.
    pub open spec fn waits(self) -> bool {
        ||| self.moves_frames()
        ||| self is Open
        ||| self is Export
        ||| self is CropAllDialog
        ||| self is DelayAllDialog
        ||| self is ImportMore
    }

    /// See `edits_document`.
    pub open spec fn edits(self) -> bool {
        ||| self is Undo
        ||| self is Redo
        ||| self is AddOverlay
        ||| self is FrameOp
        ||| self is FramePaste
        ||| self is DeleteOverlay
        ||| self is RestackOverlay
        ||| self is MoveSelection
        ||| self is MoveSelectionTo
        ||| self is SetScopeDelay
        ||| self is SetAllFramesDelay
        ||| self is EditText
        ||| self is SetOverlayProp
        ||| self is DeleteSelection
        ||| self is CanvasPress
        ||| self is CanvasDrag
        ||| self is CanvasRelease
        ||| self is ToggleCropTool
        ||| self is ApplyCrop
        ||| self is ApplyZoom
        ||| self is ApplyZoomAll
        ||| self is ApplyShrink
        ||| self is CropAll
        ||| self is DropEveryNth
        ||| self is SmartDrop
        ||| self is Resize
        ||| self is InsertImageFrame
        ||| self is AppendImageFrame
        ||| self is MoveFrame
    }

    /// Whether acting on this would reorder or remove frames. Frame work runs
    /// against the snapshot taken when it started and lands its results by
    /// frame index, so anything that moves an index has to wait until the
    /// worker is done. One-frame field edits are in here too: a delay changed
    /// mid-work would ride in the produced frame and be swapped back out.
    pub fn changes_frames(&self) -> (r: bool)
        ensures
            r == self.moves_frames(),
    {
        match self {
            Msg::Load | Msg::LoadConfirmed | Msg::LoadAppend | Msg::Undo | Msg::Redo => true,
            Msg::DeleteSelection | Msg::FrameOp(_) | Msg::FramePaste => true,
            Msg::MoveSelection { .. } | Msg::MoveSelectionTo { .. } => true,
            Msg::SetScopeDelay(_) | Msg::SetAllFramesDelay(_) => true,
            Msg::ApplyCrop | Msg::CropAll(_, _, _, _) => true,
            Msg::ApplyZoom | Msg::ApplyZoomAll | Msg::ApplyShrink => true,
            Msg::DropEveryNth(_) | Msg::SmartDrop(_) | Msg::Resize(_, _) => true,
            Msg::InsertImageFrame(_, _) | Msg::AppendImageFrame(_) | Msg::MoveFrame(_, _) => true,
            _ => false,
        }
    }

    /// Operations whose result would be stale or whose follow-up message would
    /// be discarded while an import, resize, or zoom owns the document.
    pub fn requires_idle(&self) -> (r: bool)
        ensures
            r == self.waits(),
    {
        self.changes_frames() || match self {
            Msg::Open | Msg::Export | Msg::CropAllDialog | Msg::DelayAllDialog | Msg::ImportMore => true,
            _ => false,
        }
    }

    pub fn edits_document(&self) -> (r: bool)
        ensures
            r == self.edits(),
    {
        match self {
            Msg::Undo | Msg::Redo | Msg::AddOverlay(_) | Msg::FrameOp(_) | Msg::FramePaste => true,
            Msg::DeleteOverlay(_) | Msg::RestackOverlay { .. } => true,
            Msg::MoveSelection { .. } | Msg::MoveSelectionTo { .. } => true,
            Msg::SetScopeDelay(_) | Msg::SetAllFramesDelay(_) => true,
            Msg::EditText(_) | Msg::SetOverlayProp(_) | Msg::DeleteSelection => true,
            Msg::CanvasPress { .. } | Msg::CanvasDrag { .. } | Msg::CanvasRelease => true,
            Msg::ToggleCropTool | Msg::ApplyCrop | Msg::ApplyZoom | Msg::ApplyZoomAll => true,
            Msg::ApplyShrink | Msg::CropAll(_, _, _, _) | Msg::DropEveryNth(_) => true,
            Msg::SmartDrop(_) | Msg::Resize(_, _) | Msg::InsertImageFrame(_, _) => true,
            Msg::AppendImageFrame(_) | Msg::MoveFrame(_, _) => true,
            _ => false,
        }
    }
}

/// The message an action fires. Kept next to the keymap so a new action is one
/// arm here and one entry in the action list, not a scattered edit.
pub open spec fn answer(action: Action) -> Option<Msg> {
    match action {
        Action::ShowShortcuts => None,
        _ => Some(
            match action {
                Action::Open => Msg::Open,
                Action::Export => Msg::Export,
                Action::Undo => Msg::Undo,
                Action::Redo => Msg::Redo,
                Action::PlayPause => Msg::TogglePlay,
                Action::SelectAll => Msg::SelectAllFrames,
                Action::Delete => Msg::DeleteSelection,
                Action::ToolText => Msg::AddOverlay(Tool::Text),
                Action::ToolRect => Msg::AddOverlay(Tool::Rect),
                Action::ToolEllipse => Msg::AddOverlay(Tool::Ellipse),
                Action::ToolArrow => Msg::AddOverlay(Tool::Arrow),
                Action::ToolCrop => Msg::ToggleCropTool,
                Action::FrameDelete => Msg::FrameOp(FrameOp::Delete),
                Action::FrameDuplicate => Msg::FrameOp(FrameOp::Duplicate),
                Action::FrameCut => Msg::FrameOp(FrameOp::Cut),
                Action::FrameCopy => Msg::FrameCopy,
                Action::FramePaste => Msg::FramePaste,
                Action::FrameReverse => Msg::FrameOp(FrameOp::Reverse),
                Action::ZoomToSelection => Msg::ApplyZoom,
                Action::StripZoomIn => Msg::StripZoom(ZoomStep::In),
                Action::StripZoomOut => Msg::StripZoom(ZoomStep::Out),
                _ => Msg::StripZoom(ZoomStep::Reset),
            },
        ),
    }
}

/// The message an action fires. Showing the shortcuts is the window's own
/// doing; its message says nothing.
pub fn message_for(action: Action) -> (r: Msg)
    ensures
        if action == Action::ShowShortcuts {
            r matches Msg::Toast(text) && text@ == Seq::<char>::empty()
        } else {
            answer(action) == Some(r)
        },
{
    match action {
        Action::Open => Msg::Open,
        Action::Export => Msg::Export,
        Action::Undo => Msg::Undo,
        Action::Redo => Msg::Redo,
        Action::PlayPause => Msg::TogglePlay,
        Action::SelectAll => Msg::SelectAllFrames,
        Action::Delete => Msg::DeleteSelection,
        Action::ShowShortcuts => Msg::Toast(String::new()),
        Action::ToolText => Msg::AddOverlay(Tool::Text),
        Action::ToolRect => Msg::AddOverlay(Tool::Rect),
        Action::ToolEllipse => Msg::AddOverlay(Tool::Ellipse),
        Action::ToolArrow => Msg::AddOverlay(Tool::Arrow),
        Action::ToolCrop => Msg::ToggleCropTool,
        Action::FrameDelete => Msg::FrameOp(FrameOp::Delete),
        Action::FrameDuplicate => Msg::FrameOp(FrameOp::Duplicate),
        Action::FrameCut => Msg::FrameOp(FrameOp::Cut),
        Action::FrameCopy => Msg::FrameCopy,
        Action::FramePaste => Msg::FramePaste,
        Action::FrameReverse => Msg::FrameOp(FrameOp::Reverse),
        Action::ZoomToSelection => Msg::ApplyZoom,
        Action::StripZoomIn => Msg::StripZoom(ZoomStep::In),
        Action::StripZoomOut => Msg::StripZoom(ZoomStep::Out),
        Action::StripZoomReset => Msg::StripZoom(ZoomStep::Reset),
    }
}

/// The action a key press picks out of those its chord is bound to, and where
/// the tool cycle is up to after it. Several tools on one key are a cycle, not
/// a duplicate.
pub fn action_for_press(actions: &Vec<Action>, cycle: usize) -> (r: (Option<Action>, usize))
    ensures
        ({
            let len = actions@.len();
            let after = if cycle == usize::MAX {
                0
            } else {
                cycle + 1
            };
            if len == 0 {
                r == (None::<Action>, cycle)
            } else if len == 1 {
                r == (Some(actions@[0]), cycle)
            } else {
                r.1 == after % (len as int) && r.0 == Some(actions@[after % (len as int)])
            }
        }),
{
    if actions.len() == 0 {
        return (None, cycle);
    }
    if actions.len() == 1 {
        return (Some(actions[0]), cycle);
    }
    let after: usize = if cycle == usize::MAX {
        0
    } else {
        cycle + 1
    };
    let next: usize = after % actions.len();
    (Some(actions[next]), next)
}

impl Tool {
    /// Icon name for the bundled left-rail glyph.
    pub fn icon_name(self) -> (r: &'static str)
        ensures
            r@ == match self {
                Tool::Text => "tool-text-symbolic"@,
                Tool::Rect => "tool-rect-symbolic"@,
                Tool::Ellipse => "tool-ellipse-symbolic"@,
                Tool::Arrow => "tool-arrow-symbolic"@,
            },
    {
        match self {
            Tool::Text => "tool-text-symbolic",
            Tool::Rect => "tool-rect-symbolic",
            Tool::Ellipse => "tool-ellipse-symbolic",
            Tool::Arrow => "tool-arrow-symbolic",
        }
    }

    /// What the tool is called, and the overlays it makes.
    pub open spec fn title(self) -> Seq<char> {
        match self {
            Tool::Text => "Text"@,
            Tool::Rect => "Rectangle"@,
            Tool::Ellipse => "Ellipse"@,
            Tool::Arrow => "Arrow"@,
        }
    }

    /// Marked with `n` and translated where it is shown: the same words are
    /// also the overlay names stored in the document, which stay English.
    pub fn label(self) -> (r: &'static str)
        ensures
            r@ == self.title(),
    {
        match self {
            Tool::Text => n("Text"),
            Tool::Rect => n("Rectangle"),
            Tool::Ellipse => n("Ellipse"),
            Tool::Arrow => n("Arrow"),
        }
    }

    pub fn action(self) -> (r: Action)
        ensures
            r == match self {
                Tool::Text => Action::ToolText,
                Tool::Rect => Action::ToolRect,
                Tool::Ellipse => Action::ToolEllipse,
                Tool::Arrow => Action::ToolArrow,
            },
    {
        match self {
            Tool::Text => Action::ToolText,
            Tool::Rect => Action::ToolRect,
            Tool::Ellipse => Action::ToolEllipse,
            Tool::Arrow => Action::ToolArrow,
        }
    }
}

/// A tool's key asks for its overlay.
pub proof fn law_tool_keys_add_their_overlay(tool: Tool)
    ensures
        answer(
            match tool {
                Tool::Text => Action::ToolText,
                Tool::Rect => Action::ToolRect,
                Tool::Ellipse => Action::ToolEllipse,
                Tool::Arrow => Action::ToolArrow,
            },
        ) == Some(Msg::AddOverlay(tool)),
{
}

/// Whatever would move frames while a worker runs waits for it.
pub proof fn law_frame_moves_wait(msg: Msg)
    ensures
        msg.moves_frames() ==> msg.waits(),
        msg.edits() && !msg.waits() ==> {
            ||| msg is AddOverlay
            ||| msg is DeleteOverlay
            ||| msg is RestackOverlay
            ||| msg is EditText
            ||| msg is SetOverlayProp
            ||| msg is CanvasPress
            ||| msg is CanvasDrag
            ||| msg is CanvasRelease
            ||| msg is ToggleCropTool
        },
{
}

/// A property that an overlay has is set by applying it: the field of that name
/// holds the value given, and setting it once more would change nothing.
pub proof fn law_a_property_is_set(prop: OverlayProp, kind: OverlayKind)
    ensures
        match (kind, prop) {
            (OverlayKind::Text(_), OverlayProp::Font(f)) => prop.applied(
                kind,
            ) matches OverlayKind::Text(t) && t.font@ == f@,
            (OverlayKind::Text(_), OverlayProp::TextSize(px)) => prop.applied(
                kind,
            ) matches OverlayKind::Text(t) && t.size_px == px,
            (OverlayKind::Text(_), OverlayProp::Fill(Some(c))) => prop.applied(
                kind,
            ) matches OverlayKind::Text(t) && t.color == c,
            (OverlayKind::Text(_), OverlayProp::Outline(o)) => prop.applied(
                kind,
            ) matches OverlayKind::Text(t) && t.outline == o,
            (OverlayKind::Text(_), OverlayProp::Align(a)) => prop.applied(
                kind,
            ) matches OverlayKind::Text(t) && t.align == a,
            (OverlayKind::Text(_), OverlayProp::Antialias(on)) => prop.applied(
                kind,
            ) matches OverlayKind::Text(t) && t.antialias == on,
            (OverlayKind::Shape(_), OverlayProp::Fill(f)) => prop.applied(
                kind,
            ) matches OverlayKind::Shape(s) && s.fill == f,
            (OverlayKind::Shape(_), OverlayProp::Stroke(l)) => prop.applied(
                kind,
            ) matches OverlayKind::Shape(s) && s.stroke == l,
            _ => prop.applied(kind) == kind && !prop.makes_a_change(kind, true),
        },
        prop.applied(prop.applied(kind)) == prop.applied(kind),
        plain_line(prop) ==> !prop.makes_a_change(prop.applied(kind), false),
{
}

/// Whether the property has no line whose width is no number.
pub open spec fn plain_line(prop: OverlayProp) -> bool {
    match prop {
        OverlayProp::Outline(Some(l)) | OverlayProp::Stroke(Some(l)) => same_number(l.1, l.1),
        _ => true,
    }
}

/// Applying a property changes no field but the one it names.
pub proof fn law_a_property_leaves_the_rest(prop: OverlayProp, kind: OverlayKind)
    ensures
        match (kind, prop.applied(kind)) {
            (OverlayKind::Text(a), OverlayKind::Text(b)) => {
                &&& a.text == b.text
                &&& !(prop is Font) ==> a.font == b.font
                &&& !(prop is TextSize) ==> a.size_px == b.size_px
                &&& !(prop is Fill) ==> a.color == b.color
                &&& !(prop is Outline) ==> a.outline == b.outline
                &&& !(prop is Align) ==> a.align == b.align
                &&& !(prop is Antialias) ==> a.antialias == b.antialias
            },
            (OverlayKind::Shape(a), OverlayKind::Shape(b)) => {
                &&& a.shape == b.shape
                &&& !(prop is Fill) ==> a.fill == b.fill
                &&& !(prop is Stroke) ==> a.stroke == b.stroke
            },
            (OverlayKind::Image(a), OverlayKind::Image(b)) => a == b,
            _ => false,
        },
{
}

/// What an edit is asked for shows: a property that makes a change changes the
/// overlay's look, and one that makes none leaves it looking the same.
pub proof fn law_a_change_shows(prop: OverlayProp, kind: OverlayKind)
    requires
        !(prop is TextSize),
    ensures
        prop.makes_a_change(kind, false) ==> prop.applied(kind) != kind || !plain_line(prop),
        !prop.makes_a_change(kind, false) && same_kind(kind, kind) ==> same_kind(
            prop.applied(kind),
            kind,
        ),
{
}

} // verus!
