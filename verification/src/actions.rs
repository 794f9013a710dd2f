//! What can carry a shortcut, and the modifiers held on the canvas.

use vstd::prelude::*;

use crate::i18n::n;
use crate::text::{chars_of, same_chars};

verus! {

/// Everything that can carry a shortcut. The tool entries are deliberately
/// separate actions: they are allowed to share a key and cycle.
#[derive(Clone, Copy, PartialEq, Eq, Hash, Debug, Structural)]
pub enum Action {
    Open,
    Export,
    Undo,
    Redo,
    PlayPause,
    SelectAll,
    Delete,
    ShowShortcuts,
    ToolText,
    ToolRect,
    ToolEllipse,
    ToolArrow,
    ToolCrop,
    FrameDelete,
    FrameDuplicate,
    FrameCut,
    FrameCopy,
    FramePaste,
    FrameReverse,
    ZoomToSelection,
    StripZoomIn,
    StripZoomOut,
    StripZoomReset,
}

/// How many actions there are.
pub const ACTION_COUNT: usize = 23;

/// The actions in the order the shortcuts window lists them in.
pub open spec fn action_at(i: int) -> Action {
    if i == 0 {
        Action::Open
    } else if i == 1 {
        Action::Export
    } else if i == 2 {
        Action::Undo
    } else if i == 3 {
        Action::Redo
    } else if i == 4 {
        Action::PlayPause
    } else if i == 5 {
        Action::SelectAll
    } else if i == 6 {
        Action::Delete
    } else if i == 7 {
        Action::ShowShortcuts
    } else if i == 8 {
        Action::ToolText
    } else if i == 9 {
        Action::ToolRect
    } else if i == 10 {
        Action::ToolEllipse
    } else if i == 11 {
        Action::ToolArrow
    } else if i == 12 {
        Action::ToolCrop
    } else if i == 13 {
        Action::FrameDelete
    } else if i == 14 {
        Action::FrameDuplicate
    } else if i == 15 {
        Action::FrameCut
    } else if i == 16 {
        Action::FrameCopy
    } else if i == 17 {
        Action::FramePaste
    } else if i == 18 {
        Action::FrameReverse
    } else if i == 19 {
        Action::ZoomToSelection
    } else if i == 20 {
        Action::StripZoomIn
    } else if i == 21 {
        Action::StripZoomOut
    } else {
        Action::StripZoomReset
    }
}

/// The actions in the order the shortcuts window lists them in.
pub fn actions() -> (r: Vec<Action>)
    ensures
        r@ == Seq::new(ACTION_COUNT as nat, |i: int| action_at(i)),
{
    let mut r: Vec<Action> = Vec::new();
    let mut i: usize = 0;
    while i < ACTION_COUNT
        invariant
            i <= ACTION_COUNT,
            r@ == Seq::new(i as nat, |i: int| action_at(i)),
        decreases ACTION_COUNT - i,
    {
        r.push(Action::nth(i));
        i = i + 1;
        assert(r@ =~= Seq::new(i as nat, |i: int| action_at(i)));
    }
    r
}

impl Action {
    /// The action's place in the list.
    pub open spec fn rank(self) -> int {
        match self {
            Action::Open => 0,
            Action::Export => 1,
            Action::Undo => 2,
            Action::Redo => 3,
            Action::PlayPause => 4,
            Action::SelectAll => 5,
            Action::Delete => 6,
            Action::ShowShortcuts => 7,
            Action::ToolText => 8,
            Action::ToolRect => 9,
            Action::ToolEllipse => 10,
            Action::ToolArrow => 11,
            Action::ToolCrop => 12,
            Action::FrameDelete => 13,
            Action::FrameDuplicate => 14,
            Action::FrameCut => 15,
            Action::FrameCopy => 16,
            Action::FramePaste => 17,
            Action::FrameReverse => 18,
            Action::ZoomToSelection => 19,
            Action::StripZoomIn => 20,
            Action::StripZoomOut => 21,
            Action::StripZoomReset => 22,
        }
    }

    /// The action's place in the list.
    pub fn place(self) -> (r: usize)
        ensures
            r == self.rank(),
            r < ACTION_COUNT,
    {
        match self {
            Action::Open => 0,
            Action::Export => 1,
            Action::Undo => 2,
            Action::Redo => 3,
            Action::PlayPause => 4,
            Action::SelectAll => 5,
            Action::Delete => 6,
            Action::ShowShortcuts => 7,
            Action::ToolText => 8,
            Action::ToolRect => 9,
            Action::ToolEllipse => 10,
            Action::ToolArrow => 11,
            Action::ToolCrop => 12,
            Action::FrameDelete => 13,
            Action::FrameDuplicate => 14,
            Action::FrameCut => 15,
            Action::FrameCopy => 16,
            Action::FramePaste => 17,
            Action::FrameReverse => 18,
            Action::ZoomToSelection => 19,
            Action::StripZoomIn => 20,
            Action::StripZoomOut => 21,
            Action::StripZoomReset => 22,
        }
    }

    /// The action at a place in the list.
    pub fn nth(i: usize) -> (r: Action)
        requires
            i < ACTION_COUNT,
        ensures
            r == action_at(i as int),
            r.rank() == i,
    {
        if i == 0 {
            Action::Open
        } else if i == 1 {
            Action::Export
        } else if i == 2 {
            Action::Undo
        } else if i == 3 {
            Action::Redo
        } else if i == 4 {
            Action::PlayPause
        } else if i == 5 {
            Action::SelectAll
        } else if i == 6 {
            Action::Delete
        } else if i == 7 {
            Action::ShowShortcuts
        } else if i == 8 {
            Action::ToolText
        } else if i == 9 {
            Action::ToolRect
        } else if i == 10 {
            Action::ToolEllipse
        } else if i == 11 {
            Action::ToolArrow
        } else if i == 12 {
            Action::ToolCrop
        } else if i == 13 {
            Action::FrameDelete
        } else if i == 14 {
            Action::FrameDuplicate
        } else if i == 15 {
            Action::FrameCut
        } else if i == 16 {
            Action::FrameCopy
        } else if i == 17 {
            Action::FramePaste
        } else if i == 18 {
            Action::FrameReverse
        } else if i == 19 {
            Action::ZoomToSelection
        } else if i == 20 {
            Action::StripZoomIn
        } else if i == 21 {
            Action::StripZoomOut
        } else {
            Action::StripZoomReset
        }
    }

    /// Stable key in the config file.
    pub open spec fn id_text(self) -> Seq<char> {
        match self {
            Action::Open => "open"@,
            Action::Export => "export"@,
            Action::Undo => "undo"@,
            Action::Redo => "redo"@,
            Action::PlayPause => "play-pause"@,
            Action::SelectAll => "select-all"@,
            Action::Delete => "delete"@,
            Action::ShowShortcuts => "show-shortcuts"@,
            Action::ToolText => "tool-text"@,
            Action::ToolRect => "tool-rectangle"@,
            Action::ToolEllipse => "tool-ellipse"@,
            Action::ToolArrow => "tool-arrow"@,
            Action::ToolCrop => "tool-crop"@,
            Action::FrameDelete => "frame-delete"@,
            Action::FrameDuplicate => "frame-duplicate"@,
            Action::FrameCut => "frame-cut"@,
            Action::FrameCopy => "frame-copy"@,
            Action::FramePaste => "frame-paste"@,
            Action::FrameReverse => "frame-reverse"@,
            Action::ZoomToSelection => "zoom-to-selection"@,
            Action::StripZoomIn => "strip-zoom-in"@,
            Action::StripZoomOut => "strip-zoom-out"@,
            Action::StripZoomReset => "strip-zoom-reset"@,
        }
    }

    /// Stable key in the config file.
    pub fn id(self) -> (r: &'static str)
        ensures
            r@ == self.id_text(),
    {
        match self {
            Action::Open => "open",
            Action::Export => "export",
            Action::Undo => "undo",
            Action::Redo => "redo",
            Action::PlayPause => "play-pause",
            Action::SelectAll => "select-all",
            Action::Delete => "delete",
            Action::ShowShortcuts => "show-shortcuts",
            Action::ToolText => "tool-text",
            Action::ToolRect => "tool-rectangle",
            Action::ToolEllipse => "tool-ellipse",
            Action::ToolArrow => "tool-arrow",
            Action::ToolCrop => "tool-crop",
            Action::FrameDelete => "frame-delete",
            Action::FrameDuplicate => "frame-duplicate",
            Action::FrameCut => "frame-cut",
            Action::FrameCopy => "frame-copy",
            Action::FramePaste => "frame-paste",
            Action::FrameReverse => "frame-reverse",
            Action::ZoomToSelection => "zoom-to-selection",
            Action::StripZoomIn => "strip-zoom-in",
            Action::StripZoomOut => "strip-zoom-out",
            Action::StripZoomReset => "strip-zoom-reset",
        }
    }

    /// What the shortcuts window calls it.
    pub open spec fn label_text(self) -> Seq<char> {
        match self {
            Action::Open => "Open"@,
            Action::Export => "Export GIF"@,
            Action::Undo => "Undo"@,
            Action::Redo => "Redo"@,
            Action::PlayPause => "Play/pause"@,
            Action::SelectAll => "Select all frames"@,
            Action::Delete => "Delete selection"@,
            Action::ShowShortcuts => "Keyboard shortcuts"@,
            Action::ToolText => "Text tool"@,
            Action::ToolRect => "Rectangle tool"@,
            Action::ToolEllipse => "Ellipse tool"@,
            Action::ToolArrow => "Arrow tool"@,
            Action::ToolCrop => "Crop tool"@,
            Action::FrameDelete => "Delete frames"@,
            Action::FrameDuplicate => "Duplicate frames"@,
            Action::FrameCut => "Cut frames"@,
            Action::FrameCopy => "Copy frames"@,
            Action::FramePaste => "Paste frames"@,
            Action::FrameReverse => "Reverse frames"@,
            Action::ZoomToSelection => "Zoom this frame"@,
            Action::StripZoomIn => "Zoom in the frame strip"@,
            Action::StripZoomOut => "Zoom out the frame strip"@,
            Action::StripZoomReset => "Reset the frame strip zoom"@,
        }
    }

    pub fn label(self) -> (r: &'static str)
        ensures
            r@ == self.label_text(),
    {
        match self {
            Action::Open => n("Open"),
            Action::Export => n("Export GIF"),
            Action::Undo => n("Undo"),
            Action::Redo => n("Redo"),
            Action::PlayPause => n("Play/pause"),
            Action::SelectAll => n("Select all frames"),
            Action::Delete => n("Delete selection"),
            Action::ShowShortcuts => n("Keyboard shortcuts"),
            Action::ToolText => n("Text tool"),
            Action::ToolRect => n("Rectangle tool"),
            Action::ToolEllipse => n("Ellipse tool"),
            Action::ToolArrow => n("Arrow tool"),
            // Translators: Draws a box on the canvas for cropping or zooming.
            Action::ToolCrop => n("Crop tool"),
            Action::FrameDelete => n("Delete frames"),
            Action::FrameDuplicate => n("Duplicate frames"),
            Action::FrameCut => n("Cut frames"),
            Action::FrameCopy => n("Copy frames"),
            // Translators: Inserts the cut or copied frames after the frame on screen.
            Action::FramePaste => n("Paste frames"),
            Action::FrameReverse => n("Reverse frames"),
            // Translators: Fills the canvas from the crop box, on the frame on screen.
            Action::ZoomToSelection => n("Zoom this frame"),
            // Translators: Makes the frame thumbnails in the timeline strip larger.
            Action::StripZoomIn => n("Zoom in the frame strip"),
            // Translators: Makes the frame thumbnails in the timeline strip smaller.
            Action::StripZoomOut => n("Zoom out the frame strip"),
            Action::StripZoomReset => n("Reset the frame strip zoom"),
        }
    }

    /// Which part of the shortcuts window lists it.
    pub open spec fn group_text(self) -> Seq<char> {
        match self {
            Action::Open => "File"@,
            Action::Export => "File"@,
            Action::Undo => "Edit"@,
            Action::Redo => "Edit"@,
            Action::PlayPause => "Edit"@,
            Action::SelectAll => "Edit"@,
            Action::Delete => "Edit"@,
            Action::ShowShortcuts => "Edit"@,
            Action::ToolText => "Tools"@,
            Action::ToolRect => "Tools"@,
            Action::ToolEllipse => "Tools"@,
            Action::ToolArrow => "Tools"@,
            Action::ToolCrop => "Tools"@,
            Action::FrameDelete => "Frames"@,
            Action::FrameDuplicate => "Frames"@,
            Action::FrameCut => "Frames"@,
            Action::FrameCopy => "Frames"@,
            Action::FramePaste => "Frames"@,
            Action::FrameReverse => "Frames"@,
            Action::ZoomToSelection => "Frames"@,
            Action::StripZoomIn => "Frames"@,
            Action::StripZoomOut => "Frames"@,
            Action::StripZoomReset => "Frames"@,
        }
    }

    pub fn group(self) -> (r: &'static str)
        ensures
            r@ == self.group_text(),
    {
        match self {
            Action::Open | Action::Export => n("File"),
            Action::Undo | Action::Redo | Action::PlayPause | Action::SelectAll | Action::Delete | Action::ShowShortcuts => n("Edit"),
            Action::ToolText | Action::ToolRect | Action::ToolEllipse | Action::ToolArrow | Action::ToolCrop => n("Tools"),
            Action::FrameDelete | Action::FrameDuplicate | Action::FrameCut | Action::FrameCopy | Action::FramePaste | Action::FrameReverse | Action::ZoomToSelection | Action::StripZoomIn | Action::StripZoomOut | Action::StripZoomReset => n("Frames"),
        }
    }

    /// Tools share a key on purpose, so a clash between two of them is a cycle,
    /// not a mistake to warn about.
    pub open spec fn tool(self) -> bool {
        match self {
            Action::ToolText | Action::ToolRect | Action::ToolEllipse | Action::ToolArrow | Action::ToolCrop => true,
            _ => false,
        }
    }

    pub fn is_tool(self) -> (r: bool)
        ensures
            r == self.tool(),
    {
        matches!(self, Action::ToolText | Action::ToolRect | Action::ToolEllipse | Action::ToolArrow | Action::ToolCrop)
    }

    /// The chords it ships bound to.
    pub open spec fn default_texts(self) -> Seq<Seq<char>> {
        match self {
            Action::Open => seq!["Ctrl+O"@],
            Action::Export => seq!["Ctrl+E"@],
            Action::Undo => seq!["Ctrl+Z"@],
            Action::Redo => seq!["Ctrl+Shift+Z"@, "Ctrl+Y"@],
            Action::PlayPause => seq!["space"@],
            Action::SelectAll => seq!["Ctrl+A"@],
            Action::Delete => seq!["Delete"@],
            Action::ShowShortcuts => seq!["Ctrl+?"@],
            Action::ToolText => seq!["T"@],
            Action::ToolRect => seq!["R"@],
            Action::ToolEllipse => seq!["O"@],
            Action::ToolArrow => seq!["A"@],
            Action::ToolCrop => seq!["C"@],
            Action::FrameDelete => seq![],
            Action::FrameDuplicate => seq!["Ctrl+D"@],
            Action::FrameCut => seq!["Ctrl+X"@],
            Action::FrameCopy => seq!["Ctrl+C"@],
            Action::FramePaste => seq!["Ctrl+V"@],
            Action::FrameReverse => seq![],
            Action::ZoomToSelection => seq![],
            Action::StripZoomIn => seq!["Ctrl+Up"@, "Ctrl+plus"@, "Ctrl+equal"@],
            Action::StripZoomOut => seq!["Ctrl+Down"@, "Ctrl+minus"@],
            Action::StripZoomReset => seq!["Ctrl+0"@],
        }
    }

    /// The action with this key in the config file, from place `i` on.
    pub open spec fn named_from(key: Seq<char>, i: int) -> Option<Action>
        decreases ACTION_COUNT - i,
    {
        if i < 0 || i >= ACTION_COUNT {
            None
        } else if action_at(i).id_text() == key {
            Some(action_at(i))
        } else {
            Action::named_from(key, i + 1)
        }
    }

    /// The action with this key in the config file.
    pub fn named(key: &Vec<char>) -> (r: Option<Action>)
        ensures
            r == Action::named_from(key@, 0),
    {
        let mut i: usize = 0;
        while i < ACTION_COUNT
            invariant
                i <= ACTION_COUNT,
                Action::named_from(key@, 0) == Action::named_from(key@, i as int),
            decreases ACTION_COUNT - i,
        {
            let a = Action::nth(i);
            if same_chars(&chars_of(a.id()), key) {
                return Some(a);
            }
            i = i + 1;
        }
        None
    }
}

/// A modifier *held* during a canvas drag, rather than a chord pressed on its
/// own. Separate from `Action` because a chord needs a key and these are the
/// modifier alone.
#[derive(Clone, Copy, PartialEq, Eq, Hash, Debug, Structural)]
pub enum Modal {
    Rotate,
    KeepAspect,
    FromCenter,
}

/// How many there are.
pub const MODAL_COUNT: usize = 3;

pub open spec fn modal_at(i: int) -> Modal {
    if i == 0 {
        Modal::Rotate
    } else if i == 1 {
        Modal::KeepAspect
    } else {
        Modal::FromCenter
    }
}

impl Modal {
    /// The place in the list.
    pub open spec fn rank(self) -> int {
        match self {
            Modal::Rotate => 0,
            Modal::KeepAspect => 1,
            Modal::FromCenter => 2,
        }
    }

    pub fn place(self) -> (r: usize)
        ensures
            r == self.rank(),
            r < MODAL_COUNT,
    {
        match self {
            Modal::Rotate => 0,
            Modal::KeepAspect => 1,
            Modal::FromCenter => 2,
        }
    }

    pub fn nth(i: usize) -> (r: Modal)
        requires
            i < MODAL_COUNT,
        ensures
            r == modal_at(i as int),
            r.rank() == i,
    {
        if i == 0 {
            Modal::Rotate
        } else if i == 1 {
            Modal::KeepAspect
        } else {
            Modal::FromCenter
        }
    }

    /// Stable key in the config file.
    pub open spec fn id_text(self) -> Seq<char> {
        match self {
            Modal::Rotate => "canvas-rotate"@,
            Modal::KeepAspect => "canvas-keep-aspect"@,
            Modal::FromCenter => "canvas-from-center"@,
        }
    }

    /// Stable key in the config file.
    pub fn id(self) -> (r: &'static str)
        ensures
            r@ == self.id_text(),
    {
        match self {
            Modal::Rotate => "canvas-rotate",
            Modal::KeepAspect => "canvas-keep-aspect",
            Modal::FromCenter => "canvas-from-center",
        }
    }

    /// What the shortcuts window calls it.
    pub open spec fn label_text(self) -> Seq<char> {
        match self {
            Modal::Rotate => "Rotate instead of move"@,
            Modal::KeepAspect => "Keep the aspect ratio"@,
            Modal::FromCenter => "Resize from the center"@,
        }
    }

    pub fn label(self) -> (r: &'static str)
        ensures
            r@ == self.label_text(),
    {
        match self {
            // Translators: Held while dragging an overlay on the canvas.
            Modal::Rotate => n("Rotate instead of move"),
            Modal::KeepAspect => n("Keep the aspect ratio"),
            Modal::FromCenter => n("Resize from the center"),
        }
    }

    /// The modifier with this key in the config file, from place `i` on.
    pub open spec fn named_from(key: Seq<char>, i: int) -> Option<Modal>
        decreases MODAL_COUNT - i,
    {
        if i < 0 || i >= MODAL_COUNT {
            None
        } else if modal_at(i).id_text() == key {
            Some(modal_at(i))
        } else {
            Modal::named_from(key, i + 1)
        }
    }

    /// The modifier with this key in the config file.
    pub fn named(key: &Vec<char>) -> (r: Option<Modal>)
        ensures
            r == Modal::named_from(key@, 0),
    {
        let mut i: usize = 0;
        while i < MODAL_COUNT
            invariant
                i <= MODAL_COUNT,
                Modal::named_from(key@, 0) == Modal::named_from(key@, i as int),
            decreases MODAL_COUNT - i,
        {
            let m = Modal::nth(i);
            if same_chars(&chars_of(m.id()), key) {
                return Some(m);
            }
            i = i + 1;
        }
        None
    }
}

/// A key of the config file: lower case letters and hyphens, a letter at both
/// ends.
pub open spec fn key_shaped(id: Seq<char>) -> bool {
    &&& id.len() > 0
    &&& 'a' <= id[0] <= 'z'
    &&& 'a' <= id.last() <= 'z'
    &&& forall|i: int| 0 <= i < id.len() ==> 'a' <= #[trigger] id[i] <= 'z' || id[i] == '-'
}

/// Every key is of that shape.
pub proof fn lemma_action_id_shape(a: Action)
    ensures
        key_shaped(a.id_text()),
{
    match a {
        Action::Open => reveal_strlit("open"),
        Action::Export => reveal_strlit("export"),
        Action::Undo => reveal_strlit("undo"),
        Action::Redo => reveal_strlit("redo"),
        Action::PlayPause => reveal_strlit("play-pause"),
        Action::SelectAll => reveal_strlit("select-all"),
        Action::Delete => reveal_strlit("delete"),
        Action::ShowShortcuts => reveal_strlit("show-shortcuts"),
        Action::ToolText => reveal_strlit("tool-text"),
        Action::ToolRect => reveal_strlit("tool-rectangle"),
        Action::ToolEllipse => reveal_strlit("tool-ellipse"),
        Action::ToolArrow => reveal_strlit("tool-arrow"),
        Action::ToolCrop => reveal_strlit("tool-crop"),
        Action::FrameDelete => reveal_strlit("frame-delete"),
        Action::FrameDuplicate => reveal_strlit("frame-duplicate"),
        Action::FrameCut => reveal_strlit("frame-cut"),
        Action::FrameCopy => reveal_strlit("frame-copy"),
        Action::FramePaste => reveal_strlit("frame-paste"),
        Action::FrameReverse => reveal_strlit("frame-reverse"),
        Action::ZoomToSelection => reveal_strlit("zoom-to-selection"),
        Action::StripZoomIn => reveal_strlit("strip-zoom-in"),
        Action::StripZoomOut => reveal_strlit("strip-zoom-out"),
        Action::StripZoomReset => reveal_strlit("strip-zoom-reset"),
    }
}

pub proof fn lemma_modal_id_shape(m: Modal)
    ensures
        key_shaped(m.id_text()),
{
    match m {
        Modal::Rotate => reveal_strlit("canvas-rotate"),
        Modal::KeepAspect => reveal_strlit("canvas-keep-aspect"),
        Modal::FromCenter => reveal_strlit("canvas-from-center"),
    }
}

/// A number that tells the keys of the config file apart.
spec fn fingerprint(id: Seq<char>) -> int {
    id.len() * 100000000 + (id[0] as u32) * 1000000 + (id[id.len() as int / 2] as u32) * 1000 + (
    id[id.len() - 2] as u32)
}

proof fn lemma_action_fingerprint(a: Action)
    ensures
        fingerprint(a.id_text()) == match a {
            Action::Open => 511101101int,
            Action::Export => 701111114int,
            Action::Undo => 517100100int,
            Action::Redo => 514100100int,
            Action::PlayPause => 1112112115int,
            Action::SelectAll => 1115116108int,
            Action::Delete => 700101116int,
            Action::ShowShortcuts => 1515111116int,
            Action::ToolText => 1016045120int,
            Action::ToolRect => 1516099108int,
            Action::ToolEllipse => 1316108115int,
            Action::ToolArrow => 1116097111int,
            Action::ToolCrop => 1016045111int,
            Action::FrameDelete => 1302100116int,
            Action::FrameDuplicate => 1602117116int,
            Action::FrameCut => 1002101117int,
            Action::FrameCopy => 1102045112int,
            Action::FramePaste => 1202045116int,
            Action::FrameReverse => 1402114115int,
            Action::ZoomToSelection => 1822115111int,
            Action::StripZoomIn => 1415122105int,
            Action::StripZoomOut => 1515111117int,
            Action::StripZoomReset => 1715111101int,
        },
{
    match a {
        Action::Open => reveal_strlit("open"),
        Action::Export => reveal_strlit("export"),
        Action::Undo => reveal_strlit("undo"),
        Action::Redo => reveal_strlit("redo"),
        Action::PlayPause => reveal_strlit("play-pause"),
        Action::SelectAll => reveal_strlit("select-all"),
        Action::Delete => reveal_strlit("delete"),
        Action::ShowShortcuts => reveal_strlit("show-shortcuts"),
        Action::ToolText => reveal_strlit("tool-text"),
        Action::ToolRect => reveal_strlit("tool-rectangle"),
        Action::ToolEllipse => reveal_strlit("tool-ellipse"),
        Action::ToolArrow => reveal_strlit("tool-arrow"),
        Action::ToolCrop => reveal_strlit("tool-crop"),
        Action::FrameDelete => reveal_strlit("frame-delete"),
        Action::FrameDuplicate => reveal_strlit("frame-duplicate"),
        Action::FrameCut => reveal_strlit("frame-cut"),
        Action::FrameCopy => reveal_strlit("frame-copy"),
        Action::FramePaste => reveal_strlit("frame-paste"),
        Action::FrameReverse => reveal_strlit("frame-reverse"),
        Action::ZoomToSelection => reveal_strlit("zoom-to-selection"),
        Action::StripZoomIn => reveal_strlit("strip-zoom-in"),
        Action::StripZoomOut => reveal_strlit("strip-zoom-out"),
        Action::StripZoomReset => reveal_strlit("strip-zoom-reset"),
    }
}

proof fn lemma_modal_fingerprint(m: Modal)
    ensures
        fingerprint(m.id_text()) == match m {
            Modal::Rotate => 1399045116int,
            Modal::KeepAspect => 1899101099int,
            Modal::FromCenter => 1899111101int,
        },
{
    match m {
        Modal::Rotate => reveal_strlit("canvas-rotate"),
        Modal::KeepAspect => reveal_strlit("canvas-keep-aspect"),
        Modal::FromCenter => reveal_strlit("canvas-from-center"),
    }
}

/// No two actions have the same key, and none has a modifier's.
pub proof fn lemma_ids_differ(a: Action, b: Action, m: Modal)
    ensures
        a != b ==> a.id_text() != b.id_text(),
        a.id_text() != m.id_text(),
{
    lemma_action_fingerprint(a);
    lemma_action_fingerprint(b);
    lemma_modal_fingerprint(m);
}

/// No two modifiers have the same key.
pub proof fn lemma_modal_ids_differ(a: Modal, b: Modal)
    ensures
        a != b ==> a.id_text() != b.id_text(),
{
    lemma_modal_fingerprint(a);
    lemma_modal_fingerprint(b);
}

/// The places of the list are the actions' ranks.
pub proof fn lemma_action_at(i: int)
    requires
        0 <= i < ACTION_COUNT,
    ensures
        action_at(i).rank() == i,
{
}

pub proof fn lemma_action_rank(a: Action)
    ensures
        0 <= a.rank() < ACTION_COUNT,
        action_at(a.rank()) == a,
{
}

pub proof fn lemma_modal_rank(m: Modal)
    ensures
        0 <= m.rank() < MODAL_COUNT,
        modal_at(m.rank()) == m,
{
}

/// An action is found by its key, and a modifier by its own.
pub proof fn law_ids_name_their_actions(a: Action, m: Modal)
    ensures
        Action::named_from(a.id_text(), 0) == Some(a),
        Modal::named_from(a.id_text(), 0) is None,
        Modal::named_from(m.id_text(), 0) == Some(m),
{
    lemma_action_rank(a);
    lemma_modal_rank(m);
    lemma_named_from(a, 0);
    lemma_no_modal_named(a, 0);
    lemma_modal_named_from(m, 0);
}

proof fn lemma_named_from(a: Action, i: int)
    requires
        0 <= i <= a.rank(),
    ensures
        Action::named_from(a.id_text(), i) == Some(a),
    decreases a.rank() - i,
{
    lemma_action_rank(a);
    lemma_ids_differ(a, action_at(i), Modal::Rotate);
    lemma_action_at(i);
    if i < a.rank() {
        lemma_named_from(a, i + 1);
    }
}

proof fn lemma_no_modal_named(a: Action, i: int)
    requires
        0 <= i <= MODAL_COUNT,
    ensures
        Modal::named_from(a.id_text(), i) is None,
    decreases MODAL_COUNT - i,
{
    if i < MODAL_COUNT {
        lemma_ids_differ(a, a, modal_at(i));
        lemma_no_modal_named(a, i + 1);
    }
}

proof fn lemma_modal_named_from(m: Modal, i: int)
    requires
        0 <= i <= m.rank(),
    ensures
        Modal::named_from(m.id_text(), i) == Some(m),
    decreases m.rank() - i,
{
    lemma_modal_rank(m);
    lemma_modal_ids_differ(m, modal_at(i));
    if i < m.rank() {
        lemma_modal_named_from(m, i + 1);
    }
}

} // verus!
