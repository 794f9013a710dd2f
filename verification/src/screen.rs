//! What the window shows of its state: which controls answer, which rows and
//! bands there are, what is marked.

use std::ops::Range;

use vstd::prelude::*;

use crate::actions::Action;
use crate::app::{layers, stack_of, App, AppView};
use crate::document::{lemma_find_id, painting, Document};
use crate::i18n::{filled, lookup, t, translated, Catalog};
use crate::model::{Overlay, OverlayId, OverlayKind, Transform};
use crate::msg::{ScopeChoice, Tool};
use crate::scope::picks;
use crate::selection::{lies_in, pack_rows, packed, rows_used, used_rows};
use crate::text::decimal;
use crate::update::lemma_painting_places;
use crate::wording::{
    counted, counted_text, fill_one, frame_scope_summary, number_text, scope_summary,
};
use crate::work::BusyKind;

verus! {

/// How many overlay rows the band area shows before it starts scrolling.
pub const BANDS_COLLAPSED_ROWS: usize = 5;

/// How many layers the sidebar's list shows before it starts scrolling, and
/// how few it keeps showing when the panel runs out of room. Past the first
/// the editor for the layer that is picked would be off the panel; below the
/// second the list is too small to pick anything out of, and the panel
/// around it scrolls instead.
pub const LAYER_ROWS_SHOWN: usize = 6;

pub const LAYER_ROWS_KEPT: usize = 3;

/// Which controls answer, and which parts of the window are there.
#[derive(Clone, Copy, PartialEq, Eq, Debug, Structural)]
pub struct Controls {
    /// No document: the welcome page.
    pub empty: bool,
    /// The progress bar, and the X beside it: a resize or zoom cannot be
    /// stopped part-way.
    pub bar: bool,
    pub cancel: bool,
    /// Undo and redo would reorder frames, which has to wait — greyed instead
    /// of leaving clicks that do nothing.
    pub undo: bool,
    pub redo: bool,
    pub open: bool,
    pub export: bool,
    /// The frame and image operations.
    pub frames: bool,
    /// The operations on the drawn crop box.
    pub crop: bool,
    /// The sidebar.
    pub properties: bool,
    /// The overlay tools.
    pub tools: bool,
    pub delay: bool,
    pub playing: bool,
    /// The scope button that is down: this frame, all frames, the range.
    pub scope: usize,
    /// Range only exists while there is a selection to bind it to.
    pub range: bool,
}

/// One row of the strip's band area.
#[derive(Debug)]
pub struct Band {
    pub id: OverlayId,
    pub name: String,
    pub range: Range<usize>,
    pub selected: bool,
    /// Packed row, not the overlay's index.
    pub row: usize,
}

/// What a band holds.
pub struct BandView {
    pub id: OverlayId,
    pub name: Seq<char>,
    pub range: Range<usize>,
    pub selected: bool,
    pub row: usize,
}

impl View for Band {
    type V = BandView;

    open spec fn view(&self) -> BandView {
        BandView {
            id: self.id,
            name: self.name@,
            range: self.range,
            selected: self.selected,
            row: self.row,
        }
    }
}

/// The band of an overlay.
pub open spec fn band_of(o: Overlay, selected: Option<OverlayId>, row: usize) -> BandView {
    BandView { id: o.id, name: o.name@, range: o.range, selected: selected == Some(o.id), row }
}

/// How the band area is laid out: the rows the bands take, those that show, and
/// those behind the expander.
#[derive(Clone, Copy, PartialEq, Eq, Debug, Structural)]
pub struct BandRows {
    pub used: usize,
    pub shown: usize,
    pub hidden: usize,
}

/// A row of the sidebar's layer list.
#[derive(Debug)]
pub struct LayerRow {
    pub id: OverlayId,
    pub name: String,
    /// Whether there is a layer above it to go past, and one below.
    pub can_raise: bool,
    pub can_lower: bool,
}

/// Which groups of the sidebar show.
#[derive(Clone, Copy, PartialEq, Eq, Debug, Structural)]
pub struct Panel {
    /// More than one frame is in scope: which overlay to show or edit has no
    /// single answer then.
    pub multi: bool,
    pub layers: bool,
    pub text_group: bool,
    pub overlay: bool,
    pub text_rows: bool,
    pub shape_rows: bool,
    pub crop: bool,
}

/// How a thumbnail of the strip is marked.
#[derive(Clone, Copy, PartialEq, Eq, Debug, Structural)]
pub struct ThumbMarks {
    pub playhead: bool,
    pub in_scope: bool,
    pub selected: bool,
}

impl AppView {
    pub open spec fn controls(self, crop_drawn: bool) -> Controls {
        let idle = self.busy is None;
        let importing = self.busy is Some && self.busy->Some_0.kind == BusyKind::Import;
        Controls {
            empty: self.count() == 0,
            bar: !idle,
            cancel: importing,
            undo: idle && self.editor.past.len() > 0,
            redo: idle && self.editor.future.len() > 0,
            open: idle,
            export: idle && self.count() > 0,
            frames: idle && self.count() > 0,
            crop: idle && crop_drawn,
            properties: !importing,
            tools: !importing && self.count() > 0,
            delay: idle && self.count() > 0,
            playing: self.playing,
            scope: match self.scope {
                ScopeChoice::ThisFrame => 0,
                ScopeChoice::AllFrames => 1,
                ScopeChoice::Range => 2,
            },
            range: self.selection.len() > 0,
        }
    }

    /// The overlay being edited, where there is one.
    pub open spec fn edited_kind(self) -> Option<OverlayKind> {
        match self.editing() {
            Some(id) => match self.overlay(id) {
                Some(o) => Some(o.kind),
                None => None,
            },
            None => None,
        }
    }

    pub open spec fn panel(self) -> Panel {
        let multi = self.scope_frames().len() > 1;
        let kind = self.edited_kind();
        Panel {
            multi,
            layers: !multi && !self.crop_tool && layers(
                self.doc().overlays,
                self.playhead as int,
            ).len() > 0,
            text_group: !multi,
            overlay: kind is Some && !multi,
            text_rows: kind is Some && kind->Some_0 is Text,
            shape_rows: kind is Some && kind->Some_0 is Shape,
            crop: self.crop_tool,
        }
    }

    pub open spec fn marks(self, i: int) -> ThumbMarks {
        ThumbMarks {
            playhead: i == self.playhead,
            in_scope: picks(self.scope_frames(), i) && i != self.playhead,
            selected: picks(self.selection, i),
        }
    }
}

/// Whether frame `i` is in the list.
fn holds(list: &Vec<usize>, i: usize) -> (r: bool)
    ensures
        r == picks(list@, i as int),
{
    let mut k: usize = 0;
    while k < list.len()
        invariant
            k <= list@.len(),
            forall|j: int| 0 <= j < k ==> #[trigger] list@[j] != i,
        decreases list@.len() - k,
    {
        if list[k] == i {
            assert(list@[k as int] == i);
            return true;
        }
        k = k + 1;
    }
    false
}

impl App {
    /// Which controls answer. `crop_drawn` says whether a crop box large enough
    /// to act on is drawn.
    pub fn controls(&self, crop_drawn: bool) -> (r: Controls)
        ensures
            r == self@.controls(crop_drawn),
    {
        let count = self.frame_count();
        let idle = self.busy.is_none();
        let importing = match self.busy {
            Some(busy) => busy.kind == BusyKind::Import,
            None => false,
        };
        Controls {
            empty: count == 0,
            bar: !idle,
            cancel: importing,
            undo: idle && self.editor.can_undo(),
            redo: idle && self.editor.can_redo(),
            open: idle,
            export: idle && count > 0,
            frames: idle && count > 0,
            crop: idle && crop_drawn,
            properties: !importing,
            tools: !importing && count > 0,
            delay: idle && count > 0,
            playing: self.playing,
            scope: match self.scope {
                ScopeChoice::ThisFrame => 0,
                ScopeChoice::AllFrames => 1,
                ScopeChoice::Range => 2,
            },
            range: self.selection.len() > 0,
        }
    }

    /// Which groups of the sidebar show.
    pub fn panel(&self) -> (r: Panel)
        ensures
            r == self@.panel(),
    {
        let multi = self.scope_frames().len() > 1;
        let stacked = self.stacked_overlays();
        assert(stack_of(stacked@).len() == stacked@.len());
        let (mut some, mut is_text, mut is_shape) = (false, false, false);
        match self.editing_overlay() {
            Some(id) => match self.editor.doc.overlay(id) {
                Some(o) => {
                    some = true;
                    match o.kind {
                        OverlayKind::Text(_) => {
                            is_text = true;
                        },
                        OverlayKind::Shape(_) => {
                            is_shape = true;
                        },
                        OverlayKind::Image(_) => {},
                    }
                },
                None => {},
            },
            None => {},
        }
        Panel {
            multi,
            layers: !multi && !self.crop_tool && stacked.len() > 0,
            text_group: !multi,
            overlay: some && !multi,
            text_rows: is_text,
            shape_rows: is_shape,
            crop: self.crop_tool,
        }
    }

    /// How each thumbnail of the strip is marked.
    pub fn thumb_marks(&self) -> (r: Vec<ThumbMarks>)
        ensures
            r@ == Seq::new(self@.count(), |i: int| self@.marks(i)),
    {
        let in_scope = self.scope_frames();
        let mut r: Vec<ThumbMarks> = Vec::new();
        let mut i: usize = 0;
        while i < self.frame_count()
            invariant
                i <= self@.count(),
                in_scope@ == self@.scope_frames(),
                r@ == Seq::new(i as nat, |i: int| self@.marks(i)),
            decreases self@.count() - i,
        {
            r.push(
                ThumbMarks {
                    playhead: i == self.playhead,
                    in_scope: holds(&in_scope, i) && i != self.playhead,
                    selected: holds(&self.selection, i),
                },
            );
            i = i + 1;
            assert(r@ =~= Seq::new(i as nat, |i: int| self@.marks(i)));
        }
        r
    }

    /// The bands of the overlays, packed into rows, and how many rows that is.
    pub fn bands(&self) -> (r: (Vec<Band>, BandRows))
        ensures
            r.0@.len() == self@.doc().overlays.len(),
            exists|rows: Seq<usize>|
                #![trigger rows_used(rows)]
                {
                    &&& packed(
                        Seq::new(rows.len(), |i: int| self@.doc().overlays[i].range),
                        rows,
                    )
                    &&& rows.len() == r.0@.len()
                    &&& forall|i: int|
                        0 <= i < rows.len() ==> (#[trigger] r.0@[i])@ == band_of(
                            self@.doc().overlays[i],
                            self@.selected_overlay,
                            rows[i],
                        )
                    &&& r.1.used == rows_used(rows)
                },
            r.1.hidden == if r.1.used > BANDS_COLLAPSED_ROWS {
                r.1.used - BANDS_COLLAPSED_ROWS
            } else {
                0
            },
            r.1.shown == if self@.bands_expanded {
                r.1.used as int
            } else {
                r.1.used - r.1.hidden
            },
    {
        let overlays = &self.editor.doc.overlays;
        let mut ranges: Vec<Range<usize>> = Vec::new();
        let mut i: usize = 0;
        while i < overlays.len()
            invariant
                i <= overlays@.len(),
                ranges@ == Seq::new(i as nat, |k: int| overlays@[k].range),
            decreases overlays@.len() - i,
        {
            ranges.push(overlays[i].range.start..overlays[i].range.end);
            i = i + 1;
            assert(ranges@ =~= Seq::new(i as nat, |k: int| overlays@[k].range));
        }
        let rows = pack_rows(&ranges);
        let used = used_rows(&rows);
        let mut bands: Vec<Band> = Vec::new();
        let mut j: usize = 0;
        while j < overlays.len()
            invariant
                j <= overlays@.len(),
                overlays == &self.editor.doc.overlays,
                rows@.len() == overlays@.len(),
                bands@.len() == j,
                forall|i: int|
                    0 <= i < j ==> (#[trigger] bands@[i])@ == band_of(
                        overlays@[i],
                        self.selected_overlay,
                        rows@[i],
                    ),
            decreases overlays@.len() - j,
        {
            let o = &overlays[j];
            let selected = match self.selected_overlay {
                Some(id) => id == o.id,
                None => false,
            };
            bands.push(
                Band {
                    id: o.id,
                    name: o.name.clone(),
                    range: o.range.start..o.range.end,
                    selected,
                    row: rows[j],
                },
            );
            j = j + 1;
        }
        let hidden: usize = if used > BANDS_COLLAPSED_ROWS {
            used - BANDS_COLLAPSED_ROWS
        } else {
            0
        };
        let shown: usize = if self.bands_expanded {
            used
        } else {
            used - hidden
        };
        assert(ranges@ =~= Seq::new(
            rows@.len(),
            |i: int| self@.doc().overlays[i].range,
        ));
        assert(rows_used(rows@) == used);
        (bands, BandRows { used, shown, hidden })
    }

    /// The rows of the layer list, topmost first, and which of them is picked.
    pub fn layer_rows(&self) -> (r: (Vec<LayerRow>, Option<usize>))
        ensures
            r.0@.len() == layers(self@.doc().overlays, self@.playhead as int).len(),
            forall|i: int|
                0 <= i < r.0@.len() ==> {
                    let row = #[trigger] r.0@[i];
                    &&& (row.id, row.name@) == layers(
                        self@.doc().overlays,
                        self@.playhead as int,
                    )[i]
                    &&& row.can_raise == (i > 0)
                    &&& row.can_lower == (i < r.0@.len() - 1)
                },
            match r.1 {
                Some(at) => at < r.0@.len() && self@.selected_overlay == Some(r.0@[at as int].id),
                None => forall|i: int|
                    0 <= i < r.0@.len() ==> self@.selected_overlay != Some(
                        (#[trigger] r.0@[i]).id,
                    ),
            },
    {
        let stacked = self.stacked_overlays();
        let ghost want = layers(self@.doc().overlays, self@.playhead as int);
        assert(stack_of(stacked@).len() == stacked@.len());
        let mut rows: Vec<LayerRow> = Vec::new();
        let mut picked: Option<usize> = None;
        let mut i: usize = 0;
        while i < stacked.len()
            invariant
                i <= stacked@.len(),
                stack_of(stacked@) == want,
                stacked@.len() == want.len(),
                rows@.len() == i,
                forall|k: int|
                    0 <= k < i ==> {
                        let row = #[trigger] rows@[k];
                        &&& (row.id, row.name@) == want[k]
                        &&& row.can_raise == (k > 0)
                        &&& row.can_lower == (k < stacked@.len() - 1)
                    },
                match picked {
                    Some(at) => at < i && self.selected_overlay == Some(rows@[at as int].id),
                    None => forall|k: int|
                        0 <= k < i ==> self.selected_overlay != Some((#[trigger] rows@[k]).id),
                },
            decreases stacked@.len() - i,
        {
            let id = stacked[i].0;
            let name = stacked[i].1.clone();
            assert(stack_of(stacked@)[i as int] == (id, name@));
            let is_picked = match self.selected_overlay {
                Some(sel) => sel == id,
                None => false,
            };
            rows.push(
                LayerRow { id, name, can_raise: i > 0, can_lower: i < stacked.len() - 1 },
            );
            if picked.is_none() && is_picked {
                picked = Some(i);
            }
            i = i + 1;
        }
        (rows, picked)
    }

    /// The box of the selected overlay, while it paints on the frame on screen
    /// and the crop tool is off.
    pub fn boxed(&self) -> (r: Option<Transform>)
        ensures
            r == match self@.grabbable() {
                Some(o) if !self@.crop_tool && self@.editing() is Some => Some(o.transform),
                _ => None,
            },
    {
        if self.crop_tool {
            return None;
        }
        match self.editing_overlay() {
            Some(id) => {
                proof {
                    lemma_find_id(self@.doc().overlays, id, 0);
                }
                match self.editor.doc.overlay(id) {
                    Some(o) => if !o.hidden && o.range.start <= self.playhead && self.playhead
                        < o.range.end {
                        Some(o.transform)
                    } else {
                        None
                    },
                    None => None,
                }
            },
            None => None,
        }
    }

    /// The boxes of the overlays painted on the frame on screen, so hovering
    /// one can promise a drag before it is the selected one. None while the
    /// crop tool is armed.
    pub fn movable(&self) -> (r: Vec<Transform>)
        ensures
            r@ == if self@.crop_tool {
                seq![]
            } else {
                let places = painting(self@.doc().overlays, self@.playhead as int);
                Seq::new(
                    places.len(),
                    |k: int| self@.doc().overlays[places[k] as int].transform,
                )
            },
    {
        let mut r: Vec<Transform> = Vec::new();
        if self.crop_tool {
            assert(r@ =~= seq![]);
            return r;
        }
        let overlays = &self.editor.doc.overlays;
        assert(overlays.len() == self@.doc().overlays.len());
        let places = self.editor.doc.overlays_on(self.playhead);
        proof {
            lemma_painting_places(overlays@, self.playhead as int);
        }
        let mut k: usize = 0;
        while k < places.len()
            invariant
                k <= places@.len(),
                forall|k: int| 0 <= k < places@.len() ==> #[trigger] places@[k] < overlays@.len(),
                r@ == Seq::new(k as nat, |k: int| overlays@[places@[k] as int].transform),
            decreases places@.len() - k,
        {
            r.push(overlays[places[k]].transform);
            k = k + 1;
            assert(r@ =~= Seq::new(k as nat, |k: int| overlays@[places@[k] as int].transform));
        }
        r
    }

    /// The heading of the frame view.
    pub fn frame_heading(&self, catalog: &Catalog) -> (r: String)
        requires
            catalog.wf(),
        ensures
            r@ == scope_summary(catalog@, self@.scope, self@.scope_frames()),
    {
        let in_scope = self.scope_frames();
        assert(self.editor.doc.frames.len() == self@.count());
        frame_scope_summary(catalog, self.scope, &in_scope)
    }

    /// What stands under the delay field: how many frames a change of it
    /// reaches, where that is more than one.
    pub fn delay_subtitle(&self, catalog: &Catalog) -> (r: String)
        requires
            catalog.wf(),
        ensures
            r@ == if self@.scope_frames().len() > 1 {
                counted_text(
                    catalog@,
                    "Applies to {count} selected frame"@,
                    "Applies to {count} selected frames"@,
                    self@.scope_frames().len(),
                )
            } else {
                seq![]
            },
    {
        let n = self.scope_frames().len();
        if n > 1 {
            counted(
                catalog,
                "Applies to {count} selected frame",
                "Applies to {count} selected frames",
                n,
            )
        } else {
            String::new()
        }
    }

    /// The tooltips of the undo and redo buttons: they name the edit, and the
    /// key, so a rebind moves them.
    pub fn history_tips(&self, catalog: &Catalog) -> (r: (String, String))
        requires
            catalog.wf(),
            self@.keymap@.wf(),
        ensures
            r.0@ == tip_text(
                self@.keymap@,
                if self@.editor.past.len() > 0 {
                    filled(
                        translated(catalog@, "Undo {change}"@),
                        seq![
                            (
                                "change"@,
                                translated(catalog@, self@.editor.past.last().change.label),
                            ),
                        ],
                    )
                } else {
                    translated(catalog@, "Undo"@)
                },
                Action::Undo,
            ),
            r.1@ == tip_text(
                self@.keymap@,
                if self@.editor.future.len() > 0 {
                    filled(
                        translated(catalog@, "Redo {change}"@),
                        seq![
                            (
                                "change"@,
                                translated(catalog@, self@.editor.future.last().change.label),
                            ),
                        ],
                    )
                } else {
                    translated(catalog@, "Redo"@)
                },
                Action::Redo,
            ),
    {
        let undo = match self.editor.undo_label() {
            Some(label) => fill_one(
                catalog,
                "Undo {change}",
                "change",
                lookup(catalog, label).as_str(),
            ),
            None => t(catalog, "Undo"),
        };
        let redo = match self.editor.redo_label() {
            Some(label) => fill_one(
                catalog,
                "Redo {change}",
                "change",
                lookup(catalog, label).as_str(),
            ),
            None => t(catalog, "Redo"),
        };
        (
            self.keymap.tip(undo.as_str(), Action::Undo),
            self.keymap.tip(redo.as_str(), Action::Redo),
        )
    }

    /// The tooltip of a tool.
    pub fn tool_tip(&self, catalog: &Catalog, tool: Tool) -> (r: String)
        requires
            catalog.wf(),
            self@.keymap@.wf(),
        ensures
            r@ == tip_text(
                self@.keymap@,
                translated(catalog@, tool.title()),
                match tool {
                    Tool::Text => Action::ToolText,
                    Tool::Rect => Action::ToolRect,
                    Tool::Ellipse => Action::ToolEllipse,
                    Tool::Arrow => Action::ToolArrow,
                },
            ),
    {
        self.keymap.tip(t(catalog, tool.label()).as_str(), tool.action())
    }
}

/// A text with the first key of the action behind it, where it has one.
pub open spec fn tip_text(keys: crate::keymap::KeymapView, text: Seq<char>, action: Action) -> Seq<
    char,
> {
    if keys.chords_of(action).len() > 0 {
        text + " ("@ + keys.chords_of(action)[0].shown() + ")"@
    } else {
        text
    }
}

/// What the expander under the strip says.
pub fn expander_label(catalog: &Catalog, expanded: bool, rows: BandRows) -> (r: String)
    requires
        catalog.wf(),
    ensures
        r@ == if expanded {
            filled(
                translated(catalog@, "▾ {count} overlay rows"@),
                seq![("count"@, decimal(rows.used as nat))],
            )
        } else {
            counted_text(
                catalog@,
                "▸ {count} more overlay row"@,
                "▸ {count} more overlay rows"@,
                rows.hidden as nat,
            )
        },
{
    if expanded {
        let used = number_text(rows.used as u64);
        fill_one(catalog, "▾ {count} overlay rows", "count", used.as_str())
    } else {
        counted(
            catalog,
            "▸ {count} more overlay row",
            "▸ {count} more overlay rows",
            rows.hidden,
        )
    }
}

/// The first band in `row` that lies on `frame`, from `k` on, or the number of
/// bands.
pub open spec fn band_on(bands: Seq<Band>, row: usize, frame: int, k: int) -> int
    decreases bands.len() - k,
{
    if k < 0 || k >= bands.len() {
        bands.len() as int
    } else if bands[k].row == row && lies_in(bands[k].range, frame) {
        k
    } else {
        band_on(bands, row, frame, k + 1)
    }
}

/// The overlay whose packed row and frame span contain the click. `bands` is
/// not one entry per visual row — the packing puts non-overlapping overlays
/// side by side on the same row — so this searches rather than indexing.
pub fn band_at(bands: &Vec<Band>, row: usize, frame: usize) -> (r: Option<OverlayId>)
    ensures
        ({
            let k = band_on(bands@, row, frame as int, 0);
            r == if k < bands@.len() {
                Some(bands@[k].id)
            } else {
                None
            }
        }),
{
    let mut k: usize = 0;
    while k < bands.len()
        invariant
            k <= bands@.len(),
            band_on(bands@, row, frame as int, 0) == band_on(bands@, row, frame as int, k as int),
        decreases bands@.len() - k,
    {
        let band = &bands[k];
        if band.row == row && band.range.start <= frame && frame < band.range.end {
            return Some(band.id);
        }
        k = k + 1;
    }
    None
}

/// What the strip is showing. Only a change here is worth a rebuild: overlay
/// edits move the document revision too, and there are hundreds of thumbnails.
pub fn strip_keys(doc: &Document) -> (r: Vec<(u64, bool)>)
    ensures
        r@ == Seq::new(
            doc@.frames.len(),
            |i: int| (doc@.frames[i].key, doc@.frames[i].detached),
        ),
{
    let mut r: Vec<(u64, bool)> = Vec::new();
    let mut i: usize = 0;
    while i < doc.frames.len()
        invariant
            i <= doc.frames@.len(),
            r@ == Seq::new(
                i as nat,
                |i: int| (doc@.frames[i].key, doc@.frames[i].detached),
            ),
        decreases doc.frames@.len() - i,
    {
        r.push((doc.frames[i].key, doc.frames[i].detached));
        i = i + 1;
        assert(r@ =~= Seq::new(
            i as nat,
            |i: int| (doc@.frames[i].key, doc@.frames[i].detached),
        ));
    }
    r
}

/// Where the drag-drop divider of thumbnail `i` of `count` shows for a drop at
/// `gap`: not at all, on its left edge, or — for the gap past the last frame,
/// which has no cell after it — on the right edge of the last one.
#[derive(Clone, Copy, PartialEq, Eq, Debug, Structural)]
pub enum Divider {
    Hidden,
    Before,
    After,
}

pub fn divider(i: usize, count: usize, gap: Option<usize>) -> (r: Divider)
    requires
        i < count,
    ensures
        r == match gap {
            Some(g) => if g == i {
                Divider::Before
            } else if g == count && i + 1 == count {
                Divider::After
            } else {
                Divider::Hidden
            },
            None => Divider::Hidden,
        },
{
    match gap {
        Some(g) => if g == i {
            Divider::Before
        } else if g == count && i + 1 == count {
            Divider::After
        } else {
            Divider::Hidden
        },
        None => Divider::Hidden,
    }
}

/// Every drop in the strip shows at one thumbnail, and only there.
pub proof fn law_one_divider_shows(count: int, gap: int)
    requires
        0 < count,
        0 <= gap <= count,
    ensures
        exists|i: int| 0 <= i < count && #[trigger] shows_divider(i, count, gap),
        forall|i: int, j: int|
            0 <= i < count && 0 <= j < count && #[trigger] shows_divider(i, count, gap)
                && #[trigger] shows_divider(j, count, gap) ==> i == j,
{
    let at = if gap < count {
        gap
    } else {
        count - 1
    };
    assert(shows_divider(at, count, gap));
}

/// Whether thumbnail `i` shows the divider of a drop at `gap`.
pub open spec fn shows_divider(i: int, count: int, gap: int) -> bool {
    gap == i || (gap == count && i + 1 == count)
}

/// The heights to hold the layer list between: `LAYER_ROWS_KEPT` rows it
/// never shrinks below and `LAYER_ROWS_SHOWN` it never grows past, in units
/// of its own rows — measured rather than assumed. Nothing while the list is
/// empty, which is also when the group is hidden.
pub fn layer_list_heights(row_h: Option<i32>, rows: usize) -> (r: (i32, i32))
    requires
        row_h matches Some(h) ==> 0 <= h && h * 6 <= i32::MAX,
    ensures
        r == match row_h {
            Some(h) => (
                (h * if rows < LAYER_ROWS_KEPT {
                    rows as int
                } else {
                    LAYER_ROWS_KEPT as int
                }) as i32,
                (h * LAYER_ROWS_SHOWN) as i32,
            ),
            None => (0i32, 0i32),
        },
        r.0 <= r.1,
{
    match row_h {
        Some(h) => {
            let kept: i32 = if rows < LAYER_ROWS_KEPT {
                rows as i32
            } else {
                3
            };
            assert(0 <= h * kept <= h * 6) by (nonlinear_arith)
                requires
                    0 <= h,
                    0 <= kept <= 3,
            ;
            (h * kept, h * 6)
        },
        None => (0, 0),
    }
}

/// Whether the ceiling of the layer list has to be set before its floor. GTK
/// checks each half against the other as it is set and drops the write that
/// would cross it, so raising the floor past the standing ceiling has to raise
/// the ceiling first.
pub fn ceiling_first(keep: i32, standing_ceiling: i32) -> (r: bool)
    ensures
        r == (keep > standing_ceiling),
{
    keep > standing_ceiling
}

/// The floor and ceiling of a list after its floor is set: a floor above the
/// ceiling is dropped.
pub open spec fn floor_set(bounds: (int, int), floor: int) -> (int, int) {
    if floor <= bounds.1 {
        (floor, bounds.1)
    } else {
        bounds
    }
}

/// The floor and ceiling of a list after its ceiling is set: a ceiling below
/// the floor is dropped.
pub open spec fn ceiling_set(bounds: (int, int), ceiling: int) -> (int, int) {
    if bounds.0 <= ceiling {
        (bounds.0, ceiling)
    } else {
        bounds
    }
}

/// Set in the order `ceiling_first` says, neither write is dropped.
pub proof fn law_both_heights_land(keep: int, cap: int, bounds: (int, int))
    requires
        keep <= cap,
        bounds.0 <= bounds.1,
    ensures
        if keep > bounds.1 {
            floor_set(ceiling_set(bounds, cap), keep) == (keep, cap)
        } else {
            ceiling_set(floor_set(bounds, keep), cap) == (keep, cap)
        },
{
}

/// Cursor of each eighth of a turn, from the right clockwise.
pub open spec fn cursor_name(octant: int) -> Seq<char> {
    if octant == 0 {
        "e-resize"@
    } else if octant == 1 {
        "se-resize"@
    } else if octant == 2 {
        "s-resize"@
    } else if octant == 3 {
        "sw-resize"@
    } else if octant == 4 {
        "w-resize"@
    } else if octant == 5 {
        "nw-resize"@
    } else if octant == 6 {
        "n-resize"@
    } else {
        "ne-resize"@
    }
}

/// The eighth of a turn a corner of an upright box points to, in TL, TR, BL,
/// BR order.
pub open spec fn corner_octant(corner: int) -> int {
    if corner % 4 == 0 {
        5
    } else if corner % 4 == 1 {
        7
    } else if corner % 4 == 2 {
        3
    } else {
        1
    }
}

pub fn octant_of(corner: usize) -> (r: i32)
    ensures
        r == corner_octant(corner as int),
{
    match corner % 4 {
        0 => 5,
        1 => 7,
        2 => 3,
        _ => 1,
    }
}

/// Cursor glyph for a corner of a box that is turned: `quarters` is how many
/// quarter turns, rounded, the corner's diagonal has gone from the first of
/// its family. The glyph snaps within that family, so the arrow keeps
/// pointing along the rotated edge.
pub fn corner_cursor(corner: usize, quarters: i32) -> (r: &'static str)
    ensures
        r@ == cursor_name((corner_octant(corner as int) % 2 + 2 * quarters) % 8),
{
    let parity: i64 = (octant_of(corner) % 2) as i64;
    let turned: i64 = parity + 2 * (quarters as i64);
    let mut octant: i64 = turned % 8;
    if octant < 0 {
        octant = octant + 8;
    }
    match octant {
        0 => "e-resize",
        1 => "se-resize",
        2 => "s-resize",
        3 => "sw-resize",
        4 => "w-resize",
        5 => "nw-resize",
        6 => "n-resize",
        _ => "ne-resize",
    }
}

/// What the pointer turns into over the canvas.
#[derive(Clone, Copy, PartialEq, Eq, Debug, Structural)]
pub enum Hover {
    Rotate,
    Grip(usize),
    Move,
    Plain,
}

/// What the pointer turns into: over a grip of the selected box, with the
/// rotate modifier down, over any box, or over none.
pub fn hover(selected: bool, grip: Option<usize>, rotating: bool, over_any: bool) -> (r: Hover)
    ensures
        r == if rotating && selected {
            Hover::Rotate
        } else if selected && grip is Some {
            Hover::Grip(grip->Some_0)
        } else if over_any {
            Hover::Move
        } else {
            Hover::Plain
        },
{
    if rotating && selected {
        return Hover::Rotate;
    }
    match grip {
        Some(corner) if selected => Hover::Grip(corner),
        _ => if over_any {
            Hover::Move
        } else {
            Hover::Plain
        },
    }
}

} // verus!
