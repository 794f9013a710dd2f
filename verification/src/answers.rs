//! What each message does to the window's state, and what it has the window
//! do.

use std::ops::Range;

use vstd::prelude::*;

use crate::actions::Modal;
use crate::app::{
    is_held, last_at_most, toast_for, top_hit, Aid, AppView, Busy, Drag, DragMode, EffectView,
};
use crate::canvas::Rect;
use crate::chord::Mods;
use crate::document::{find_id, painting, DocView};
use crate::group::runs;
use crate::model::{Overlay, OverlayId, OverlayKind, Shape, TextAlign, Transform};
use crate::motion::{low_motion, scores};
use crate::msg::{Msg, OverlayProp, ScopeChoice, Tool};
use crate::scope::{ascending, picks};
use crate::selection::{count_below, nudge_gap, run};
use crate::single::{Single, ONE_BITS, TWO_BITS, ZERO_BITS};
use crate::work::{can_join, image_frame, BusyKind, WorkView};

verus! {

/// The width a new shape's line has: three.
pub const SHAPE_LINE_BITS: u32 = 0x4040_0000;

/// Whether `o` is the overlay a tool makes, but for its id and its frames.
pub open spec fn made_by(tool: Tool, spot: Transform, size_px: Single, o: Overlay) -> bool {
    &&& o.id == OverlayId(0)
    &&& o.name@ == tool.title()
    &&& o.range == (Range { start: 0usize, end: 0usize })
    &&& o.transform == spot
    &&& o.opacity.bits == ONE_BITS
    &&& !o.hidden
    &&& match tool {
        Tool::Text => {
            &&& o.kind matches OverlayKind::Text(t)
            &&& t.text@ == "Text"@
            &&& t.font@ == "Sans Bold"@
            &&& t.size_px == size_px
            &&& t.color@ == seq![255u8, 255, 255, 255]
            &&& t.outline matches Some(line)
            &&& line.0@ == seq![0u8, 0, 0, 255]
            &&& line.1.bits == TWO_BITS
            &&& t.align == TextAlign::Center
            &&& t.antialias
        },
        Tool::Arrow => {
            &&& o.kind matches OverlayKind::Shape(s)
            &&& s.shape == Shape::Arrow
            &&& s.fill matches Some(color)
            &&& color@ == seq![255u8, 60, 60, 255]
            &&& s.stroke is None
        },
        _ => {
            &&& o.kind matches OverlayKind::Shape(s)
            &&& s.shape == if tool == Tool::Rect {
                Shape::Rect
            } else {
                Shape::Ellipse
            }
            &&& s.fill is None
            &&& s.stroke matches Some(line)
            &&& line.0@ == seq![255u8, 60, 60, 255]
            &&& line.1.bits == SHAPE_LINE_BITS
        },
    }
}

/// What adding a tool's overlay is called.
pub open spec fn added_label(tool: Tool) -> Seq<char> {
    match tool {
        Tool::Text => "Text added"@,
        Tool::Rect => "Rectangle added"@,
        Tool::Ellipse => "Ellipse added"@,
        Tool::Arrow => "Arrow added"@,
    }
}

/// The first of the runs, from `k` on, that `frame` lies in, or the number of
/// them.
pub open spec fn run_with(ranges: Seq<Range<usize>>, frame: int, k: int) -> int
    decreases ranges.len() - k,
{
    if k < 0 || k >= ranges.len() {
        ranges.len() as int
    } else if ranges[k].start <= frame < ranges[k].end {
        k
    } else {
        run_with(ranges, frame, k + 1)
    }
}

/// Whether frame `i` is picked once `frame` was toggled.
pub open spec fn picked_after(selection: Seq<usize>, frame: int, i: int) -> bool {
    if i == frame {
        !picks(selection, i)
    } else {
        picks(selection, i)
    }
}

/// The selection with one frame added to it, or taken out.
pub open spec fn toggled(selection: Seq<usize>, frame: int, room: nat) -> Seq<usize> {
    ascending(room, |i: int| picked_after(selection, frame, i))
}

/// At least one hundredth of a second.
pub open spec fn shown_delay(cs: u16) -> u16 {
    if cs < 1 {
        1
    } else {
        cs
    }
}

/// How many of `total` frames a thinning by `percent` takes out.
pub open spec fn thinned(total: nat, percent: usize) -> int {
    total * (if percent < 95 {
        percent as int
    } else {
        95
    }) / 100
}

impl AppView {
    /// Whether a message has to wait for the job that holds the app.
    pub open spec fn blocked(self, msg: Msg) -> bool {
        match self.busy {
            None => false,
            Some(busy) => if busy.kind == BusyKind::Import {
                msg.waits() || msg.edits()
            } else {
                msg.waits() && !(msg is DeleteSelection && self.selected_overlay is Some)
            },
        }
    }

    /// The overlay `id` points at, if there is one.
    pub open spec fn overlay(self, id: OverlayId) -> Option<Overlay> {
        let i = find_id(self.doc().overlays, id, 0);
        if i < self.doc().overlays.len() {
            Some(self.doc().overlays[i])
        } else {
            None
        }
    }

    /// With the bar up for an import.
    pub open spec fn importing(self, append: bool) -> AppView {
        AppView {
            import_append: append,
            busy: Some(Busy { kind: BusyKind::Import, done: 0, total: None }),
            ..self
        }
    }

    pub open spec fn on_load_append(self) -> (AppView, EffectView) {
        if self.count() == 0 {
            (self, EffectView::OpenInstead)
        } else {
            (self.importing(true), EffectView::PlanImport)
        }
    }

    pub open spec fn on_cancel(self) -> EffectView {
        match self.busy {
            Some(busy) if busy.kind == BusyKind::Import => EffectView::StopImport,
            _ => EffectView::Nothing,
        }
    }

    pub open spec fn on_estimate(self, rev: u64) -> EffectView {
        if rev == self.rev && self.count() > 0 {
            EffectView::Measure { rev, total: self.count() as usize }
        } else {
            EffectView::Nothing
        }
    }

    pub open spec fn on_undo(self) -> AppView {
        if self.editor.past.len() > 0 {
            AppView { editor: self.editor.undone(), ..self }.settled()
        } else {
            self
        }
    }

    pub open spec fn on_redo(self) -> AppView {
        if self.editor.future.len() > 0 {
            AppView { editor: self.editor.redone(), ..self }.settled()
        } else {
            self
        }
    }

    pub open spec fn on_copy(self) -> (AppView, EffectView) {
        let frames = self.scope_frames();
        if frames.len() == 0 {
            (self, EffectView::Nothing)
        } else {
            (self.with_copied(frames), EffectView::Copied(frames.len() as usize))
        }
    }

    pub open spec fn on_paste(self) -> (AppView, EffectView) {
        if self.clipboard.len() == 0 {
            (self, EffectView::Nothing)
        } else {
            (
                self.pasted(),
                toast_for("Frames pasted"@, self.clipboard.len() as int, self.count() as int),
            )
        }
    }

    pub open spec fn on_ask_delay(self) -> EffectView {
        if self.count() > 0 {
            EffectView::DelayAllDialog {
                count: self.count() as usize,
                delay_cs: self.doc().frames[0].delay_cs,
            }
        } else {
            EffectView::Nothing
        }
    }

    pub open spec fn on_ask_crop(self) -> EffectView {
        let (width, height) = self.doc().size();
        if width == 0 || height == 0 {
            EffectView::Nothing
        } else {
            EffectView::CropDialog { width, height }
        }
    }

    pub open spec fn on_ask_move(self, i: usize) -> EffectView {
        if i < self.count() {
            EffectView::MoveFrameDialog { index: i, count: self.count() as usize }
        } else {
            EffectView::Nothing
        }
    }

    pub open spec fn on_select_all(self) -> AppView {
        if self.count() > 0 {
            AppView { selection: seq![], scope: ScopeChoice::AllFrames, ..self }
        } else {
            self
        }
    }

    /// Show the next frame when the one on screen has had its time.
    pub open spec fn tick(self) -> EffectView {
        if self.playhead < self.count() {
            EffectView::Tick {
                ms: (shown_delay(self.doc().frames[self.playhead as int].delay_cs) * 10) as u64,
            }
        } else {
            EffectView::Nothing
        }
    }

    pub open spec fn on_toggle_play(self) -> (AppView, EffectView) {
        let after = AppView { playing: !self.playing && self.count() > 1, ..self };
        (
            after,
            if after.playing {
                after.tick()
            } else {
                EffectView::Nothing
            },
        )
    }

    pub open spec fn on_tick(self) -> (AppView, EffectView) {
        if self.playing && self.count() > 0 {
            let after = AppView {
                playhead: ((self.playhead + 1) % (self.count() as int)) as usize,
                ..self
            };
            (after, after.tick())
        } else {
            (self, EffectView::Nothing)
        }
    }

    /// A seek is navigation to one frame, which is also choosing one frame to
    /// work on: the scope follows it whatever it was.
    pub open spec fn sought(self, i: int) -> AppView {
        let playhead = last_at_most(i, self.count() as int) as usize;
        AppView {
            playhead,
            selection: seq![],
            anchor: Some(playhead),
            scope: ScopeChoice::ThisFrame,
            ..self
        }
    }

    /// Shift picks a run between the anchor and here, in either direction, and
    /// re-picks from the same anchor if it is shift-clicked again — so the
    /// anchor survives the message.
    pub open spec fn extended(self, i: int) -> AppView {
        let i = last_at_most(i, self.count() as int);
        let anchor = last_at_most(
            match self.anchor {
                Some(a) => a as int,
                None => self.playhead as int,
            },
            self.count() as int,
        );
        AppView {
            selection: run(anchor, i),
            anchor: Some(anchor as usize),
            playhead: i as usize,
            scope: ScopeChoice::Range,
            ..self
        }
    }

    /// Ctrl adds or removes one frame anywhere, which is the whole difference
    /// from Shift: the result need not be a run.
    pub open spec fn on_toggle(self, i: int) -> AppView {
        let i = last_at_most(i, self.count() as int);
        let start = if self.selection.len() == 0 {
            seq![self.playhead]
        } else {
            self.selection
        };
        let selection = toggled(start, i, self.room() as nat);
        AppView {
            selection,
            anchor: Some(i as usize),
            playhead: i as usize,
            scope: if selection.len() == 0 {
                ScopeChoice::ThisFrame
            } else {
                ScopeChoice::Range
            },
            ..self
        }
    }

    pub open spec fn on_set_scope(self, choice: ScopeChoice) -> AppView {
        if choice != ScopeChoice::Range || self.selection.len() > 0 {
            AppView { scope: choice, ..self }
        } else {
            self
        }
    }

    /// After the overlay `o` was put on the frames in scope.
    pub open spec fn overlay_added(self, tool: Tool, o: Overlay) -> (AppView, EffectView) {
        let frames = self.scope_frames();
        let ranges = runs(frames);
        let k = run_with(ranges, self.playhead as int, 0);
        let at = if k < ranges.len() {
            k
        } else {
            0
        };
        let done = self.edited(
            added_label(tool),
            frames.len() as int,
            self.doc().with_overlays(o, ranges),
        );
        (
            AppView {
                selected_overlay: Some(OverlayId((self.doc().next_id + at) as u32)),
                ..done
            }.settled(),
            toast_for(added_label(tool), frames.len() as int, self.count() as int),
        )
    }

    pub open spec fn on_select_overlay(self, id: Option<OverlayId>) -> AppView {
        let after = AppView { selected_overlay: id, ..self };
        match id {
            Some(id) => after.sought_overlay(id),
            None => after,
        }
    }

    pub open spec fn on_edit_text(self, text: String) -> AppView {
        match self.selected_overlay {
            Some(id) if self.reaches(id) => self.overlay_changed(
                "Text edited"@,
                id,
                |o: Overlay| crate::edits::with_text(o, text),
            ),
            _ => self,
        }
    }

    pub open spec fn on_set_prop(self, prop: OverlayProp, resized: bool) -> AppView {
        match self.selected_overlay {
            None => self,
            Some(id) => match self.overlay(id) {
                None => self,
                Some(o) => if !prop.makes_a_change(o.kind, resized) {
                    self
                } else {
                    let shown = self.sought_overlay(id);
                    if shown.reaches(id) {
                        shown.overlay_changed(
                            "Overlay restyled"@,
                            id,
                            |o: Overlay| Overlay { kind: prop.applied(o.kind), ..o },
                        )
                    } else {
                        shown
                    }
                },
            },
        }
    }

    pub open spec fn on_delete_selection(self) -> (AppView, EffectView) {
        match self.selected_overlay {
            Some(id) => AppView { selected_overlay: None, ..self }.overlay_deleted(id),
            None => if self.selection.len() > 0 {
                let touched = self.selection.len() as int;
                let picked = self.selection;
                let done = self.edited(
                    "Frames deleted"@,
                    touched,
                    self.doc().without(|i: int| picks(picked, i)),
                );
                (
                    AppView {
                        selection: seq![],
                        playhead: last_at_most(
                            self.playhead as int,
                            done.count() as int,
                        ) as usize,
                        scope: ScopeChoice::ThisFrame,
                        ..done
                    }.settled(),
                    toast_for("Frames deleted"@, touched, self.count() as int),
                )
            } else {
                (self, EffectView::Nothing)
            },
        }
    }

    pub open spec fn on_move_set(self, picked: Seq<usize>, gap: int) -> (AppView, EffectView) {
        let to = gap - count_below(picked, gap);
        if picked.len() == 0 || AppView::stands_at(picked, to) {
            (self, EffectView::Nothing)
        } else {
            (
                self.picked_moved(picked, to),
                toast_for("Frames moved"@, picked.len() as int, self.count() as int),
            )
        }
    }

    pub open spec fn on_nudge(self, earlier: bool) -> (AppView, EffectView) {
        let picked = self.scope_frames();
        match nudge_gap(picked, earlier, self.count() as int) {
            Some(gap) => self.on_move_set(picked, gap),
            None => (self, EffectView::Nothing),
        }
    }

    /// A drag that started on a frame inside the active selection moves the
    /// whole selection; anywhere else it is a plain one-frame drag.
    pub open spec fn on_drop(self, from: usize, gap: usize) -> (AppView, EffectView) {
        self.on_move_set(
            if self.selection.len() > 1 && picks(self.selection, from as int) {
                self.selection
            } else {
                seq![from]
            },
            gap as int,
        )
    }

    pub open spec fn on_image(self, at: int, delay: u16, img: Option<crate::raster::Raster>) -> (
        AppView,
        EffectView,
    ) {
        match img {
            None => (self, EffectView::Say("Could not read that image."@)),
            Some(img) => AppView {
                next_key: crate::model::next_key(self.next_key),
                ..self
            }.frame_spliced(at, image_frame(img@, self.doc().size(), delay, self.next_key)),
        }
    }

    pub open spec fn on_insert_image(self, index: int, img: Option<crate::raster::Raster>) -> (
        AppView,
        EffectView,
    ) {
        if index < self.count() {
            self.on_image(index + 1, self.doc().frames[index].delay_cs, img)
        } else {
            self.on_image(self.count() as int, 10, img)
        }
    }

    pub open spec fn on_append_image(self, img: Option<crate::raster::Raster>) -> (
        AppView,
        EffectView,
    ) {
        self.on_image(
            self.count() as int,
            if self.count() > 0 {
                self.doc().frames.last().delay_cs
            } else {
                10
            },
            img,
        )
    }

    pub open spec fn on_move_frame(self, from: usize, to: usize) -> (AppView, EffectView) {
        if from >= self.count() || to >= self.count() || from == to {
            (self, EffectView::Nothing)
        } else {
            let done = self.edited(
                "Frame moved"@,
                1,
                self.doc().frame_moved(from as int, to as int),
            );
            (
                AppView { playhead: to, ..done }.settled(),
                toast_for("Frame moved"@, 1, self.count() as int),
            )
        }
    }

    pub open spec fn on_scope_delay(self, cs: u16) -> (AppView, EffectView) {
        let frames = self.scope_frames();
        if frames.len() == 0 {
            (self, EffectView::Nothing)
        } else {
            (
                self.edited(
                    "Delay set"@,
                    frames.len() as int,
                    self.doc().delayed(|i: int| picks(frames, i), shown_delay(cs)),
                ).settled(),
                toast_for("Delay set"@, frames.len() as int, self.count() as int),
            )
        }
    }

    pub open spec fn on_all_delay(self, cs: u16) -> (AppView, EffectView) {
        let total = self.count();
        if total == 0 {
            (self, EffectView::Nothing)
        } else {
            (
                self.edited(
                    "Delay set"@,
                    total as int,
                    self.doc().delayed(|i: int| 0 <= i < total, shown_delay(cs)),
                ).settled(),
                toast_for("Delay set"@, total as int, total as int),
            )
        }
    }

    pub open spec fn on_toggle_crop(self) -> AppView {
        AppView {
            crop_tool: !self.crop_tool,
            crop_rect: None,
            selected_overlay: if self.crop_tool {
                self.selected_overlay
            } else {
                None
            },
            ..self
        }
    }

    pub open spec fn on_escape(self) -> AppView {
        if self.crop_tool {
            AppView { crop_tool: false, crop_rect: None, ..self }
        } else {
            AppView { selected_overlay: None, ..self }
        }
    }

    /// The selected overlay, while it is painted on the frame on screen.
    pub open spec fn grabbable(self) -> Option<Overlay> {
        match self.selected_overlay {
            None => None,
            Some(id) => match self.overlay(id) {
                Some(o) if !o.hidden && o.covers(self.playhead as int) => Some(o),
                _ => None,
            },
        }
    }

    /// With the drag of the box `t` begun.
    pub open spec fn dragging(self, mode: DragMode, from: (Single, Single), t: Transform) -> AppView {
        AppView {
            drag: Some(Drag { mode, from, origin: t, current: t, moved: false }),
            ..self
        }
    }

    /// A handle of the current selection wins over what is under the pointer,
    /// or a small overlay could never be resized. The rotate modifier outranks
    /// both.
    pub open spec fn on_press(
        self,
        x: Single,
        y: Single,
        state: Mods,
        inside: Seq<bool>,
        grip: Option<usize>,
    ) -> AppView {
        let zero = Single { bits: ZERO_BITS };
        let rotating = is_held(self.keymap@.modals[Modal::Rotate.rank()], state);
        let selected = self.grabbable();
        let on_selected = selected is Some && (inside[find_id(
            self.doc().overlays,
            self.selected_overlay->Some_0,
            0,
        )] || grip is Some);
        if self.crop_tool {
            AppView { crop_rect: Some((x, y, zero, zero)), ..self }.dragging(
                DragMode::CropRect,
                (x, y),
                Transform { x, y, w: zero, h: zero, angle: zero },
            )
        } else if rotating && on_selected {
            self.dragging(DragMode::Rotate, (x, y), selected->Some_0.transform)
        } else if selected is Some && grip is Some {
            self.dragging(DragMode::Resize(grip->Some_0), (x, y), selected->Some_0.transform)
        } else {
            match top_hit(painting(self.doc().overlays, self.playhead as int), inside) {
                Some(i) => {
                    let o = self.doc().overlays[i as int];
                    AppView { selected_overlay: Some(o.id), ..self }.dragging(
                        if rotating {
                            DragMode::Rotate
                        } else {
                            DragMode::Move
                        },
                        (x, y),
                        o.transform,
                    )
                },
                None => AppView { selected_overlay: None, ..self },
            }
        }
    }

    /// With overlay `id` in the box `t`, outside the history.
    pub open spec fn placed(self, id: OverlayId, t: Transform) -> AppView {
        let i = find_id(self.doc().overlays, id, 0);
        if i < self.doc().overlays.len() {
            let overlays = self.doc().overlays;
            AppView {
                editor: crate::history::EditorView {
                    doc: DocView {
                        overlays: overlays.update(i, Overlay { transform: t, ..overlays[i] }),
                        ..self.doc()
                    },
                    ..self.editor
                },
                ..self
            }
        } else {
            self
        }
    }

    /// Live, and deliberately outside the history: one drag is one undo step,
    /// committed when the button comes up.
    pub open spec fn on_drag(self, away: bool, dragged: Transform, crop: crate::app::CropBox) -> AppView {
        match self.drag {
            None => self,
            Some(drag) => if !away && !drag.moved {
                self
            } else if drag.mode == DragMode::CropRect {
                AppView {
                    drag: Some(Drag { moved: true, ..drag }),
                    crop_rect: Some(crop),
                    ..self
                }
            } else {
                let after = AppView {
                    drag: Some(Drag { moved: true, current: dragged, ..drag }),
                    rev: (self.rev + 1) as u64,
                    ..self
                };
                match self.selected_overlay {
                    Some(id) => after.placed(id, dragged),
                    None => after,
                }
            },
        }
    }

    /// What a drag is called in the history.
    pub open spec fn drag_label(mode: DragMode) -> Seq<char> {
        match mode {
            DragMode::Move => "Overlay moved"@,
            DragMode::Rotate => "Overlay rotated"@,
            _ => "Overlay resized"@,
        }
    }

    /// The box goes back to where the drag started before the edit is
    /// recorded, so undo returns there rather than to one frame before.
    pub open spec fn on_release(self) -> (AppView, EffectView) {
        let still = AppView { drag: None, ..self };
        match (self.drag, self.selected_overlay) {
            (Some(drag), Some(id)) if drag.moved && drag.mode != DragMode::CropRect => {
                let back = still.placed(id, drag.origin);
                let label = AppView::drag_label(drag.mode);
                if back.reaches(id) {
                    (
                        back.overlay_changed(
                            label,
                            id,
                            |o: Overlay| Overlay { transform: drag.current, ..o },
                        ),
                        toast_for(
                            label,
                            back.span_for(id).end - back.span_for(id).start,
                            self.count() as int,
                        ),
                    )
                } else {
                    (back, EffectView::Nothing)
                }
            },
            _ => (still, EffectView::Nothing),
        }
    }

    pub open spec fn on_apply_crop(self, rect: Option<Rect>) -> (AppView, EffectView) {
        let taken = AppView { crop_rect: None, ..self };
        match (self.crop_rect, rect) {
            (Some(_), Some(rect)) => taken.crop_started(rect),
            _ => (taken, EffectView::Nothing),
        }
    }

    pub open spec fn on_drop_every(self, every: usize) -> (AppView, EffectView) {
        if self.count() == 0 || every < 2 {
            (self, EffectView::Nothing)
        } else {
            let touched = self.count() as int / every as int;
            let done = self.edited(
                "Frames removed"@,
                touched,
                self.doc().without(|i: int| (i + 1) % (every as int) == 0),
            );
            (
                AppView { playhead: 0, ..done }.settled(),
                toast_for("Frames removed"@, touched, self.count() as int),
            )
        }
    }

    pub open spec fn on_smart_drop(self, percent: usize) -> (AppView, EffectView) {
        let touched = thinned(self.count(), percent);
        if touched == 0 {
            (self, EffectView::Nothing)
        } else {
            let frames = self.doc().frames;
            let done = self.edited(
                "Frames removed"@,
                touched,
                self.doc().without(|i: int| low_motion(scores(frames), touched, i)),
            );
            (
                AppView { playhead: 0, ..done }.settled(),
                toast_for("Frames removed"@, touched, self.count() as int),
            )
        }
    }

    /// The import budget doubles as the resize-output budget: the old frames
    /// stay resident in undo history either way, so the peak equals the
    /// post-landing steady state.
    pub open spec fn on_resize(self, w: u32, h: u32) -> (AppView, EffectView) {
        let (w, h) = (crate::canvas::at_least_one(w), crate::canvas::at_least_one(h));
        let bytes = w * h * 4;
        if self.count() == 0 || (w, h) == self.doc().size() {
            (self, EffectView::Nothing)
        } else if bytes <= usize::MAX && bytes * self.count() <= usize::MAX && bytes * self.count()
            <= self.max_import_bytes {
            (
                self.working(BusyKind::Resize, self.count()),
                EffectView::Work(WorkView::Resize(w, h)),
            )
        } else {
            (
                self,
                EffectView::Say("That resize would use more memory than the configured limit."@),
            )
        }
    }

    /// What a message comes with is what it has to be: a picture that can
    /// join, a flag for each overlay, a gap in or near the strip.
    pub open spec fn fits(self, msg: Msg, aid: Aid) -> bool {
        match msg {
            Msg::InsertImageFrame(_, Some(img)) => img.wf() && can_join(
                img.width,
                img.height,
                self.doc().size(),
            ),
            Msg::AppendImageFrame(Some(img)) => img.wf() && can_join(
                img.width,
                img.height,
                self.doc().size(),
            ),
            Msg::CanvasPress { .. } => aid.inside@.len() == self.doc().overlays.len(),
            Msg::MoveSelectionTo { gap, .. } => gap + self.count() + 1 <= usize::MAX,
            Msg::SetKeymap(map) => map@.wf(),
            _ => true,
        }
    }

    /// Whether `after` and `effect` are what the message makes of the state
    /// and has the window do.
    pub open spec fn answered(self, msg: Msg, aid: Aid, after: AppView, effect: EffectView) -> bool {
        if self.blocked(msg) {
            (after, effect) == (self, EffectView::Nothing)
        } else {
            match msg {
                Msg::Open => (after, effect) == (self, EffectView::OpenDialog),
                Msg::Load => (after, effect) == (self.importing(false), EffectView::PlanImport),
                Msg::LoadConfirmed => (after, effect) == (
                    self.importing(self.import_append),
                    EffectView::StartLoad,
                ),
                Msg::CancelImport => (after, effect) == (self, self.on_cancel()),
                Msg::Estimate(rev) => (after, effect) == (self, self.on_estimate(rev)),
                Msg::Export => (after, effect) == (
                    self,
                    if self.count() > 0 {
                        EffectView::ExportDialog
                    } else {
                        EffectView::Nothing
                    },
                ),
                Msg::Undo => (after, effect) == (self.on_undo(), EffectView::Nothing),
                Msg::Redo => (after, effect) == (self.on_redo(), EffectView::Nothing),
                Msg::TogglePlay => (after, effect) == self.on_toggle_play(),
                Msg::Tick => (after, effect) == self.on_tick(),
                Msg::Seek(i) => (after, effect) == (self.sought(i as int), EffectView::Nothing),
                Msg::SeekKeepSelection(i) => (after, effect) == (
                    AppView {
                        playhead: last_at_most(i as int, self.count() as int) as usize,
                        ..self
                    },
                    EffectView::Nothing,
                ),
                Msg::ExtendSelection(i) => (after, effect) == (
                    self.extended(i as int),
                    EffectView::Nothing,
                ),
                Msg::SetScope(choice) => (after, effect) == (
                    self.on_set_scope(choice),
                    EffectView::Nothing,
                ),
                Msg::AddOverlay(tool) => if self.scope_frames().len() == 0 {
                    (after, effect) == (self, EffectView::Nothing)
                } else {
                    exists|o: Overlay|
                        made_by(tool, aid.spot, aid.size_px, o) && (after, effect)
                            == #[trigger] self.overlay_added(tool, o)
                },
                Msg::SelectOverlay(id) => (after, effect) == (
                    self.on_select_overlay(id),
                    EffectView::Nothing,
                ),
                Msg::FrameOp(op) => (after, effect) == self.frames_done(op, self.scope_frames()),
                Msg::FrameCopy => (after, effect) == self.on_copy(),
                Msg::FramePaste => (after, effect) == self.on_paste(),
                Msg::MoveSelection { earlier } => (after, effect) == self.on_nudge(earlier),
                Msg::MoveSelectionTo { from, gap } => (after, effect) == self.on_drop(from, gap),
                Msg::SetScopeDelay(cs) => (after, effect) == self.on_scope_delay(cs),
                Msg::DelayAllDialog => (after, effect) == (self, self.on_ask_delay()),
                Msg::SetAllFramesDelay(cs) => (after, effect) == self.on_all_delay(cs),
                Msg::EditText(text) => (after, effect) == (
                    self.on_edit_text(text),
                    EffectView::Nothing,
                ),
                Msg::SetOverlayProp(prop) => (after, effect) == (
                    self.on_set_prop(prop, aid.resized),
                    EffectView::Nothing,
                ),
                Msg::DeleteOverlay(id) => (after, effect) == self.overlay_deleted(id),
                Msg::RestackOverlay { id, up } => (after, effect) == (
                    self.restacked(id, up),
                    EffectView::Nothing,
                ),
                Msg::DeleteSelection => (after, effect) == self.on_delete_selection(),
                Msg::SelectAllFrames => (after, effect) == (
                    self.on_select_all(),
                    EffectView::Nothing,
                ),
                Msg::ToggleSelection(i) => (after, effect) == (
                    self.on_toggle(i as int),
                    EffectView::Nothing,
                ),
                Msg::ToggleBandsExpanded => (after, effect) == (
                    AppView { bands_expanded: !self.bands_expanded, ..self },
                    EffectView::Nothing,
                ),
                Msg::CanvasPress { x, y, state } => (after, effect) == (
                    self.on_press(x, y, state, aid.inside@, aid.grip),
                    EffectView::Nothing,
                ),
                Msg::CanvasDrag { .. } => (after, effect) == (
                    self.on_drag(aid.away, aid.dragged, aid.crop),
                    EffectView::Nothing,
                ),
                Msg::CanvasRelease => (after, effect) == self.on_release(),
                Msg::ToggleCropTool => (after, effect) == (
                    self.on_toggle_crop(),
                    EffectView::Nothing,
                ),
                Msg::Escape => (after, effect) == (self.on_escape(), EffectView::Nothing),
                Msg::ApplyCrop => (after, effect) == self.on_apply_crop(aid.rect),
                Msg::ApplyZoom => (after, effect) == self.zoom_started(
                    self.zoomed(false),
                    aid.rect,
                ),
                Msg::ApplyZoomAll => (after, effect) == self.zoom_started(
                    self.zoomed(true),
                    aid.rect,
                ),
                Msg::CropAllDialog => (after, effect) == (self, self.on_ask_crop()),
                Msg::CropAll(x, y, w, h) => (after, effect) == self.crop_started(
                    Rect { x, y, w, h },
                ),
                Msg::ApplyShrink => (after, effect) == self.shrink_started(aid.rect),
                Msg::DropEveryNth(every) => (after, effect) == self.on_drop_every(every),
                Msg::SmartDrop(percent) => (after, effect) == self.on_smart_drop(percent),
                Msg::Resize(w, h) => (after, effect) == self.on_resize(w, h),
                Msg::InsertImageFrame(index, img) => (after, effect) == self.on_insert_image(
                    index as int,
                    img,
                ),
                Msg::AppendImageFrame(img) => (after, effect) == self.on_append_image(img),
                Msg::ImportMore => (after, effect) == (self, EffectView::ImportMoreDialog),
                Msg::LoadAppend => (after, effect) == self.on_load_append(),
                Msg::MoveFrame(from, to) => (after, effect) == self.on_move_frame(from, to),
                Msg::MoveFrameDialog(i) => (after, effect) == (self, self.on_ask_move(i)),
                Msg::SetKeymap(map) => (after, effect) == (
                    AppView { keymap: map, ..self },
                    EffectView::SaveKeymap,
                ),
                Msg::Toast(text) => (after, effect) == (
                    self,
                    EffectView::Show { text: text@, undo: true },
                ),
                Msg::Notice(text) => (after, effect) == (
                    self,
                    EffectView::Show { text: text@, undo: false },
                ),
                Msg::StripZoom(step) => (after, effect) == (self, EffectView::StripZoom(step)),
            }
        }
    }
}

} // verus!
