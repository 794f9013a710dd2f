//! The window's messages, carried out.

use vstd::prelude::*;

use crate::actions::{Modal, ACTION_COUNT, MODAL_COUNT};
use crate::answers::{made_by, picked_after, run_with, toggled, SHAPE_LINE_BITS};
use crate::app::{
    at_most_last, toast_if_document_wide, top_hit, Aid, App, Busy, CropBox, Drag, DragMode, Effect,
    EffectView,
};
use crate::app_laws::{append_spot, insert_spot, on_canvas, pictures_fit, spliced_frame};
use crate::canvas::Rect;
use crate::chord::Mods;
use crate::document::{find_id, lemma_find_id, new_overlay, painting};
use crate::group::{law_runs, lemma_runs_len, on_each, runs};
use crate::i18n::n;
use crate::model::{
    Overlay, OverlayId, OverlayKind, Shape, ShapeOverlay, TextOverlay, Transform,
};
use crate::msg::{Msg, OverlayProp, ScopeChoice, Tool};
use crate::raster::{Raster, Rgba8};
use crate::scope::{ascending, copy_indices, lemma_ascending, picks};
use crate::selection::{
    lemma_count_below, lemma_rising_from, lemma_same_set, move_target_for_set, resize_fits_budget,
    rising, run_between, selection_nudge_gap, toggle_frame,
};
use crate::single::{Single, ZERO_BITS};
use crate::soundness::law_adding_keeps_sound;
use crate::work::{can_join, fit_image, joins, BusyKind, FrameWork};

verus! {

/// With ids that are all different, an overlay is found where it stands.
pub proof fn lemma_found_at(overlays: Seq<Overlay>, at: int, from: int)
    requires
        0 <= from <= at < overlays.len(),
        forall|i: int, j: int|
            0 <= i < j < overlays.len() ==> (#[trigger] overlays[i]).id != (
            #[trigger] overlays[j]).id,
    ensures
        find_id(overlays, overlays[at].id, from) == at,
    decreases at - from,
{
    if from < at {
        assert(overlays[from].id != overlays[at].id);
        lemma_found_at(overlays, at, from + 1);
    }
}

/// Every place in the painting order is one of the overlays.
pub proof fn lemma_painting_places(overlays: Seq<Overlay>, frame: int)
    requires
        overlays.len() <= usize::MAX,
    ensures
        forall|k: int|
            0 <= k < painting(overlays, frame).len() ==> #[trigger] painting(overlays, frame)[k]
                < overlays.len(),
    decreases overlays.len(),
{
    if overlays.len() > 0 {
        let below = painting(overlays.drop_last(), frame);
        lemma_painting_places(overlays.drop_last(), frame);
        assert forall|k: int| 0 <= k < painting(overlays, frame).len() implies #[trigger] painting(
            overlays,
            frame,
        )[k] < overlays.len() by {
            if k < below.len() {
                assert(painting(overlays, frame)[k] == below[k]);
            }
        }
    }
}

/// The topmost of the overlays at `places` the pointer is inside of.
fn find_hit(places: &Vec<usize>, inside: &Vec<bool>) -> (r: Option<usize>)
    requires
        forall|k: int| 0 <= k < places@.len() ==> #[trigger] places@[k] < inside@.len(),
    ensures
        r == top_hit(places@, inside@),
        r matches Some(i) ==> i < inside@.len(),
{
    let mut k: usize = places.len();
    assert(places@.take(k as int) =~= places@);
    while k > 0
        invariant
            k <= places@.len(),
            forall|k: int| 0 <= k < places@.len() ==> #[trigger] places@[k] < inside@.len(),
            top_hit(places@, inside@) == top_hit(places@.take(k as int), inside@),
        decreases k,
    {
        k = k - 1;
        assert(places@.take(k + 1).drop_last() =~= places@.take(k as int));
        assert(places@[k as int] < inside@.len());
        if inside[places[k]] {
            return Some(places[k]);
        }
    }
    None
}

/// The overlay a tool makes.
fn tool_kind(tool: Tool, size_px: Single) -> (kind: OverlayKind)
    ensures
        forall|name: String, spot: Transform|
            name@ == tool.title() ==> #[trigger] made_by(
                tool,
                spot,
                size_px,
                new_overlay(name, kind, spot, (std::ops::Range { start: 0usize, end: 0usize })),
            ),
{
    let red: Rgba8 = [255, 60, 60, 255];
    assert(red@ =~= seq![255u8, 60, 60, 255]);
    let line: Option<(Rgba8, Single)> = Some((red, Single { bits: SHAPE_LINE_BITS }));
    match tool {
        Tool::Text => {
            let mut text = TextOverlay::default();
            text.text = "Text".to_owned();
            text.size_px = size_px;
            OverlayKind::Text(text)
        },
        Tool::Rect => OverlayKind::Shape(
            ShapeOverlay { shape: Shape::Rect, fill: None, stroke: line },
        ),
        Tool::Ellipse => OverlayKind::Shape(
            ShapeOverlay { shape: Shape::Ellipse, fill: None, stroke: line },
        ),
        Tool::Arrow => OverlayKind::Shape(
            ShapeOverlay { shape: Shape::Arrow, fill: Some(red), stroke: None },
        ),
    }
}

impl App {
    /// Whether a message has to wait for the job that holds the app.
    pub fn blocks(&self, msg: &Msg) -> (r: bool)
        ensures
            r == self@.blocked(*msg),
    {
        match self.busy {
            None => false,
            Some(busy) => if busy.kind == BusyKind::Import {
                msg.requires_idle() || msg.edits_document()
            } else {
                msg.requires_idle() && !(matches!(msg, Msg::DeleteSelection)
                    && self.selected_overlay.is_some())
            },
        }
    }

    fn schedule_tick(&self) -> (r: Effect)
        ensures
            r@ == self@.tick(),
    {
        if self.playhead < self.frame_count() {
            let delay: u16 = self.editor.doc.frames[self.playhead].delay_cs;
            let shown: u64 = if delay < 1 {
                1
            } else {
                delay as u64
            };
            Effect::Tick { ms: shown * 10 }
        } else {
            Effect::Nothing
        }
    }

    fn toggle_selection(&mut self, i: usize)
        requires
            old(self).wf(),
            old(self)@.roomy(),
        ensures
            final(self)@ == old(self)@.on_toggle(i as int),
            final(self).editor == old(self).editor,
    {
        let i = at_most_last(i, self.frame_count());
        let ghost room = self@.room() as nat;
        if self.selection.len() == 0 {
            self.selection.push(self.playhead);
            assert(self.selection@ =~= seq![self.playhead]);
        }
        let ghost start = self.selection@;
        toggle_frame(&mut self.selection, i);
        proof {
            let frame = i as int;
            let p = |i: int| picked_after(start, frame, i);
            lemma_ascending(room, p);
            let want = toggled(start, frame, room);
            assert(want == ascending(room, p));
            assert forall|k: int| picks(self.selection@, k) == #[trigger] picks(want, k) by {
                assert(picks(self.selection@, k) == p(k));
                if picks(want, k) {
                    let a = choose|a: int| 0 <= a < want.len() && #[trigger] want[a] == k;
                    assert(p(want[a] as int));
                }
                if p(k) {
                    assert(0 <= k < room) by {
                        if k != i {
                            let a = choose|a: int| 0 <= a < start.len() && #[trigger] start[a] == k;
                            assert(start[a] < room);
                        }
                    }
                    assert(want.contains(k as usize));
                    let a = choose|a: int| 0 <= a < want.len() && want[a] == k as usize;
                    assert(want[a] == k);
                }
            }
            lemma_same_set(self.selection@, want);
        }
        self.anchor = Some(i);
        self.playhead = i;
        self.scope = if self.selection.len() == 0 {
            ScopeChoice::ThisFrame
        } else {
            ScopeChoice::Range
        };
    }

    fn extend_selection(&mut self, i: usize)
        requires
            old(self).wf(),
            old(self)@.roomy(),
        ensures
            final(self)@ == old(self)@.extended(i as int),
            final(self).editor == old(self).editor,
    {
        let i = at_most_last(i, self.frame_count());
        let anchor = at_most_last(
            match self.anchor {
                Some(a) => a,
                None => self.playhead,
            },
            self.frame_count(),
        );
        self.selection = run_between(anchor, i);
        self.anchor = Some(anchor);
        self.playhead = i;
        self.scope = ScopeChoice::Range;
    }

    fn add_overlay(&mut self, tool: Tool, spot: Transform, size_px: Single) -> (r: Effect)
        requires
            old(self).wf(),
            old(self)@.roomy(),
        ensures
            if old(self)@.scope_frames().len() == 0 {
                final(self)@ == old(self)@ && r@ == EffectView::Nothing
            } else {
                exists|o: Overlay|
                    made_by(tool, spot, size_px, o) && (final(self)@, r@)
                        == #[trigger] old(self)@.overlay_added(tool, o)
            },
    {
        let frames = self.scope_frames();
        if frames.len() == 0 {
            return Effect::Nothing;
        }
        let ghost ranges = runs(frames@);
        let ghost doc = self.editor.doc@;
        proof {
            lemma_runs_len(frames@);
            lemma_rising_from(frames@, 0, frames@.len() - 1);
            law_runs(frames@);
            assert(frames@[frames@.len() - 1] < self@.count());
            assert forall|k: int| 0 <= k < ranges.len() implies (#[trigger] ranges[k]).start
                < ranges[k].end <= doc.frames.len() by {
                if k < ranges.len() - 1 {
                    assert(ranges[k].end < ranges[ranges.len() - 1].start);
                    assert(ranges[ranges.len() - 1].start < ranges[ranges.len() - 1].end);
                }
            }
        }
        let kind = tool_kind(tool, size_px);
        let name = tool.label().to_owned();
        let ghost o = new_overlay(name, kind, spot, (std::ops::Range { start: 0usize, end: 0usize }));
        proof {
            assert(made_by(tool, spot, size_px, o));
            law_adding_keeps_sound(doc, o, ranges);
        }
        let label: &'static str = match tool {
            Tool::Text => n("Text added"),
            Tool::Rect => n("Rectangle added"),
            Tool::Ellipse => n("Ellipse added"),
            Tool::Arrow => n("Arrow added"),
        };
        let change = self.editor.begin(label, frames.len());
        let ids = self.editor.doc.add_overlay_over(name, kind, spot, &frames);
        let playhead: usize = self.playhead;
        let mut k: usize = 0;
        let mut chosen: usize = ids.len();
        while k < ids.len() && chosen == ids.len()
            invariant
                k <= ids@.len() == ranges.len(),
                self.editor.doc@ == doc.with_overlays(o, ranges),
                self.editor.doc@.ids_sound(),
                doc.next_id + ranges.len() <= u32::MAX,
                ids@ == Seq::new(ranges.len(), |k: int| OverlayId((doc.next_id + k) as u32)),
                chosen < ids@.len() ==> chosen == run_with(ranges, playhead as int, 0),
                chosen >= ids@.len() ==> chosen == ids@.len() && run_with(ranges, playhead as int, 0)
                    == run_with(ranges, playhead as int, k as int),
            decreases ids@.len() - k,
        {
            let ghost place = doc.overlays.len() + k;
            assert(self.editor.doc@.overlays[place as int] == on_each(
                o,
                ranges,
                doc.next_id as int,
            )[k as int]);
            proof {
                lemma_found_at(self.editor.doc@.overlays, place as int, 0);
            }
            match self.editor.doc.overlay(ids[k]) {
                Some(o) => {
                    if o.range.start <= playhead && playhead < o.range.end {
                        chosen = k;
                    }
                },
                None => {},
            }
            k = k + 1;
        }
        if chosen == ids.len() {
            chosen = 0;
        }
        self.selected_overlay = Some(ids[chosen]);
        self.after_edit();
        let r = toast_if_document_wide(change, self.frame_count());
        assert((self@, r@) == old(self)@.overlay_added(tool, o));
        r
    }

    fn select_overlay(&mut self, id: Option<OverlayId>)
        ensures
            final(self)@ == old(self)@.on_select_overlay(id),
            final(self).editor == old(self).editor,
    {
        self.selected_overlay = id;
        match id {
            Some(id) => self.seek_to_overlay(id),
            None => {},
        }
    }

    fn set_prop(&mut self, prop: OverlayProp, resized: bool)
        requires
            old(self).wf(),
            old(self)@.roomy(),
        ensures
            final(self)@ == old(self)@.on_set_prop(prop, resized),
    {
        let id = match self.selected_overlay {
            Some(id) => id,
            None => {
                return ;
            },
        };
        let changes = match self.editor.doc.overlay(id) {
            Some(o) => prop.changes(&o.kind, resized),
            None => {
                return ;
            },
        };
        if !changes {
            return ;
        }
        proof {
            lemma_find_id(self@.doc().overlays, id, 0);
        }
        self.seek_to_overlay(id);
        self.restyle(id, prop);
    }

    fn delete_selection(&mut self) -> (r: Effect)
        requires
            old(self).wf(),
            old(self)@.roomy(),
        ensures
            (final(self)@, r@) == old(self)@.on_delete_selection(),
    {
        match self.selected_overlay {
            Some(id) => {
                self.selected_overlay = None;
                self.delete_overlay(id)
            },
            None => {
                if self.selection.len() == 0 {
                    return Effect::Nothing;
                }
                let frames = copy_indices(&self.selection);
                self.selection = Vec::new();
                let total = self.frame_count();
                let change = self.editor.begin("Frames deleted", frames.len());
                self.editor.doc.delete_frames_at(&frames);
                self.playhead = at_most_last(self.playhead, self.frame_count());
                self.scope = ScopeChoice::ThisFrame;
                self.after_edit();
                toast_if_document_wide(change, total)
            },
        }
    }

    /// Move the picked frames to where the divider shows the gap.
    fn move_set(&mut self, picked: &Vec<usize>, gap: usize) -> (r: Effect)
        requires
            old(self).wf(),
            old(self)@.roomy(),
            rising(picked@),
            gap + picked@.len() <= usize::MAX,
        ensures
            (final(self)@, r@) == old(self)@.on_move_set(picked@, gap as int),
    {
        proof {
            lemma_count_below(picked@, gap as int);
            lemma_ascending(
                self@.count(),
                |i: int| picks(picked@, i),
            );
        }
        let to = move_target_for_set(picked, gap);
        let ghost before = self@;
        match self.move_picked(picked, to) {
            Some(change) => {
                proof {
                    crate::app_laws::lemma_set_move_keeps_count(before, picked@, to as int);
                }
                toast_if_document_wide(change, self.frame_count())
            },
            None => Effect::Nothing,
        }
    }

    fn nudge(&mut self, earlier: bool) -> (r: Effect)
        requires
            old(self).wf(),
            old(self)@.roomy(),
        ensures
            (final(self)@, r@) == old(self)@.on_nudge(earlier),
    {
        let picked = self.scope_frames();
        match selection_nudge_gap(&picked, earlier, self.frame_count()) {
            Some(gap) => {
                proof {
                    lemma_rising_from(picked@, 0, picked@.len() - 1);
                    assert(picked@[picked@.len() - 1] < self@.count());
                }
                self.move_set(&picked, gap)
            },
            None => Effect::Nothing,
        }
    }

    fn drop_at(&mut self, from: usize, gap: usize) -> (r: Effect)
        requires
            old(self).wf(),
            old(self)@.roomy(),
            gap + old(self)@.count() + 1 <= usize::MAX,
        ensures
            (final(self)@, r@) == old(self)@.on_drop(from, gap),
    {
        let mut inside = false;
        let mut k: usize = 0;
        while k < self.selection.len()
            invariant
                k <= self.selection@.len(),
                inside == (exists|j: int| 0 <= j < k && #[trigger] self.selection@[j] == from),
            decreases self.selection@.len() - k,
        {
            if self.selection[k] == from {
                inside = true;
                assert(self.selection@[k as int] == from);
            }
            k = k + 1;
        }
        assert(inside == picks(self.selection@, from as int));
        let picked = if self.selection.len() > 1 && inside {
            proof {
                lemma_rising_from(self.selection@, 0, self.selection@.len() - 1);
                assert(self.selection@[self.selection@.len() - 1] < self@.room());
            }
            copy_indices(&self.selection)
        } else {
            let one: Vec<usize> = vec![from];
            assert(one@ =~= seq![from]);
            one
        };
        self.move_set(&picked, gap)
    }

    fn splice_image(&mut self, at: usize, delay: u16, img: Option<Raster>) -> (r: Effect)
        requires
            old(self).wf(),
            old(self)@.roomy(),
            at <= old(self)@.count(),
            img matches Some(img) ==> img.wf() && can_join(
                img.width,
                img.height,
                old(self)@.doc().size(),
            ),
        ensures
            (final(self)@, r@) == old(self)@.on_image(at as int, delay, img),
            img is Some ==> on_canvas(old(self)@, spliced_frame(old(self)@, delay, img)),
    {
        match img {
            None => Effect::Say(n("Could not read that image.")),
            Some(img) => {
                let size = self.editor.doc.size();
                let frame = fit_image(img, size, delay, &mut self.keys);
                self.splice_frame(at, frame)
            },
        }
    }

    fn move_frame(&mut self, from: usize, to: usize) -> (r: Effect)
        requires
            old(self).wf(),
            old(self)@.roomy(),
        ensures
            (final(self)@, r@) == old(self)@.on_move_frame(from, to),
    {
        let total = self.frame_count();
        if from >= total || to >= total || from == to {
            return Effect::Nothing;
        }
        proof {
            crate::app_laws::lemma_room_for_one(self@);
        }
        let change = self.editor.begin("Frame moved", 1);
        self.editor.doc.move_frame(from, to);
        self.playhead = to;
        self.after_edit();
        toast_if_document_wide(change, total)
    }

    fn set_scope_delay(&mut self, cs: u16) -> (r: Effect)
        requires
            old(self).wf(),
            old(self)@.roomy(),
        ensures
            (final(self)@, r@) == old(self)@.on_scope_delay(cs),
    {
        let frames = self.scope_frames();
        if frames.len() == 0 {
            return Effect::Nothing;
        }
        let total = self.frame_count();
        let shown: u16 = if cs < 1 {
            1
        } else {
            cs
        };
        let change = self.editor.begin("Delay set", frames.len());
        self.editor.doc.set_delay_at(&frames, shown);
        self.after_edit();
        toast_if_document_wide(change, total)
    }

    fn set_all_delay(&mut self, cs: u16) -> (r: Effect)
        requires
            old(self).wf(),
            old(self)@.roomy(),
        ensures
            (final(self)@, r@) == old(self)@.on_all_delay(cs),
    {
        let total = self.frame_count();
        if total == 0 {
            return Effect::Nothing;
        }
        let shown: u16 = if cs < 1 {
            1
        } else {
            cs
        };
        let change = self.editor.begin("Delay set", total);
        let ghost doc = self.editor.doc@;
        self.editor.doc.set_delay(0..total, shown);
        assert(self.editor.doc@.frames =~= doc.delayed(|i: int| 0 <= i < total, shown).frames);
        self.after_edit();
        toast_if_document_wide(change, total)
    }

    fn begin_drag(&mut self, mode: DragMode, from: (Single, Single), t: Transform)
        ensures
            final(self)@ == old(self)@.dragging(mode, from, t),
            final(self).editor == old(self).editor,
    {
        self.drag = Some(Drag { mode, from, origin: t, current: t, moved: false });
    }

    fn press(
        &mut self,
        x: Single,
        y: Single,
        state: Mods,
        inside: &Vec<bool>,
        grip: Option<usize>,
    )
        requires
            old(self).wf(),
            inside@.len() == old(self)@.doc().overlays.len(),
        ensures
            final(self)@ == old(self)@.on_press(x, y, state, inside@, grip),
            final(self).editor == old(self).editor,
    {
        let zero = Single { bits: ZERO_BITS };
        if self.crop_tool {
            self.crop_rect = Some((x, y, zero, zero));
            self.begin_drag(DragMode::CropRect, (x, y), Transform::at(x, y, zero, zero));
            return ;
        }
        let rotating = self.keymap.mods(Modal::Rotate).held(state);
        let mut selected: Option<usize> = None;
        match self.selected_overlay {
            Some(id) => {
                proof {
                    lemma_find_id(self@.doc().overlays, id, 0);
                }
                match self.editor.doc.position(id) {
                    Some(i) => {
                        let o = &self.editor.doc.overlays[i];
                        if !o.hidden && o.range.start <= self.playhead && self.playhead
                            < o.range.end {
                            selected = Some(i);
                        }
                    },
                    None => {},
                }
            },
            None => {},
        }
        match selected {
            Some(i) => {
                let transform = self.editor.doc.overlays[i].transform;
                if rotating && (inside[i] || grip.is_some()) {
                    self.begin_drag(DragMode::Rotate, (x, y), transform);
                    return ;
                }
                match grip {
                    Some(corner) => {
                        self.begin_drag(DragMode::Resize(corner), (x, y), transform);
                        return ;
                    },
                    None => {},
                }
            },
            None => {},
        }
        assert(self.editor.doc.overlays.len() == self@.doc().overlays.len());
        let places = self.editor.doc.overlays_on(self.playhead);
        proof {
            lemma_painting_places(self@.doc().overlays, self.playhead as int);
        }
        match find_hit(&places, inside) {
            Some(i) => {
                let transform = self.editor.doc.overlays[i].transform;
                self.selected_overlay = Some(self.editor.doc.overlays[i].id);
                let mode = if rotating {
                    DragMode::Rotate
                } else {
                    DragMode::Move
                };
                self.begin_drag(mode, (x, y), transform);
            },
            None => {
                self.selected_overlay = None;
            },
        }
    }

    /// Put overlay `id` in the box, outside the history.
    fn place(&mut self, id: OverlayId, t: Transform)
        ensures
            final(self)@ == old(self)@.placed(id, t),
    {
        match self.editor.doc.overlay_mut(id) {
            Some(o) => {
                o.transform = t;
            },
            None => {},
        }
    }

    fn drag_to(&mut self, away: bool, dragged: Transform, crop: CropBox)
        requires
            old(self)@.roomy(),
        ensures
            final(self)@ == old(self)@.on_drag(away, dragged, crop),
    {
        let drag = match self.drag {
            Some(drag) => drag,
            None => {
                return ;
            },
        };
        if !away && !drag.moved {
            return ;
        }
        if drag.mode == DragMode::CropRect {
            self.drag = Some(
                Drag {
                    mode: drag.mode,
                    from: drag.from,
                    origin: drag.origin,
                    current: drag.current,
                    moved: true,
                },
            );
            self.crop_rect = Some(crop);
            return ;
        }
        self.drag = Some(
            Drag {
                mode: drag.mode,
                from: drag.from,
                origin: drag.origin,
                current: dragged,
                moved: true,
            },
        );
        self.rev = self.rev + 1;
        match self.selected_overlay {
            Some(id) => self.place(id, dragged),
            None => {},
        }
    }

    fn release(&mut self) -> (r: Effect)
        requires
            old(self).wf(),
            old(self)@.roomy(),
        ensures
            (final(self)@, r@) == old(self)@.on_release(),
    {
        let drag = self.drag;
        self.drag = None;
        match (drag, self.selected_overlay) {
            (Some(drag), Some(id)) => {
                if !drag.moved || drag.mode == DragMode::CropRect {
                    return Effect::Nothing;
                }
                let ghost still = self@;
                self.place(id, drag.origin);
                proof {
                    crate::app_laws::lemma_placed_keeps_wf(still, id, drag.origin);
                }
                let label: &'static str = match drag.mode {
                    DragMode::Move => n("Overlay moved"),
                    DragMode::Rotate => n("Overlay rotated"),
                    _ => n("Overlay resized"),
                };
                self.reshape(id, label, drag.current)
            },
            _ => Effect::Nothing,
        }
    }

    fn apply_crop(&mut self, rect: Option<Rect>) -> (r: Effect)
        ensures
            (final(self)@, r@) == old(self)@.on_apply_crop(rect),
            final(self).editor == old(self).editor,
    {
        let drawn = self.crop_rect.is_some();
        self.crop_rect = None;
        if !drawn {
            return Effect::Nothing;
        }
        match rect {
            Some(rect) => self.start_crop(rect),
            None => Effect::Nothing,
        }
    }

    fn drop_every_nth(&mut self, every: usize) -> (r: Effect)
        requires
            old(self).wf(),
            old(self)@.roomy(),
        ensures
            (final(self)@, r@) == old(self)@.on_drop_every(every),
    {
        if self.frame_count() == 0 || every < 2 {
            return Effect::Nothing;
        }
        let total = self.frame_count();
        let change = self.editor.begin("Frames removed", total / every);
        self.editor.doc.drop_every_nth(every);
        self.playhead = 0;
        self.after_edit();
        toast_if_document_wide(change, total)
    }

    fn smart_drop(&mut self, percent: usize) -> (r: Effect)
        requires
            old(self).wf(),
            old(self)@.roomy(),
        ensures
            (final(self)@, r@) == old(self)@.on_smart_drop(percent),
    {
        let total = self.frame_count();
        let part: u64 = if percent < 95 {
            percent as u64
        } else {
            95
        };
        assert(total * part <= total * 95) by (nonlinear_arith)
            requires
                part <= 95,
        ;
        let count: usize = (total as u64 * part / 100) as usize;
        if count == 0 {
            return Effect::Nothing;
        }
        let change = self.editor.begin("Frames removed", count);
        self.editor.doc.drop_low_motion(count);
        self.playhead = 0;
        self.after_edit();
        toast_if_document_wide(change, total)
    }

    fn resize(&mut self, w: u32, h: u32) -> (r: Effect)
        ensures
            (final(self)@, r@) == old(self)@.on_resize(w, h),
            final(self).editor == old(self).editor,
    {
        let w: u32 = if w < 1 {
            1
        } else {
            w
        };
        let h: u32 = if h < 1 {
            1
        } else {
            h
        };
        let (cw, ch) = self.editor.doc.size();
        if self.frame_count() == 0 || (w == cw && h == ch) {
            return Effect::Nothing;
        }
        if !resize_fits_budget(w, h, self.frame_count(), self.max_import_bytes) {
            return Effect::Say(n("That resize would use more memory than the configured limit."));
        }
        self.busy = Some(
            Busy { kind: BusyKind::Resize, done: 0, total: Some(self.frame_count()) },
        );
        Effect::Work(FrameWork::Resize(w, h))
    }

    fn undo(&mut self)
        requires
            old(self)@.roomy(),
        ensures
            final(self)@ == old(self)@.on_undo(),
    {
        if self.editor.undo() {
            self.after_edit();
        }
    }

    fn redo(&mut self)
        requires
            old(self)@.roomy(),
        ensures
            final(self)@ == old(self)@.on_redo(),
    {
        if self.editor.redo() {
            self.after_edit();
        }
    }

    fn toggle_play(&mut self) -> (r: Effect)
        ensures
            (final(self)@, r@) == old(self)@.on_toggle_play(),
    {
        self.playing = !self.playing && self.frame_count() > 1;
        if self.playing {
            self.schedule_tick()
        } else {
            Effect::Nothing
        }
    }

    fn tick(&mut self) -> (r: Effect)
        requires
            old(self).wf(),
            old(self)@.roomy(),
        ensures
            (final(self)@, r@) == old(self)@.on_tick(),
    {
        if self.playing && self.frame_count() > 0 {
            self.playhead = (self.playhead + 1) % self.frame_count();
            self.schedule_tick()
        } else {
            Effect::Nothing
        }
    }

    fn seek(&mut self, i: usize)
        ensures
            final(self)@ == old(self)@.sought(i as int),
    {
        self.playhead = at_most_last(i, self.frame_count());
        self.selection = Vec::new();
        self.anchor = Some(self.playhead);
        self.scope = ScopeChoice::ThisFrame;
    }

    fn set_scope(&mut self, choice: ScopeChoice)
        ensures
            final(self)@ == old(self)@.on_set_scope(choice),
    {
        if choice != ScopeChoice::Range || self.selection.len() > 0 {
            self.scope = choice;
        }
    }

    fn select_all(&mut self)
        ensures
            final(self)@ == old(self)@.on_select_all(),
    {
        if self.frame_count() > 0 {
            self.selection = Vec::new();
            self.scope = ScopeChoice::AllFrames;
        }
    }

    fn toggle_crop(&mut self)
        ensures
            final(self)@ == old(self)@.on_toggle_crop(),
    {
        self.crop_tool = !self.crop_tool;
        self.crop_rect = None;
        if self.crop_tool {
            self.selected_overlay = None;
        }
    }

    fn escape(&mut self)
        ensures
            final(self)@ == old(self)@.on_escape(),
    {
        if self.crop_tool {
            self.crop_tool = false;
            self.crop_rect = None;
        } else {
            self.selected_overlay = None;
        }
    }

    fn copy_scope(&mut self) -> (r: Effect)
        ensures
            (final(self)@, r@) == old(self)@.on_copy(),
    {
        let frames = self.scope_frames();
        if frames.len() == 0 {
            return Effect::Nothing;
        }
        self.copy_frames(&frames);
        Effect::Copied(self.clipboard.len())
    }

    fn paste(&mut self) -> (r: Effect)
        requires
            old(self).wf(),
            old(self)@.roomy(),
        ensures
            (final(self)@, r@) == old(self)@.on_paste(),
    {
        let total = self.frame_count();
        match self.paste_frames() {
            Some(change) => toast_if_document_wide(change, total),
            None => Effect::Nothing,
        }
    }

    fn insert_image(&mut self, index: usize, img: Option<Raster>) -> (r: Effect)
        requires
            old(self).wf(),
            old(self)@.roomy(),
            img matches Some(img) ==> img.wf() && can_join(
                img.width,
                img.height,
                old(self)@.doc().size(),
            ),
        ensures
            (final(self)@, r@) == old(self)@.on_insert_image(index as int, img),
            img is Some ==> on_canvas(
                old(self)@,
                spliced_frame(old(self)@, insert_spot(old(self)@, index as int).1, img),
            ),
    {
        if index < self.frame_count() {
            let delay: u16 = self.editor.doc.frames[index].delay_cs;
            self.splice_image(index + 1, delay, img)
        } else {
            self.splice_image(self.frame_count(), 10, img)
        }
    }

    fn append_image(&mut self, img: Option<Raster>) -> (r: Effect)
        requires
            old(self).wf(),
            old(self)@.roomy(),
            img matches Some(img) ==> img.wf() && can_join(
                img.width,
                img.height,
                old(self)@.doc().size(),
            ),
        ensures
            (final(self)@, r@) == old(self)@.on_append_image(img),
            img is Some ==> on_canvas(
                old(self)@,
                spliced_frame(old(self)@, append_spot(old(self)@).1, img),
            ),
    {
        let count = self.frame_count();
        let delay: u16 = if count > 0 {
            self.editor.doc.frames[count - 1].delay_cs
        } else {
            10
        };
        self.splice_image(count, delay, img)
    }

    fn begin_import(&mut self, append: bool)
        ensures
            final(self)@ == old(self)@.importing(append),
            final(self).editor == old(self).editor,
    {
        self.import_append = append;
        self.busy = Some(Busy { kind: BusyKind::Import, done: 0, total: None });
    }

    fn load_append(&mut self) -> (r: Effect)
        ensures
            (final(self)@, r@) == old(self)@.on_load_append(),
    {
        if self.frame_count() == 0 {
            // Nothing to append to: behave like a normal open.
            return Effect::OpenInstead;
        }
        self.begin_import(true);
        Effect::PlanImport
    }

    fn cancel_import(&self) -> (r: Effect)
        ensures
            r@ == self@.on_cancel(),
    {
        // The flag is all the window raises; the worker reports back and is
        // the only thing that clears the bar.
        match self.busy {
            Some(busy) => if busy.kind == BusyKind::Import {
                Effect::StopImport
            } else {
                Effect::Nothing
            },
            None => Effect::Nothing,
        }
    }

    fn estimate_now(&self, rev: u64) -> (r: Effect)
        ensures
            r@ == self@.on_estimate(rev),
    {
        if rev != self.rev || self.frame_count() == 0 {
            return Effect::Nothing;
        }
        Effect::Measure { rev, total: self.frame_count() }
    }

    fn ask_delay(&self) -> (r: Effect)
        ensures
            r@ == self@.on_ask_delay(),
    {
        if self.frame_count() == 0 {
            return Effect::Nothing;
        }
        Effect::DelayAllDialog {
            count: self.frame_count(),
            delay_cs: self.editor.doc.frames[0].delay_cs,
        }
    }

    fn ask_crop(&self) -> (r: Effect)
        ensures
            r@ == self@.on_ask_crop(),
    {
        let (width, height) = self.editor.doc.size();
        if width == 0 || height == 0 {
            return Effect::Nothing;
        }
        Effect::CropDialog { width, height }
    }

    fn ask_move(&self, i: usize) -> (r: Effect)
        ensures
            r@ == self@.on_ask_move(i),
    {
        if i >= self.frame_count() {
            return Effect::Nothing;
        }
        Effect::MoveFrameDialog { index: i, count: self.frame_count() }
    }

    /// Whether what a message comes with is what it has to be.
    pub fn takes(&self, msg: &Msg, aid: &Aid) -> (r: bool)
        ensures
            r == self@.fits(*msg, *aid),
    {
        match msg {
            Msg::InsertImageFrame(_, Some(img)) | Msg::AppendImageFrame(Some(img)) => {
                img.is_whole() && joins(img.width, img.height, self.editor.doc.size())
            },
            Msg::CanvasPress { .. } => aid.inside.len() == self.editor.doc.overlays.len(),
            Msg::MoveSelectionTo { gap, .. } => {
                *gap < usize::MAX && self.frame_count() <= usize::MAX - 1 - *gap
            },
            Msg::SetKeymap(map) => {
                map.binds.len() == ACTION_COUNT && map.modals.len() == MODAL_COUNT
            },
            _ => true,
        }
    }

    /// Carry out a message.
    #[verifier::rlimit(60)]
    pub fn update(&mut self, msg: Msg, aid: &Aid) -> (r: Effect)
        requires
            old(self).wf(),
            old(self)@.roomy(),
            old(self)@.fits(msg, *aid),
        ensures
            old(self)@.answered(msg, *aid, final(self)@, r@),
            old(self)@.blocked(msg) || pictures_fit(old(self)@, msg),
            final(self).wf(),
    {
        let ghost before = self@;
        let ghost asked = msg;
        let r = self.carry_out(msg, aid);
        proof {
            crate::app_laws::law_messages_keep_the_app_sound(before, asked, *aid, self@, r@);
        }
        r
    }

    #[verifier::rlimit(60)]
    fn carry_out(&mut self, msg: Msg, aid: &Aid) -> (r: Effect)
        requires
            old(self).wf(),
            old(self)@.roomy(),
            old(self)@.fits(msg, *aid),
        ensures
            old(self)@.answered(msg, *aid, final(self)@, r@),
            old(self)@.blocked(msg) || pictures_fit(old(self)@, msg),
    {
        if self.blocks(&msg) {
            return Effect::Nothing;
        }
        match msg {
            Msg::Open => Effect::OpenDialog,
            Msg::Load => {
                self.begin_import(false);
                Effect::PlanImport
            },
            Msg::LoadAppend => self.load_append(),
            Msg::ImportMore => Effect::ImportMoreDialog,
            Msg::LoadConfirmed => {
                let append = self.import_append;
                self.begin_import(append);
                Effect::StartLoad
            },
            Msg::CancelImport => self.cancel_import(),
            Msg::Estimate(rev) => self.estimate_now(rev),
            Msg::Export => {
                if self.frame_count() == 0 {
                    return Effect::Nothing;
                }
                Effect::ExportDialog
            },
            Msg::Undo => {
                self.undo();
                Effect::Nothing
            },
            Msg::Redo => {
                self.redo();
                Effect::Nothing
            },
            Msg::TogglePlay => self.toggle_play(),
            Msg::Tick => self.tick(),
            Msg::Seek(i) => {
                self.seek(i);
                Effect::Nothing
            },
            Msg::ExtendSelection(i) => {
                self.extend_selection(i);
                Effect::Nothing
            },
            Msg::ToggleSelection(i) => {
                self.toggle_selection(i);
                Effect::Nothing
            },
            Msg::SetScope(choice) => {
                self.set_scope(choice);
                Effect::Nothing
            },
            Msg::AddOverlay(tool) => self.add_overlay(tool, aid.spot, aid.size_px),
            Msg::SelectOverlay(id) => {
                self.select_overlay(id);
                Effect::Nothing
            },
            Msg::EditText(text) => {
                match self.selected_overlay {
                    Some(id) => self.edit_text(id, text),
                    None => {},
                }
                Effect::Nothing
            },
            Msg::DeleteSelection => self.delete_selection(),
            Msg::DeleteOverlay(id) => self.delete_overlay(id),
            Msg::RestackOverlay { id, up } => {
                self.restack_overlay(id, up);
                Effect::Nothing
            },
            Msg::FrameCopy => self.copy_scope(),
            Msg::FramePaste => self.paste(),
            Msg::FrameOp(op) => {
                let frames = self.scope_frames();
                self.run_frame_op(op, &frames)
            },
            Msg::SeekKeepSelection(i) => {
                self.playhead = at_most_last(i, self.frame_count());
                Effect::Nothing
            },
            Msg::MoveSelection { earlier } => self.nudge(earlier),
            Msg::MoveSelectionTo { from, gap } => self.drop_at(from, gap),
            Msg::InsertImageFrame(index, img) => self.insert_image(index, img),
            Msg::AppendImageFrame(img) => self.append_image(img),
            Msg::MoveFrame(from, to) => self.move_frame(from, to),
            Msg::MoveFrameDialog(i) => self.ask_move(i),
            Msg::SetScopeDelay(cs) => self.set_scope_delay(cs),
            Msg::DelayAllDialog => self.ask_delay(),
            Msg::SetAllFramesDelay(cs) => self.set_all_delay(cs),
            Msg::SelectAllFrames => {
                self.select_all();
                Effect::Nothing
            },
            Msg::ToggleBandsExpanded => {
                self.bands_expanded = !self.bands_expanded;
                Effect::Nothing
            },
            Msg::SetOverlayProp(prop) => {
                self.set_prop(prop, aid.resized);
                Effect::Nothing
            },
            Msg::ToggleCropTool => {
                self.toggle_crop();
                Effect::Nothing
            },
            Msg::Escape => {
                self.escape();
                Effect::Nothing
            },
            Msg::CanvasPress { x, y, state } => {
                self.press(x, y, state, &aid.inside, aid.grip);
                Effect::Nothing
            },
            Msg::CanvasDrag { .. } => {
                self.drag_to(aid.away, aid.dragged, aid.crop);
                Effect::Nothing
            },
            Msg::CanvasRelease => self.release(),
            Msg::ApplyCrop => self.apply_crop(aid.rect),
            Msg::ApplyZoom => {
                let frames = self.zoom_frames(false);
                self.start_zoom(frames, aid.rect)
            },
            Msg::ApplyZoomAll => {
                let frames = self.zoom_frames(true);
                self.start_zoom(frames, aid.rect)
            },
            Msg::ApplyShrink => self.start_shrink(aid.rect),
            Msg::CropAllDialog => self.ask_crop(),
            Msg::CropAll(x, y, w, h) => self.start_crop(Rect { x, y, w, h }),
            Msg::DropEveryNth(every) => self.drop_every_nth(every),
            Msg::SmartDrop(percent) => self.smart_drop(percent),
            Msg::Resize(w, h) => self.resize(w, h),
            Msg::SetKeymap(map) => {
                self.keymap = map;
                Effect::SaveKeymap
            },
            Msg::Toast(text) => Effect::Show { text, undo: true },
            Msg::Notice(text) => Effect::Show { text, undo: false },
            Msg::StripZoom(step) => Effect::StripZoom(step),
        }
    }
}

} // verus!
