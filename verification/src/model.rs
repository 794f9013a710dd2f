//! Document model. The whole point is `Overlay::range`: an edit knows which
//! frames it applies to.

use std::ops::Range;
use std::sync::Arc;

use vstd::prelude::*;

use crate::raster::{
    drawable, resampled, resize, Filter, Picture, Raster, Rgba8, SIDE_LIMIT,
};
use crate::rounding::{
    divide_single, lemma_rounded_single, lemma_whole_single, nearest_single, rounded_single,
    whole_single,
};
use crate::single::{same_number, Single, THIRTY_TWO_BITS, TWO_BITS, ZERO_BITS};

verus! {

/// Width of the filmstrip thumbnail. Lives here because the thumbnail is built
/// where the frame is, off the main thread.
pub const THUMB_W: u32 = 72;

/// Where frames get their keys. One source serves every frame of a program.
#[derive(Debug)]
pub struct FrameKeys {
    pub next: u64,
}

impl FrameKeys {
    pub fn new() -> (r: FrameKeys)
        ensures
            r.next == 0,
    {
        FrameKeys { next: 0 }
    }

    /// The next key. Keys are handed out in order and start over after the
    /// last one.
    pub fn take(&mut self) -> (key: u64)
        ensures
            key == old(self).next,
            final(self).next == next_key(old(self).next),
    {
        let key: u64 = self.next;
        self.next = if key == u64::MAX {
            0
        } else {
            key + 1
        };
        key
    }
}

/// The key handed out after `key`.
pub open spec fn next_key(key: u64) -> u64 {
    if key == u64::MAX {
        0
    } else {
        (key + 1) as u64
    }
}

/// Frame pixels are shared, not copied: history snapshots the whole document
/// (see `history::Editor`) and frame-list ops must stay cheap at 300 frames.
#[derive(Debug)]
pub struct Frame {
    pub pixels: Arc<Raster>,
    pub delay_cs: u16,
    /// Came back from an external editor; overlays skip it.
    pub detached: bool,
    /// Filmstrip thumbnail, and whether every pixel is fully opaque. Both are
    /// settled at construction, on whatever thread decoded the frame.
    pub thumb: Arc<Raster>,
    pub opaque: bool,
    /// Identity for view caches. Two frames with the same key have the same
    /// pixels, because the only way to get one is to clone the other.
    pub key: u64,
}

/// What a `Frame` holds.
pub struct FrameView {
    pub pixels: Picture,
    pub delay_cs: u16,
    pub detached: bool,
    pub thumb: Picture,
    pub opaque: bool,
    pub key: u64,
}

/// Height of the thumbnail of a `w` by `h` picture: the height that keeps the
/// picture's shape at `THUMB_W` wide, worked out in single precision, rounded to
/// the nearest pixel with halves up, and at least one.
pub open spec fn thumb_height(w: int, h: int) -> int {
    let wide = if w < 1 {
        1
    } else {
        w
    };
    let tall = rounded_single(
        whole_single(THUMB_W * whole_single(h, 1), 1),
        whole_single(wide, 1),
    );
    if tall < 1 {
        1
    } else {
        tall
    }
}

/// Height of the thumbnail of a `w` by `h` picture.
pub fn thumb_rows(w: u32, h: u32) -> (r: u64)
    ensures
        r == thumb_height(w as int, h as int),
{
    let wide: u64 = if w < 1 {
        1
    } else {
        w as u64
    };
    proof {
        lemma_whole_single(h as int, 1);
        lemma_whole_single(THUMB_W * whole_single(h as int, 1), 1);
        lemma_whole_single(wide as int, 1);
    }
    let tall: u64 = divide_single(
        nearest_single(THUMB_W as u64 * nearest_single(h as u64)),
        nearest_single(wide),
    );
    if tall < 1 {
        1
    } else {
        tall
    }
}

/// The thumbnail of a picture.
pub open spec fn thumbnail(pixels: Picture) -> Picture {
    resampled(
        pixels,
        THUMB_W,
        thumb_height(pixels.width as int, pixels.height as int) as u32)
}

/// The frame that `Frame::new` builds.
pub open spec fn new_frame(pixels: Picture, delay_cs: u16, key: u64) -> FrameView {
    FrameView {
        pixels,
        delay_cs,
        detached: false,
        thumb: thumbnail(pixels),
        opaque: pixels.opaque(),
        key,
    }
}

impl FrameView {
    /// The pixels are a whole picture of a size that can be resampled, and the
    /// thumbnail and the opacity flag are the ones of those pixels.
    pub open spec fn wf(self) -> bool {
        &&& self.pixels.wf()
        &&& self.pixels.within_limit()
        &&& self.thumb == thumbnail(self.pixels)
        &&& self.thumb.wf()
        &&& self.thumb.width == THUMB_W
        &&& self.thumb.height == thumb_height(self.pixels.width as int, self.pixels.height as int)
        &&& self.opaque == self.pixels.opaque()
    }

    /// The same frame shown for another time.
    pub open spec fn with_delay(self, delay_cs: u16) -> FrameView {
        FrameView { delay_cs, ..self }
    }

    /// The same frame, attached to the overlays or not.
    pub open spec fn with_detached(self, detached: bool) -> FrameView {
        FrameView { detached, ..self }
    }
}

impl View for Frame {
    type V = FrameView;

    open spec fn view(&self) -> FrameView {
        FrameView {
            pixels: self.pixels@,
            delay_cs: self.delay_cs,
            detached: self.detached,
            thumb: self.thumb@,
            opaque: self.opaque,
            key: self.key,
        }
    }
}

/// How many bytes a row adds at most to the thumbnail of a picture that is no
/// taller than the resampler enlarges.
pub const THUMB_ROW_BYTES: u64 = 21024;

/// How many bytes a row or a column of one adds at most to what the resampler
/// fills on the way there.
pub const THUMB_WAY_BYTES: u64 = 1296;

/// A picture that is no taller than the resampler enlarges can be a frame, if
/// there can be the memory.
pub proof fn lemma_drawable(w: int, h: int)
    requires
        0 <= w <= u32::MAX,
        0 <= h <= SIDE_LIMIT,
        h * THUMB_ROW_BYTES <= isize::MAX,
        (w + h) * THUMB_WAY_BYTES <= isize::MAX,
    ensures
        drawable(w, h),
{
    let wide = if w < 1 {
        1
    } else {
        w
    };
    lemma_whole_single(h, 1);
    let top = whole_single(THUMB_W * h, 1);
    let around = whole_single(wide, 1);
    let tall = rounded_single(top, around);
    let t = thumb_height(w, h);
    lemma_whole_single(THUMB_W * h, 1);
    lemma_whole_single(wide, 1);
    lemma_rounded_single(top, around);
    assert(THUMB_W * h == 72 * h);
    // below two to the 24th the product is exact, and past it off by four
    assert(top <= 72 * h + 4);
    assert(72 * h < 0x100_0000 ==> top == 72 * h);
    let area = around * tall;
    assert(area <= top + around + 4);
    assert(w * t <= 72 * h + 5 * wide + 9) by {
        if tall < 1 {
            assert(w * t == w);
        } else if wide < 0x100_0000 {
            assert(w * tall <= area) by (nonlinear_arith)
                requires
                    w <= around,
                    0 <= tall,
                    area == around * tall,
            ;
        } else {
            assert(around >= 0xff_ffff);
            assert(tall <= 5) by (nonlinear_arith)
                requires
                    around * tall <= top + around + 4,
                    around >= 0xff_ffff,
                    top <= 72 * 1048576 + 4,
            ;
            assert(w * tall <= 5 * w) by (nonlinear_arith)
                requires
                    tall <= 5,
                    0 <= w,
            ;
        }
    }
    if w + h > 0 {
        assert(w * t * 16 <= isize::MAX) by (nonlinear_arith)
            requires
                w * t <= 72 * h + 5 * wide + 9,
                wide <= w + 1,
                (w + h) * THUMB_WAY_BYTES <= isize::MAX,
                THUMB_WAY_BYTES == 1296,
                w + h > 0,
                0 <= w,
                0 <= h,
        ;
    } else {
        assert(w * t * 16 == 0) by (nonlinear_arith)
            requires
                w == 0,
        ;
    }
    if tall >= 1 && h >= 1 {
        // one wide: the height is THUMB_W times the picture's; any wider and
        // it is less
        assert(tall <= top + 5) by (nonlinear_arith)
            requires
                around * tall <= top + around + 4,
                around >= 1,
                top >= 0,
        ;
        assert(tall <= 73 * h) by {
            if top < 0x100_0000 {
                assert(tall <= top + 1) by (nonlinear_arith)
                    requires
                        0x100_0000 * (around * tall) <= 0x100_0000 * (top + around) + top,
                        around >= 1,
                        0 <= top < 0x100_0000,
                ;
            }
        }
        assert(THUMB_W * t * 4 <= h * THUMB_ROW_BYTES) by (nonlinear_arith)
            requires
                t <= 73 * h,
                THUMB_W == 72,
                THUMB_ROW_BYTES == 21024,
        ;
    } else if tall >= 1 {
        assert(top == 0);
        assert(tall <= 1) by (nonlinear_arith)
            requires
                0x100_0000 * (around * tall) <= 0x100_0000 * around,
                around >= 1,
        ;
    }
}

impl Frame {
    pub open spec fn wf(&self) -> bool {
        self@.wf()
    }

    pub fn new(pixels: Raster, delay_cs: u16, keys: &mut FrameKeys) -> (r: Frame)
        requires
            pixels.wf(),
            pixels@.within_limit(),
        ensures
            r@ == new_frame(pixels@, delay_cs, old(keys).next),
            r.wf(),
            final(keys).next == next_key(old(keys).next),
    {
        let thumb_h: u32 = thumb_rows(pixels.width, pixels.height) as u32;
        let thumb = resize(&pixels, THUMB_W, thumb_h, Filter::Triangle);
        let opaque = pixels.opaque();
        Frame {
            pixels: Arc::new(pixels),
            delay_cs,
            detached: false,
            thumb: Arc::new(thumb),
            opaque,
            key: keys.take(),
        }
    }
}

impl Clone for Frame {
    fn clone(&self) -> (r: Frame)
        ensures
            r == *self,
    {
        Frame {
            pixels: self.pixels.clone(),
            delay_cs: self.delay_cs,
            detached: self.detached,
            thumb: self.thumb.clone(),
            opaque: self.opaque,
            key: self.key,
        }
    }
}

/// `thumb` and `opaque` are functions of the pixels and `key` is bookkeeping,
/// so equality is the pixels, the delay and the detached flag.
pub open spec fn same_frame(a: FrameView, b: FrameView) -> bool {
    a.delay_cs == b.delay_cs && a.detached == b.detached && a.pixels == b.pixels
}

impl PartialEq for Frame {
    fn eq(&self, other: &Frame) -> (r: bool) {
        self.delay_cs == other.delay_cs && self.detached == other.detached && self.pixels.same(
            &other.pixels,
        )
    }
}

impl vstd::std_specs::cmp::PartialEqSpecImpl for Frame {
    open spec fn obeys_eq_spec() -> bool {
        true
    }

    open spec fn eq_spec(&self, other: &Frame) -> bool {
        same_frame(self@, other@)
    }
}

/// Oriented box: un-rotated rect plus an angle, never a baked matrix.
#[derive(Clone, Copy, Debug)]
pub struct Transform {
    pub x: Single,
    pub y: Single,
    pub w: Single,
    pub h: Single,
    /// Radians, clockwise, about the rect's center.
    pub angle: Single,
}

/// Two boxes are the same box: the same numbers, field by field.
pub open spec fn same_transform(a: Transform, b: Transform) -> bool {
    &&& same_number(a.x, b.x)
    &&& same_number(a.y, b.y)
    &&& same_number(a.w, b.w)
    &&& same_number(a.h, b.h)
    &&& same_number(a.angle, b.angle)
}

impl Transform {
    /// An upright box.
    pub fn at(x: Single, y: Single, w: Single, h: Single) -> (r: Transform)
        ensures
            r == (Transform { x, y, w, h, angle: Single { bits: ZERO_BITS } }),
    {
        Transform { x, y, w, h, angle: Single { bits: ZERO_BITS } }
    }
}

impl PartialEq for Transform {
    fn eq(&self, other: &Transform) -> (r: bool) {
        self.x.same(other.x) && self.y.same(other.y) && self.w.same(other.w) && self.h.same(other.h)
            && self.angle.same(other.angle)
    }
}

impl vstd::std_specs::cmp::PartialEqSpecImpl for Transform {
    open spec fn obeys_eq_spec() -> bool {
        true
    }

    open spec fn eq_spec(&self, other: &Transform) -> bool {
        same_transform(*self, *other)
    }
}

/// Pango carries justification as a flag beside the alignment, but for a
/// caption box the four are one choice, so they are one enum here.
#[derive(Clone, Copy, PartialEq, Eq, Debug, Structural)]
pub enum TextAlign {
    Left,
    Center,
    Right,
    Justify,
}

impl Default for TextAlign {
    fn default() -> (r: TextAlign)
        ensures
            r == TextAlign::Center,
    {
        TextAlign::Center
    }
}

/// A color and a line width.
pub type Line = (Rgba8, Single);

#[derive(Debug)]
pub struct TextOverlay {
    pub text: String,
    pub font: String,
    pub size_px: Single,
    pub color: Rgba8,
    /// Outline color and width, the readable-over-anything default.
    pub outline: Option<Line>,
    pub align: TextAlign,
    /// Smooth glyph edges. On, because a caption is read, not counted; off is
    /// for pixel-art captures where a soft edge is the wrong look and costs
    /// palette entries besides.
    pub antialias: bool,
}

impl Default for TextOverlay {
    fn default() -> (r: TextOverlay)
        ensures
            r.text@ == Seq::<char>::empty(),
            r.font@ == "Sans Bold"@,
            r.size_px.bits == THIRTY_TWO_BITS,
            r.color@ == seq![255u8, 255, 255, 255],
            r.outline matches Some(line) && line.0@ == seq![0u8, 0, 0, 255] && line.1.bits
                == TWO_BITS,
            r.align == TextAlign::Center,
            r.antialias,
    {
        let color: Rgba8 = [255, 255, 255, 255];
        let black: Rgba8 = [0, 0, 0, 255];
        assert(color@ =~= seq![255u8, 255, 255, 255]);
        assert(black@ =~= seq![0u8, 0, 0, 255]);
        TextOverlay {
            text: String::new(),
            font: "Sans Bold".to_owned(),
            size_px: Single { bits: THIRTY_TWO_BITS },
            color,
            outline: Some((black, Single { bits: TWO_BITS })),
            align: TextAlign::default(),
            antialias: true,
        }
    }
}

#[derive(Clone, Copy, PartialEq, Eq, Debug, Structural)]
pub enum Shape {
    Rect,
    Ellipse,
    Arrow,
}

#[derive(Clone, Copy, Debug)]
pub struct ShapeOverlay {
    pub shape: Shape,
    pub fill: Option<Rgba8>,
    pub stroke: Option<Line>,
}

#[derive(Debug)]
pub struct ImageOverlay {
    pub pixels: Arc<Raster>,
}

#[derive(Debug)]
pub enum OverlayKind {
    Text(TextOverlay),
    Shape(ShapeOverlay),
    Image(ImageOverlay),
}

#[derive(Clone, Copy, PartialEq, Eq, Hash, Debug, Structural)]
pub struct OverlayId(pub u32);

#[derive(Debug)]
pub struct Overlay {
    pub id: OverlayId,
    pub name: String,
    pub kind: OverlayKind,
    /// The frames this overlay appears on.
    pub range: Range<usize>,
    pub transform: Transform,
    pub opacity: Single,
    pub hidden: bool,
}

/// The same color.
pub open spec fn same_color(a: Rgba8, b: Rgba8) -> bool {
    a@ == b@
}

/// The same fill, or none on both sides.
pub open spec fn same_fill(a: Option<Rgba8>, b: Option<Rgba8>) -> bool {
    match (a, b) {
        (Some(a), Some(b)) => same_color(a, b),
        (None, None) => true,
        _ => false,
    }
}

/// The same outline or stroke, or none on both sides.
pub open spec fn same_line(a: Option<Line>, b: Option<Line>) -> bool {
    match (a, b) {
        (Some(a), Some(b)) => same_color(a.0, b.0) && same_number(a.1, b.1),
        (None, None) => true,
        _ => false,
    }
}

/// Two overlays draw the same thing.
pub open spec fn same_kind(a: OverlayKind, b: OverlayKind) -> bool {
    match (a, b) {
        (OverlayKind::Text(a), OverlayKind::Text(b)) => {
            &&& a.text@ == b.text@
            &&& a.font@ == b.font@
            &&& same_number(a.size_px, b.size_px)
            &&& same_color(a.color, b.color)
            &&& same_line(a.outline, b.outline)
            &&& a.align == b.align
            &&& a.antialias == b.antialias
        },
        (OverlayKind::Shape(a), OverlayKind::Shape(b)) => {
            &&& a.shape == b.shape
            &&& same_fill(a.fill, b.fill)
            &&& same_line(a.stroke, b.stroke)
        },
        (OverlayKind::Image(a), OverlayKind::Image(b)) => a.pixels@ == b.pixels@,
        _ => false,
    }
}

/// Two overlays are the same in everything but their id and their frames.
pub open spec fn same_look(a: Overlay, b: Overlay) -> bool {
    &&& a.name@ == b.name@
    &&& same_kind(a.kind, b.kind)
    &&& same_transform(a.transform, b.transform)
    &&& same_number(a.opacity, b.opacity)
    &&& a.hidden == b.hidden
}

pub fn colors_equal(a: Rgba8, b: Rgba8) -> (r: bool)
    ensures
        r == same_color(a, b),
{
    let r = a[0] == b[0] && a[1] == b[1] && a[2] == b[2] && a[3] == b[3];
    assert(r ==> a@ =~= b@);
    r
}

pub fn fills_equal(a: Option<Rgba8>, b: Option<Rgba8>) -> (r: bool)
    ensures
        r == same_fill(a, b),
{
    match (a, b) {
        (Some(a), Some(b)) => colors_equal(a, b),
        (None, None) => true,
        _ => false,
    }
}

pub fn lines_equal(a: Option<Line>, b: Option<Line>) -> (r: bool)
    ensures
        r == same_line(a, b),
{
    match (a, b) {
        (Some(a), Some(b)) => colors_equal(a.0, b.0) && a.1.same(b.1),
        (None, None) => true,
        _ => false,
    }
}

impl PartialEq for OverlayKind {
    fn eq(&self, other: &OverlayKind) -> (r: bool) {
        match (self, other) {
            (OverlayKind::Text(a), OverlayKind::Text(b)) => a.text == b.text && a.font == b.font
                && a.size_px.same(b.size_px) && colors_equal(a.color, b.color) && lines_equal(
                a.outline,
                b.outline,
            ) && a.align == b.align && a.antialias == b.antialias,
            (OverlayKind::Shape(a), OverlayKind::Shape(b)) => a.shape == b.shape && fills_equal(
                a.fill,
                b.fill,
            ) && lines_equal(a.stroke, b.stroke),
            (OverlayKind::Image(a), OverlayKind::Image(b)) => a.pixels.same(&b.pixels),
            _ => false,
        }
    }
}

impl vstd::std_specs::cmp::PartialEqSpecImpl for OverlayKind {
    open spec fn obeys_eq_spec() -> bool {
        true
    }

    open spec fn eq_spec(&self, other: &OverlayKind) -> bool {
        same_kind(*self, *other)
    }
}

impl Clone for OverlayKind {
    fn clone(&self) -> (r: OverlayKind)
        ensures
            r == *self,
    {
        match self {
            OverlayKind::Text(t) => OverlayKind::Text(
                TextOverlay {
                    text: t.text.clone(),
                    font: t.font.clone(),
                    size_px: t.size_px,
                    color: t.color,
                    outline: t.outline,
                    align: t.align,
                    antialias: t.antialias,
                },
            ),
            OverlayKind::Shape(s) => OverlayKind::Shape(*s),
            OverlayKind::Image(i) => OverlayKind::Image(ImageOverlay { pixels: i.pixels.clone() }),
        }
    }
}

impl Clone for Overlay {
    fn clone(&self) -> (r: Overlay)
        ensures
            r == *self,
    {
        Overlay {
            id: self.id,
            name: self.name.clone(),
            kind: self.kind.clone(),
            range: self.range.start..self.range.end,
            transform: self.transform,
            opacity: self.opacity,
            hidden: self.hidden,
        }
    }
}

impl PartialEq for Overlay {
    fn eq(&self, other: &Overlay) -> (r: bool) {
        self.id == other.id && self.range.start == other.range.start && self.range.end
            == other.range.end && self.looks_like(other)
    }
}

impl vstd::std_specs::cmp::PartialEqSpecImpl for Overlay {
    open spec fn obeys_eq_spec() -> bool {
        true
    }

    open spec fn eq_spec(&self, other: &Overlay) -> bool {
        &&& self.id == other.id
        &&& self.range.start == other.range.start
        &&& self.range.end == other.range.end
        &&& same_look(*self, *other)
    }
}

impl Overlay {
    /// Whether the overlay lies on frame `i`.
    pub open spec fn covers(self, i: int) -> bool {
        self.range.start <= i < self.range.end
    }

    /// The same overlay on other frames.
    pub open spec fn on(self, range: Range<usize>) -> Overlay {
        Overlay { range, ..self }
    }

    /// Whether the two are the same but for their id and their frames.
    pub fn looks_like(&self, other: &Overlay) -> (r: bool)
        ensures
            r == same_look(*self, *other),
    {
        self.name == other.name && self.kind == other.kind && self.transform == other.transform
            && self.opacity.same(other.opacity) && self.hidden == other.hidden
    }
}

} // verus!
