//! Compositing. The invariant: a frame's output is a pure function of its
//! pixels plus the overlays whose range contains it. Nothing is baked in as a
//! side effect.

use vstd::prelude::*;

use crate::document::{painting, DocView, Document};
use crate::model::{Overlay, ShapeOverlay};
use crate::raster::{
    can_resample, channel_at, offset, resampled, resizable, resize, Filter, Picture, Raster, Rgba8,
};
use crate::update::lemma_painting_places;

verus! {

/// The overlays to stamp on frame `index`, bottom-to-top, by their place in
/// the z-order: none on a detached frame, and no answer past the end.
pub open spec fn paint_order(doc: DocView, index: int) -> Option<Seq<usize>> {
    if index >= doc.frames.len() {
        None
    } else if doc.frames[index].detached {
        Some(seq![])
    } else {
        Some(painting(doc.overlays, index))
    }
}

/// What to stamp on a frame's pixels to composite it. Once a frame is
/// detached its pixels are just pixels, and overlays covering it skip it.
pub fn paint_list(doc: &Document, index: usize) -> (r: Option<Vec<usize>>)
    ensures
        match r {
            Some(list) => paint_order(doc@, index as int) == Some(list@),
            None => paint_order(doc@, index as int) is None,
        },
{
    if index >= doc.frames.len() {
        return None;
    }
    assert(doc@.frames[index as int] == doc.frames@[index as int]@);
    if doc.frames[index].detached {
        let none: Vec<usize> = Vec::new();
        assert(none@ =~= seq![]);
        return Some(none);
    }
    Some(doc.overlays_on(index))
}

/// Whether `end` is what stamping the overlays at `places` on `start`, in that
/// order, makes of it.
pub open spec fn layered<S: Fn(Raster, &Overlay) -> Raster>(
    stamp: S,
    overlays: Seq<Overlay>,
    places: Seq<usize>,
    start: Picture,
    end: Raster,
) -> bool
    decreases places.len(),
{
    if places.len() == 0 {
        end@ == start
    } else {
        exists|under: Raster| #[trigger]
            call_ensures(stamp, (under, &overlays[places.last() as int]), end) && layered(
                stamp,
                overlays,
                places.drop_last(),
                start,
                under,
            )
    }
}

/// Whether stamping keeps a picture whole and of its size.
pub open spec fn keeps_size<S: Fn(Raster, &Overlay) -> Raster>(stamp: S) -> bool {
    &&& forall|under: Raster, o: &Overlay|
        under.wf() ==> #[trigger] call_requires(stamp, (under, o))
    &&& forall|under: Raster, o: &Overlay, over: Raster|
        under.wf() && #[trigger] call_ensures(stamp, (under, o), over) ==> over.wf() && over.width
            == under.width && over.height == under.height
}

/// Whether `r` is frame `index` of the document with its overlays on it.
pub open spec fn composited<S: Fn(Raster, &Overlay) -> Raster>(
    doc: DocView,
    index: int,
    stamp: S,
    r: Raster,
) -> bool {
    match paint_order(doc, index) {
        Some(places) => layered(stamp, doc.overlays, places, doc.frames[index].pixels, r),
        None => false,
    }
}

/// Frame `index` with the overlays whose range contains it stamped on its
/// pixels, bottom-to-top. Nothing is baked in: the document stays as it is.
pub fn composite<S: Fn(Raster, &Overlay) -> Raster>(doc: &Document, index: usize, stamp: &S) -> (r:
    Option<Raster>)
    requires
        doc@.frames_sound(),
        keeps_size(*stamp),
    ensures
        match r {
            Some(img) => {
                &&& composited(doc@, index as int, *stamp, img)
                &&& img.wf()
                &&& img.width == doc@.frames[index as int].pixels.width
                &&& img.height == doc@.frames[index as int].pixels.height
            },
            None => index >= doc@.frames.len(),
        },
{
    let places = match paint_list(doc, index) {
        Some(places) => places,
        None => {
            return None;
        },
    };
    let ghost start = doc@.frames[index as int].pixels;
    assert(doc@.frames[index as int].wf());
    assert(doc@.frames[index as int] == doc.frames@[index as int]@);
    assert(doc.overlays.len() == doc@.overlays.len());
    proof {
        lemma_painting_places(doc@.overlays, index as int);
    }
    let mut out = doc.frames[index].pixels.copy();
    let mut k: usize = 0;
    while k < places.len()
        invariant
            k <= places@.len(),
            keeps_size(*stamp),
            forall|k: int| 0 <= k < places@.len() ==> #[trigger] places@[k] < doc.overlays@.len(),
            layered(*stamp, doc.overlays@, places@.take(k as int), start, out),
            out.wf(),
            out.width == start.width,
            out.height == start.height,
        decreases places@.len() - k,
    {
        let ghost under = out;
        assert(places@.take(k + 1).drop_last() =~= places@.take(k as int));
        assert(places@.take(k + 1).last() == places@[k as int]);
        assert(layered(*stamp, doc.overlays@, places@.take(k + 1).drop_last(), start, under));
        let at: usize = places[k];
        let over = (*stamp)(out, &doc.overlays[at]);
        assert(call_ensures(*stamp, (under, &doc.overlays@[at as int]), over));
        assert(layered(*stamp, doc.overlays@, places@.take(k + 1), start, over));
        out = over;
        k = k + 1;
    }
    assert(places@.take(k as int) =~= places@);
    Some(out)
}

/// Each of the frames at `indices` with its overlays on it.
pub fn composite_all<S: Fn(Raster, &Overlay) -> Raster>(
    doc: &Document,
    indices: &Vec<usize>,
    stamp: &S,
) -> (r: Vec<Raster>)
    requires
        doc@.frames_sound(),
        keeps_size(*stamp),
        forall|k: int| 0 <= k < indices@.len() ==> #[trigger] indices@[k] < doc@.frames.len(),
    ensures
        r@.len() == indices@.len(),
        forall|k: int|
            0 <= k < r@.len() ==> composited(
                doc@,
                indices@[k] as int,
                *stamp,
                #[trigger] r@[k],
            ) && r@[k].wf() && r@[k].width == doc@.frames[indices@[k] as int].pixels.width
                && r@[k].height == doc@.frames[indices@[k] as int].pixels.height,
{
    let mut r: Vec<Raster> = Vec::new();
    let mut k: usize = 0;
    while k < indices.len()
        invariant
            k <= indices@.len(),
            doc@.frames_sound(),
            keeps_size(*stamp),
            forall|k: int| 0 <= k < indices@.len() ==> #[trigger] indices@[k] < doc@.frames.len(),
            r@.len() == k,
            forall|j: int|
                0 <= j < r@.len() ==> composited(
                    doc@,
                    indices@[j] as int,
                    *stamp,
                    #[trigger] r@[j],
                ) && r@[j].wf() && r@[j].width == doc@.frames[indices@[j] as int].pixels.width
                    && r@[j].height == doc@.frames[indices@[j] as int].pixels.height,
        decreases indices@.len() - k,
    {
        assert(indices@[k as int] < doc@.frames.len());
        match composite(doc, indices[k], stamp) {
            Some(img) => {
                r.push(img);
            },
            None => {},
        }
        k = k + 1;
    }
    r
}

/// A picture scaled to the box it is shown in, if it can be.
pub fn scaled(pixels: &Raster, w: u32, h: u32) -> (r: Option<Raster>)
    requires
        pixels.wf(),
    ensures
        match r {
            Some(picture) => {
                &&& resizable(pixels.width as int, pixels.height as int, w as int, h as int)
                &&& picture.wf()
                &&& picture@ == resampled(pixels@, w, h)
            },
            None => !resizable(pixels.width as int, pixels.height as int, w as int, h as int),
        },
{
    if can_resample(pixels.width, pixels.height, w, h) {
        Some(resize(pixels, w, h, Filter::Triangle))
    } else {
        None
    }
}

/// A text rasterizer that draws nothing, for documents shown without fonts.
pub fn no_text(w: u32, h: u32) -> (r: Raster)
    requires
        (if w < 1 {
            1
        } else {
            w as int
        }) * (if h < 1 {
            1
        } else {
            h as int
        }) * 4 <= usize::MAX,
    ensures
        r.wf(),
        r@ == Picture::blank(
            if w < 1 {
                1
            } else {
                w
            },
            if h < 1 {
                1
            } else {
                h
            },
        ),
{
    let w: u32 = if w < 1 {
        1
    } else {
        w
    };
    let h: u32 = if h < 1 {
        1
    } else {
        h
    };
    Raster::blank(w, h)
}

/// The color of a shape at a pixel of it: on the edge the stroke's, or the
/// fill's where there is no stroke; inside it the fill's.
pub open spec fn picked(o: ShapeOverlay, on_edge: bool) -> Option<Rgba8> {
    match o.stroke {
        Some((color, _)) if on_edge => Some(color),
        _ => o.fill,
    }
}

pub fn pick(o: &ShapeOverlay, on_edge: bool) -> (r: Option<Rgba8>)
    ensures
        r == picked(*o, on_edge),
{
    if on_edge {
        match o.stroke {
            Some((color, _)) => Some(color),
            None => o.fill,
        }
    } else {
        o.fill
    }
}

/// What a shape paints: nothing outside of it, and nothing where the color
/// for the place is unset.
pub open spec fn shape_byte(o: ShapeOverlay, place: Option<bool>, c: int) -> u8 {
    match place {
        None => 0,
        Some(on_edge) => match picked(o, on_edge) {
            Some(color) => color@[c],
            None => 0,
        },
    }
}

/// Paint a shape, given where its pixels lie: on its edge, inside it, or
/// outside of it.
pub fn paint_shape<E: Fn(u32, u32) -> Option<bool>>(
    o: &ShapeOverlay,
    w: u32,
    h: u32,
    place: E,
) -> (r: Raster)
    requires
        w * h * 4 <= usize::MAX,
        forall|x: u32, y: u32| x < w && y < h ==> #[trigger] call_requires(place, (x, y)),
    ensures
        r.wf(),
        r.width == w,
        r.height == h,
        forall|x: u32, y: u32|
            x < w && y < h ==> #[trigger] shape_painted(r@, *o, place, x, y),
{
    let mut data: Vec<u8> = Vec::new();
    let ghost mut places: Seq<Option<bool>> = seq![];
    let mut y: u32 = 0;
    assert(0 * (w as int) * 4 == 0) by (nonlinear_arith);
    assert(0 * (w as int) == 0) by (nonlinear_arith);
    while y < h
        invariant
            y <= h,
            data@.len() == offset(w as int, 0, y as int),
            places.len() == y * w,
            forall|x: u32, y: u32| x < w && y < h ==> #[trigger] call_requires(place, (x, y)),
            forall|i: int, j: int|
                0 <= i < w && 0 <= j < y ==> painted(data@, places, *o, place, w, i, j),
        decreases h - y,
    {
        let mut x: u32 = 0;
        while x < w
            invariant
                x <= w,
                y < h,
                data@.len() == offset(w as int, x as int, y as int),
                places.len() == y * w + x,
                forall|x: u32, y: u32| x < w && y < h ==> #[trigger] call_requires(place, (x, y)),
                forall|i: int, j: int|
                    0 <= i < w && 0 <= j && (j < y || (j == y && i < x)) ==> painted(
                        data@,
                        places,
                        *o,
                        place,
                        w,
                        i,
                        j,
                    ),
            decreases w - x,
        {
            let ghost before = data@;
            let ghost old_places = places;
            let p = place(x, y);
            let color: Rgba8 = match p {
                Some(on_edge) => match pick(o, on_edge) {
                    Some(color) => color,
                    None => [0, 0, 0, 0],
                },
                None => [0, 0, 0, 0],
            };
            data.push(color[0]);
            data.push(color[1]);
            data.push(color[2]);
            data.push(color[3]);
            proof {
                places = old_places.push(p);
                assert forall|i: int, j: int|
                    0 <= i < w && 0 <= j && (j < y || (j == y && i <= x)) implies painted(
                    data@,
                    places,
                    *o,
                    place,
                    w,
                    i,
                    j,
                ) by {
                    let n = j * w + i;
                    if !(j == y && i == x) {
                        assert(painted(before, old_places, *o, place, w, i, j));
                        assert(n < y * w + x) by (nonlinear_arith)
                            requires
                                n == j * w + i,
                                j < y || (j == y && i < x),
                                0 <= i < w,
                                0 <= j,
                                0 <= x,
                        ;
                        assert(0 <= n) by (nonlinear_arith)
                            requires
                                n == j * w + i,
                                0 <= i,
                                0 <= j,
                                0 <= w,
                        ;
                    }
                }
            }
            x = x + 1;
        }
        assert(offset(w as int, w as int, y as int) == offset(w as int, 0, y + 1))
            by (nonlinear_arith);
        assert(y * w + w == (y + 1) * w) by (nonlinear_arith);
        y = y + 1;
    }
    assert(offset(w as int, 0, h as int) == w * h * 4) by (nonlinear_arith);
    let r = Raster { width: w, height: h, data };
    assert forall|x: u32, y: u32| x < w && y < h implies #[trigger] shape_painted(
        r@,
        *o,
        place,
        x,
        y,
    ) by {
        assert(painted(data@, places, *o, place, w, x as int, y as int));
        let p = places[y * w + x];
        assert(call_ensures(place, (x, y), p) && shape_pixel(r@, *o, p, x, y));
    }
    r
}

/// Whether pixel (`x`, `y`) of the picture is what the shape paints there.
pub open spec fn shape_pixel(p: Picture, o: ShapeOverlay, place: Option<bool>, x: u32, y: u32) -> bool {
    forall|c: int|
        0 <= c < 4 ==> #[trigger] channel_at(p, x as int, y as int, c) == shape_byte(o, place, c)
}

/// Whether pixel (`x`, `y`) is what the shape paints at the place it is found
/// at.
pub open spec fn shape_painted<E: Fn(u32, u32) -> Option<bool>>(
    r: Picture,
    o: ShapeOverlay,
    place: E,
    x: u32,
    y: u32,
) -> bool {
    exists|p: Option<bool>|
        #![trigger call_ensures(place, (x, y), p)]
        call_ensures(place, (x, y), p) && shape_pixel(r, o, p, x, y)
}

/// Whether pixel (`i`, `j`) has been painted by the place it was found at.
spec fn painted<E: Fn(u32, u32) -> Option<bool>>(
    data: Seq<u8>,
    places: Seq<Option<bool>>,
    o: ShapeOverlay,
    place: E,
    w: u32,
    i: int,
    j: int,
) -> bool {
    let n = j * w + i;
    &&& 0 <= n < places.len()
    &&& n * 4 + 4 <= data.len()
    &&& call_ensures(place, (i as u32, j as u32), places[n])
    &&& forall|c: int| 0 <= c < 4 ==> data[n * 4 + c] == #[trigger] shape_byte(o, places[n], c)
}

/// Where pixel (`x`, `y`) of an upright picture comes from, its corner being at
/// (`ox`, `oy`) and either axis flipped: the column and row of the source, if
/// it lies on the source.
pub open spec fn upright_source(
    x: int,
    y: int,
    ox: int,
    oy: int,
    sw: int,
    sh: int,
    flip_x: bool,
    flip_y: bool,
) -> Option<(int, int)> {
    let (i, j) = (x - ox, y - oy);
    if 0 <= i < sw && 0 <= j < sh {
        Some(
            (
                if flip_x {
                    sw - 1 - i
                } else {
                    i
                },
                if flip_y {
                    sh - 1 - j
                } else {
                    j
                },
            ),
        )
    } else {
        None
    }
}

/// The pixel at (`x`, `y`).
pub open spec fn has_pixel(p: Picture, x: int, y: int, color: Rgba8) -> bool {
    forall|c: int| 0 <= c < 4 ==> #[trigger] channel_at(p, x, y, c) == color@[c]
}

/// Whether two pictures have the same pixel at (`x`, `y`).
pub open spec fn same_pixel(a: Picture, b: Picture, x: int, y: int) -> bool {
    forall|c: int| 0 <= c < 4 ==> #[trigger] channel_at(a, x, y, c) == channel_at(b, x, y, c)
}

/// Lay an upright, possibly flipped picture over another. What falls outside
/// is lost; each pixel it covers is what `blend` makes of the one there and
/// the one that comes.
pub fn draw_upright<B: Fn(Rgba8, Rgba8) -> Rgba8>(
    dst: &Raster,
    src: &Raster,
    ox: i64,
    oy: i64,
    flip_x: bool,
    flip_y: bool,
    blend: B,
) -> (r: Raster)
    requires
        dst.wf(),
        src.wf(),
        forall|a: Rgba8, b: Rgba8| #[trigger] call_requires(blend, (a, b)),
    ensures
        r.wf(),
        r.width == dst.width,
        r.height == dst.height,
        forall|x: int, y: int|
            0 <= x < dst.width && 0 <= y < dst.height ==> #[trigger] drawn_pixel(
                r@,
                dst@,
                src@,
                ox as int,
                oy as int,
                flip_x,
                flip_y,
                blend,
                x,
                y,
            ),
{
    let (w, h) = (dst.width, dst.height);
    let mut data: Vec<u8> = Vec::new();
    let mut y: u32 = 0;
    assert(0 * (w as int) * 4 == 0) by (nonlinear_arith);
    while y < h
        invariant
            dst.wf(),
            src.wf(),
            w == dst.width,
            h == dst.height,
            y <= h,
            data@.len() == offset(w as int, 0, y as int),
            forall|a: Rgba8, b: Rgba8| #[trigger] call_requires(blend, (a, b)),
            forall|i: int, j: int|
                0 <= i < w && 0 <= j < y ==> #[trigger] drawn_pixel(
                    partial(data@, w, h),
                    dst@,
                    src@,
                    ox as int,
                    oy as int,
                    flip_x,
                    flip_y,
                    blend,
                    i,
                    j,
                ),
        decreases h - y,
    {
        let mut x: u32 = 0;
        while x < w
            invariant
                dst.wf(),
                src.wf(),
                w == dst.width,
                h == dst.height,
                x <= w,
                y < h,
                data@.len() == offset(w as int, x as int, y as int),
                forall|a: Rgba8, b: Rgba8| #[trigger] call_requires(blend, (a, b)),
                forall|i: int, j: int|
                    0 <= i < w && 0 <= j && (j < y || (j == y && i < x)) ==> #[trigger] drawn_pixel(
                        partial(data@, w, h),
                        dst@,
                        src@,
                        ox as int,
                        oy as int,
                        flip_x,
                        flip_y,
                        blend,
                        i,
                        j,
                    ),
            decreases w - x,
        {
            let ghost before = data@;
            let under = dst.pixel_or_clear(x as u64, y as u64);
            let (i, j) = (x as i128 - ox as i128, y as i128 - oy as i128);
            let (sw, sh) = (src.width as i128, src.height as i128);
            let color = if 0 <= i && i < sw && 0 <= j && j < sh {
                let sx: i128 = if flip_x {
                    sw - 1 - i
                } else {
                    i
                };
                let sy: i128 = if flip_y {
                    sh - 1 - j
                } else {
                    j
                };
                let over = src.pixel_or_clear(sx as u64, sy as u64);
                assert(has_pixel(src@, sx as int, sy as int, over));
                assert(has_pixel(dst@, x as int, y as int, under));
                blend(under, over)
            } else {
                under
            };
            data.push(color[0]);
            data.push(color[1]);
            data.push(color[2]);
            data.push(color[3]);
            proof {
                let now = partial(data@, w, h);
                let was = partial(before, w, h);
                assert(has_pixel(now, x as int, y as int, color));
                assert(drawn_pixel(
                    now,
                    dst@,
                    src@,
                    ox as int,
                    oy as int,
                    flip_x,
                    flip_y,
                    blend,
                    x as int,
                    y as int,
                ));
                assert forall|i: int, j: int|
                    0 <= i < w && 0 <= j && (j < y || (j == y && i <= x)) implies #[trigger] drawn_pixel(
                    now,
                    dst@,
                    src@,
                    ox as int,
                    oy as int,
                    flip_x,
                    flip_y,
                    blend,
                    i,
                    j,
                ) by {
                    if !(j == y && i == x) {
                        assert(drawn_pixel(
                            was,
                            dst@,
                            src@,
                            ox as int,
                            oy as int,
                            flip_x,
                            flip_y,
                            blend,
                            i,
                            j,
                        ));
                        assert(j * w + i + 1 <= y * w + x) by (nonlinear_arith)
                            requires
                                j < y || (j == y && i < x),
                                0 <= i < w,
                                0 <= j,
                                0 <= x,
                        ;
                        assert(0 <= j * w) by (nonlinear_arith)
                            requires
                                0 <= j,
                                0 <= w,
                        ;
                        assert forall|c: int| 0 <= c < 4 implies #[trigger] channel_at(now, i, j, c)
                            == channel_at(was, i, j, c) by {}
                        lemma_same_drawn(
                            now,
                            was,
                            dst@,
                            src@,
                            ox as int,
                            oy as int,
                            flip_x,
                            flip_y,
                            blend,
                            i,
                            j,
                        );
                    }
                }
            }
            x = x + 1;
        }
        assert(offset(w as int, w as int, y as int) == offset(w as int, 0, y + 1))
            by (nonlinear_arith);
        y = y + 1;
    }
    assert(offset(w as int, 0, h as int) == w * h * 4) by (nonlinear_arith);
    let r = Raster { width: w, height: h, data };
    assert(r@ == partial(data@, w, h));
    r
}

/// A picture of which not all bytes are there yet.
spec fn partial(data: Seq<u8>, w: u32, h: u32) -> Picture {
    Picture { width: w, height: h, data }
}

/// Whether pixel (`x`, `y`) is what drawing `src` over `dst` makes of it.
pub open spec fn drawn_pixel<B: Fn(Rgba8, Rgba8) -> Rgba8>(
    r: Picture,
    dst: Picture,
    src: Picture,
    ox: int,
    oy: int,
    flip_x: bool,
    flip_y: bool,
    blend: B,
    x: int,
    y: int,
) -> bool {
    match upright_source(x, y, ox, oy, src.width as int, src.height as int, flip_x, flip_y) {
        Some((sx, sy)) => exists|a: Rgba8, b: Rgba8, c: Rgba8|
            #![trigger call_ensures(blend, (a, b), c)]
            has_pixel(dst, x, y, a) && has_pixel(src, sx, sy, b) && call_ensures(blend, (a, b), c)
                && has_pixel(r, x, y, c),
        None => same_pixel(r, dst, x, y),
    }
}

proof fn lemma_same_drawn<B: Fn(Rgba8, Rgba8) -> Rgba8>(
    now: Picture,
    was: Picture,
    dst: Picture,
    src: Picture,
    ox: int,
    oy: int,
    flip_x: bool,
    flip_y: bool,
    blend: B,
    x: int,
    y: int,
)
    requires
        drawn_pixel(was, dst, src, ox, oy, flip_x, flip_y, blend, x, y),
        forall|c: int|
            0 <= c < 4 ==> #[trigger] channel_at(now, x, y, c) == channel_at(was, x, y, c),
    ensures
        drawn_pixel(now, dst, src, ox, oy, flip_x, flip_y, blend, x, y),
{
    match upright_source(x, y, ox, oy, src.width as int, src.height as int, flip_x, flip_y) {
        Some((sx, sy)) => {
            let (a, b, c) = choose|a: Rgba8, b: Rgba8, c: Rgba8|
                #![trigger call_ensures(blend, (a, b), c)]
                has_pixel(dst, x, y, a) && has_pixel(src, sx, sy, b) && call_ensures(
                    blend,
                    (a, b),
                    c,
                ) && has_pixel(was, x, y, c);
            assert forall|k: int| 0 <= k < 4 implies #[trigger] channel_at(now, x, y, k)
                == c@[k] by {
                assert(channel_at(was, x, y, k) == c@[k]);
            }
            assert(has_pixel(now, x, y, c));
        },
        None => {
            assert forall|k: int| 0 <= k < 4 implies #[trigger] channel_at(now, x, y, k)
                == channel_at(dst, x, y, k) by {
                assert(channel_at(was, x, y, k) == channel_at(dst, x, y, k));
            }
        },
    }
}

/// The overlays at these places.
pub open spec fn overlays_at(overlays: Seq<Overlay>, places: Seq<usize>) -> Seq<Overlay> {
    Seq::new(places.len(), |k: int| overlays[places[k] as int])
}

/// The overlays that are painted on frame `index`, bottom-to-top.
pub open spec fn painted_on(doc: DocView, index: int) -> Seq<Overlay> {
    match paint_order(doc, index) {
        Some(places) => overlays_at(doc.overlays, places),
        None => seq![],
    }
}

/// Stamping the same overlays in the same order makes the same of a picture,
/// whatever places they have.
proof fn lemma_layered_alike<S: Fn(Raster, &Overlay) -> Raster>(
    stamp: S,
    a: Seq<Overlay>,
    places: Seq<usize>,
    b: Seq<Overlay>,
    others: Seq<usize>,
    start: Picture,
    end: Raster,
)
    requires
        overlays_at(a, places) == overlays_at(b, others),
        layered(stamp, a, places, start, end),
    ensures
        layered(stamp, b, others, start, end),
    decreases places.len(),
{
    let all = overlays_at(a, places);
    assert(all.len() == places.len() == others.len());
    if places.len() > 0 {
        let under = choose|under: Raster| #[trigger]
            call_ensures(stamp, (under, &a[places.last() as int]), end) && layered(
                stamp,
                a,
                places.drop_last(),
                start,
                under,
            );
        assert(overlays_at(a, places.drop_last()) =~= all.drop_last());
        assert(overlays_at(b, others.drop_last()) =~= overlays_at(b, others).drop_last());
        lemma_layered_alike(stamp, a, places.drop_last(), b, others.drop_last(), start, under);
        assert(all.last() == a[places.last() as int]);
        assert(overlays_at(b, others).last() == b[others.last() as int]);
        assert(call_ensures(stamp, (under, &b[others.last() as int]), end));
    }
}

/// What a frame shows depends on its own pixels and on the overlays that are
/// painted on it alone: two documents that agree on them, in their order, show
/// the same there, whatever other frames and overlays they have.
pub proof fn law_paint_is_local<S: Fn(Raster, &Overlay) -> Raster>(
    a: DocView,
    b: DocView,
    index: int,
    stamp: S,
    shown: Raster,
)
    requires
        0 <= index < a.frames.len(),
        index < b.frames.len(),
        a.frames[index].pixels == b.frames[index].pixels,
        painted_on(a, index) == painted_on(b, index),
    ensures
        composited(a, index, stamp, shown) == composited(b, index, stamp, shown),
{
    let start = a.frames[index].pixels;
    let (p, q) = (paint_order(a, index)->0, paint_order(b, index)->0);
    if composited(a, index, stamp, shown) {
        lemma_layered_alike(stamp, a.overlays, p, b.overlays, q, start, shown);
    }
    if composited(b, index, stamp, shown) {
        lemma_layered_alike(stamp, b.overlays, q, a.overlays, p, start, shown);
    }
}

} // verus!
