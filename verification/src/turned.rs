//! Laying a turned picture over another.

use vstd::prelude::*;

use crate::raster::{channel_at, offset, Picture, Raster, Rgba8};
use crate::render::{has_pixel, same_pixel};

verus! {

/// Whether pixel (`x`, `y`) is what laying the source's pixel `from` over it
/// makes of it, or what it was where there is no such pixel.
pub open spec fn laid_pixel<B: Fn(Rgba8, Rgba8) -> Rgba8>(
    r: Picture,
    dst: Picture,
    src: Picture,
    from: Option<(u32, u32)>,
    blend: B,
    x: u32,
    y: u32,
) -> bool {
    match from {
        Some((sx, sy)) => if sx < src.width && sy < src.height {
            exists|a: Rgba8, b: Rgba8, c: Rgba8|
                #![trigger call_ensures(blend, (a, b), c)]
                has_pixel(dst, x as int, y as int, a) && has_pixel(src, sx as int, sy as int, b)
                    && call_ensures(blend, (a, b), c) && has_pixel(r, x as int, y as int, c)
        } else {
            same_pixel(r, dst, x as int, y as int)
        },
        None => same_pixel(r, dst, x as int, y as int),
    }
}

/// Whether pixel (`x`, `y`) is what laying the pixel that `turn` finds for it
/// makes of it.
pub open spec fn turned_pixel<T: Fn(u32, u32) -> Option<(u32, u32)>, B: Fn(Rgba8, Rgba8) -> Rgba8>(
    r: Picture,
    dst: Picture,
    src: Picture,
    turn: T,
    blend: B,
    x: u32,
    y: u32,
) -> bool {
    exists|from: Option<(u32, u32)>|
        #![trigger call_ensures(turn, (x, y), from)]
        call_ensures(turn, (x, y), from) && laid_pixel(r, dst, src, from, blend, x, y)
}

/// A picture of which not all bytes are there yet.
spec fn partial(data: Seq<u8>, w: u32, h: u32) -> Picture {
    Picture { width: w, height: h, data }
}

proof fn lemma_same_laid<B: Fn(Rgba8, Rgba8) -> Rgba8>(
    now: Picture,
    was: Picture,
    dst: Picture,
    src: Picture,
    from: Option<(u32, u32)>,
    blend: B,
    x: u32,
    y: u32,
)
    requires
        laid_pixel(was, dst, src, from, blend, x, y),
        forall|c: int|
            0 <= c < 4 ==> #[trigger] channel_at(now, x as int, y as int, c) == channel_at(
                was,
                x as int,
                y as int,
                c,
            ),
    ensures
        laid_pixel(now, dst, src, from, blend, x, y),
{
    let (i, j) = (x as int, y as int);
    let inside = from matches Some((sx, sy)) && sx < src.width && sy < src.height;
    if inside {
        let (sx, sy) = from->Some_0;
        let (a, b, c) = choose|a: Rgba8, b: Rgba8, c: Rgba8|
            #![trigger call_ensures(blend, (a, b), c)]
            has_pixel(dst, i, j, a) && has_pixel(src, sx as int, sy as int, b) && call_ensures(
                blend,
                (a, b),
                c,
            ) && has_pixel(was, i, j, c);
        assert forall|k: int| 0 <= k < 4 implies #[trigger] channel_at(now, i, j, k) == c@[k] by {
            assert(channel_at(was, i, j, k) == c@[k]);
        }
        assert(has_pixel(now, i, j, c));
    } else {
        assert forall|k: int| 0 <= k < 4 implies #[trigger] channel_at(now, i, j, k) == channel_at(
            dst,
            i,
            j,
            k,
        ) by {
            assert(channel_at(was, i, j, k) == channel_at(dst, i, j, k));
        }
    }
}

/// Lay a turned picture over another: each pixel is what `blend` makes of the
/// one there and the one of the source that `turn` finds for it, and stays
/// where there is none.
pub fn draw_turned<T: Fn(u32, u32) -> Option<(u32, u32)>, B: Fn(Rgba8, Rgba8) -> Rgba8>(
    dst: &Raster,
    src: &Raster,
    turn: T,
    blend: B,
) -> (r: Raster)
    requires
        dst.wf(),
        src.wf(),
        forall|x: u32, y: u32|
            x < dst.width && y < dst.height ==> #[trigger] call_requires(turn, (x, y)),
        forall|a: Rgba8, b: Rgba8| #[trigger] call_requires(blend, (a, b)),
    ensures
        r.wf(),
        r.width == dst.width,
        r.height == dst.height,
        forall|x: u32, y: u32|
            x < dst.width && y < dst.height ==> #[trigger] turned_pixel(
                r@,
                dst@,
                src@,
                turn,
                blend,
                x,
                y,
            ),
{
    let (w, h) = (dst.width, dst.height);
    let mut data: Vec<u8> = Vec::new();
    let mut y: u32 = 0;
    assert(0 * (w as int) * 4 == 0) by (nonlinear_arith);
    while y < h
        invariant
            dst.wf(),
            src.wf(),
            w == dst.width,
            h == dst.height,
            y <= h,
            data@.len() == offset(w as int, 0, y as int),
            forall|x: u32, y: u32|
                x < dst.width && y < dst.height ==> #[trigger] call_requires(turn, (x, y)),
            forall|a: Rgba8, b: Rgba8| #[trigger] call_requires(blend, (a, b)),
            forall|i: u32, j: u32|
                i < w && j < y ==> #[trigger] turned_pixel(
                    partial(data@, w, h),
                    dst@,
                    src@,
                    turn,
                    blend,
                    i,
                    j,
                ),
        decreases h - y,
    {
        let mut x: u32 = 0;
        while x < w
            invariant
                dst.wf(),
                src.wf(),
                w == dst.width,
                h == dst.height,
                x <= w,
                y < h,
                data@.len() == offset(w as int, x as int, y as int),
                forall|x: u32, y: u32|
                    x < dst.width && y < dst.height ==> #[trigger] call_requires(turn, (x, y)),
                forall|a: Rgba8, b: Rgba8| #[trigger] call_requires(blend, (a, b)),
                forall|i: u32, j: u32|
                    i < w && (j < y || (j == y && i < x)) ==> #[trigger] turned_pixel(
                        partial(data@, w, h),
                        dst@,
                        src@,
                        turn,
                        blend,
                        i,
                        j,
                    ),
            decreases w - x,
        {
            let ghost before = data@;
            let under = dst.pixel_or_clear(x as u64, y as u64);
            assert(has_pixel(dst@, x as int, y as int, under));
            let from = turn(x, y);
            let color = match from {
                Some((sx, sy)) => if sx < src.width && sy < src.height {
                    let over = src.pixel_or_clear(sx as u64, sy as u64);
                    assert(has_pixel(src@, sx as int, sy as int, over));
                    blend(under, over)
                } else {
                    under
                },
                None => under,
            };
            data.push(color[0]);
            data.push(color[1]);
            data.push(color[2]);
            data.push(color[3]);
            proof {
                let now = partial(data@, w, h);
                let was = partial(before, w, h);
                assert(has_pixel(now, x as int, y as int, color));
                assert(laid_pixel(now, dst@, src@, from, blend, x, y));
                assert(call_ensures(turn, (x, y), from));
                assert(turned_pixel(now, dst@, src@, turn, blend, x, y));
                assert forall|i: u32, j: u32|
                    i < w && (j < y || (j == y && i <= x)) implies #[trigger] turned_pixel(
                    now,
                    dst@,
                    src@,
                    turn,
                    blend,
                    i,
                    j,
                ) by {
                    if !(j == y && i == x) {
                        assert(turned_pixel(was, dst@, src@, turn, blend, i, j));
                        assert(j * w + i + 1 <= y * w + x) by (nonlinear_arith)
                            requires
                                j < y || (j == y && i < x),
                                0 <= i < w,
                                0 <= j,
                                0 <= x,
                        ;
                        assert(0 <= j * w) by (nonlinear_arith)
                            requires
                                0 <= j,
                                0 <= w,
                        ;
                        assert forall|c: int| 0 <= c < 4 implies #[trigger] channel_at(
                            now,
                            i as int,
                            j as int,
                            c,
                        ) == channel_at(was, i as int, j as int, c) by {}
                        let p = choose|p: Option<(u32, u32)>|
                            #![trigger call_ensures(turn, (i, j), p)]
                            call_ensures(turn, (i, j), p) && laid_pixel(
                                was,
                                dst@,
                                src@,
                                p,
                                blend,
                                i,
                                j,
                            );
                        lemma_same_laid(now, was, dst@, src@, p, blend, i, j);
                    }
                }
            }
            x = x + 1;
        }
        assert(offset(w as int, w as int, y as int) == offset(w as int, 0, y + 1))
            by (nonlinear_arith);
        y = y + 1;
    }
    assert(offset(w as int, 0, h as int) == w * h * 4) by (nonlinear_arith);
    let r = Raster { width: w, height: h, data };
    assert(r@ == partial(data@, w, h));
    r
}

} // verus!
