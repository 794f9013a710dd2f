//! What an import makes of the sizes, the limits and the times it is told.

use vstd::prelude::*;

use crate::canvas::key_after;
use crate::import::{
    delay_to, evened, frame_cap, import_size_of, latest, preset, presets, standard_heights,
    width_at,
};
use crate::model::{next_key, thumb_height, THUMB_W};
use crate::raster::Picture;
use crate::rounding::{lemma_rounded_near, lemma_small_whole, rounded_single};

verus! {

/// A side is brought to the even number at or right below it, and is two at
/// least.
pub proof fn law_a_side_is_even(n: int)
    ensures
        evened(n) % 2 == 0,
        evened(n) >= 2,
        n >= 2 ==> n - 1 <= evened(n) <= n,
        n < 2 ==> evened(n) == 2,
{
}

/// A width that goes with a height keeps the shape of the picture to the nearest
/// pixel.
pub proof fn law_a_width_keeps_the_shape(w: int, h: int, height: int)
    requires
        0 < h,
        0 <= w,
        0 <= height,
    ensures
        2 * (width_at(w, h, height) * h - w * height) <= h,
        2 * (w * height - width_at(w, h, height) * h) < h,
        height == h ==> width_at(w, h, height) == w,
{
    let t = width_at(w, h, height);
    assert(t * (2 * h) <= 2 * w * height + h < (t + 1) * (2 * h)) by (nonlinear_arith)
        requires
            h > 0,
            t == (2 * w * height + h) / (2 * h),
    ;
    assert(2 * w * height == 2 * (w * height)) by (nonlinear_arith);
    assert(t * (2 * h) == 2 * (t * h)) by (nonlinear_arith);
    assert((t + 1) * (2 * h) == 2 * (t * h) + 2 * h) by (nonlinear_arith);
    if height == h {
        assert(t == w) by (nonlinear_arith)
            requires
                2 * (t * h - w * h) <= h,
                2 * (w * h - t * h) < h,
                h > 0,
        ;
    }
}

proof fn lemma_presets(w: int, h: int, heights: Seq<u32>, k: int)
    requires
        0 <= k < heights.len(),
        heights[k] < h,
    ensures
        presets(w, h, heights).contains(preset(w, h, heights[k] as int)),
    decreases heights.len(),
{
    let head = heights.drop_last();
    let before = presets(w, h, head);
    let all = presets(w, h, heights);
    if k < head.len() {
        lemma_presets(w, h, head, k);
        let a = choose|a: int| 0 <= a < before.len() && before[a] == preset(w, h, head[k] as int);
        assert(all[a] == before[a]);
    } else {
        assert(all[all.len() - 1] == preset(w, h, heights[k] as int));
    }
}

/// Each standard height below the source's is offered, with an even width that
/// keeps the shape.
pub proof fn law_every_smaller_height_is_offered(w: u32, h: u32, k: int)
    requires
        0 <= k < standard_heights().len(),
        standard_heights()[k] < h,
    ensures
        exists|i: int|
            0 <= i < presets(w as int, h as int, standard_heights()).len() && (
            #[trigger] presets(w as int, h as int, standard_heights())[i]).1
                == standard_heights()[k],
{
    let all = presets(w as int, h as int, standard_heights());
    let wanted = preset(w as int, h as int, standard_heights()[k] as int);
    lemma_presets(w as int, h as int, standard_heights(), k);
    let i = choose|i: int| 0 <= i < all.len() && all[i] == wanted;
    assert(all[i].1 == standard_heights()[k]);
}

/// An import comes in at the size that was picked, made even. Where none was
/// picked, its longer side is held to the limit and a smaller source stays.
pub proof fn law_an_import_is_held_to_its_size(
    source: (u32, u32),
    target: Option<(u32, u32)>,
    max_edge: Option<u32>,
    fitted: u32,
)
    ensures
        ({
            let size = import_size_of(source, target, max_edge, fitted);
            &&& target matches Some(picked) ==> size.0 % 2 == 0 && size.1 % 2 == 0 && (picked.0 >= 2
                ==> picked.0 - 1 <= size.0 <= picked.0) && (picked.1 >= 2 ==> picked.1 - 1 <= size.1
                <= picked.1)
            &&& target is None && max_edge is None ==> size == source
            &&& target is None ==> (max_edge matches Some(max) ==> {
                &&& source.0 <= max && source.1 <= max ==> size == source
                &&& source.0 >= source.1 && source.0 > max ==> size.0 == max && size.1 % 2 == 0
                &&& source.0 < source.1 && source.1 > max ==> size.1 == max && size.0 % 2 == 0
            })
        }),
{
}

/// As many frames come in as were allowed and as fit into the memory that was
/// allowed, and one at least unless none were allowed. One more would not fit.
pub proof fn law_an_import_stays_within_its_limits(
    width: u32,
    height: u32,
    max_frames: u64,
    max_bytes: u64,
)
    requires
        width > 0,
        height > 0,
    ensures
        ({
            let cap = frame_cap(width, height, max_frames, max_bytes);
            let bytes = width * height * 4;
            &&& cap <= max_frames
            &&& cap <= 1 || cap * bytes <= max_bytes
            &&& cap < max_frames ==> max_bytes < (cap + 1) * bytes
            &&& max_frames >= 1 ==> cap >= 1
        }),
{
    let bytes = width * height * 4;
    assert(bytes >= 4) by (nonlinear_arith)
        requires
            bytes == width * height * 4,
            width > 0,
            height > 0,
    ;
    let q = max_bytes as int / bytes;
    assert(q * bytes <= max_bytes < (q + 1) * bytes) by (nonlinear_arith)
        requires
            bytes >= 4,
            q == max_bytes as int / bytes,
    ;
    assert(q >= 0) by (nonlinear_arith)
        requires
            bytes >= 4,
            max_bytes < (q + 1) * bytes,
            max_bytes >= 0,
    ;
    let cap = frame_cap(width, height, max_frames, max_bytes);
    if q >= 1 {
        assert(cap * bytes <= q * bytes) by (nonlinear_arith)
            requires
                cap <= q,
                bytes >= 4,
        ;
    } else {
        assert(max_bytes < (cap + 1) * bytes) by (nonlinear_arith)
            requires
                max_bytes < (q + 1) * bytes,
                q == 0,
                cap >= 0,
                bytes >= 4,
        ;
    }
}

/// A frame lasts from the latest mark before it to its own, and one hundredth
/// where its own is not later.
pub proof fn law_a_frame_lasts_until_its_mark(marks: Seq<u32>, i: int)
    requires
        0 <= i < marks.len(),
        forall|k: int| 0 < k <= i ==> marks[k - 1] <= #[trigger] marks[k],
        i > 0 ==> marks[i] - marks[i - 1] <= u16::MAX,
        i == 0 ==> marks[0] <= u16::MAX,
    ensures
        i > 0 && marks[i] > marks[i - 1] ==> delay_to(marks, i) == marks[i] - marks[i - 1],
        i > 0 && marks[i] == marks[i - 1] ==> delay_to(marks, i) == 1,
        i == 0 && marks[0] > 0 ==> delay_to(marks, 0) == marks[0],
        i == 0 && marks[0] == 0 ==> delay_to(marks, 0) == 1,
{
    lemma_latest(marks, i);
}

proof fn lemma_latest(marks: Seq<u32>, i: int)
    requires
        0 <= i < marks.len(),
        forall|k: int| 0 < k <= i ==> marks[k - 1] <= #[trigger] marks[k],
    ensures
        latest(marks, i as nat) == if i == 0 {
            0
        } else {
            marks[i - 1]
        },
    decreases i,
{
    if i > 0 {
        lemma_latest(marks, i - 1);
        if i > 1 {
            assert(marks[i - 2] <= marks[i - 1]);
        }
    }
}

/// A picture is opaque only where every pixel of it is.
pub proof fn law_an_opaque_picture_shows_no_background(p: Picture, x: int, y: int)
    requires
        p.wf(),
        0 <= x < p.width,
        0 <= y < p.height,
    ensures
        p.opaque() ==> p.data[(y * p.width + x) * 4 + 3] == 255,
        p.data[(y * p.width + x) * 4 + 3] < 255 ==> !p.opaque(),
{
    let i = y * p.width + x;
    assert(0 <= i < p.width * p.height) by (nonlinear_arith)
        requires
            i == y * p.width + x,
            0 <= x < p.width,
            0 <= y < p.height,
    ;
    if p.opaque() {
        assert(p.data[i * 4 + 3] == 255);
    }
}

/// A picture whose every pixel is opaque is opaque.
pub proof fn law_a_picture_without_holes_is_opaque(p: Picture)
    requires
        p.wf(),
        forall|k: int| 0 <= k < p.data.len() && k % 4 == 3 ==> #[trigger] p.data[k] == 255,
    ensures
        p.opaque(),
{
    assert forall|i: int| 0 <= i < p.width * p.height implies #[trigger] p.data[i * 4 + 3]
        == 255 by {
        assert(p.data.len() == p.width * p.height * 4);
        assert((i * 4 + 3) % 4 == 3);
    }
}

proof fn lemma_key_after(key: u64, k: nat)
    requires
        key + k <= u64::MAX,
    ensures
        key_after(key, k) == key + k,
    decreases k,
{
    if k > 0 {
        lemma_key_after(key, (k - 1) as nat);
    }
}

/// Frames that are made get keys of their own.
pub proof fn law_made_frames_have_keys_of_their_own(key: u64, i: nat, j: nat)
    requires
        i < j,
        key + j <= u64::MAX,
    ensures
        key_after(key, i) != key_after(key, j),
        key_after(key, i) >= key,
        next_key(key) != key,
{
    lemma_key_after(key, i);
    lemma_key_after(key, j);
}

/// A thumbnail has the shape of its picture, to a pixel, and is never empty.
pub proof fn law_a_thumbnail_keeps_the_shape(w: int, h: int)
    requires
        1 <= w < 0x100_0000,
        0 <= h,
        THUMB_W * h < 0x100_0000,
    ensures
        thumb_height(w, h) >= 1,
        thumb_height(w, h) * w - THUMB_W * h <= w,
        THUMB_W * h - thumb_height(w, h) * w <= w,
{
    lemma_small_whole(h);
    lemma_small_whole(THUMB_W * h);
    lemma_small_whole(w);
    lemma_rounded_near(THUMB_W * h, w);
    let tall = rounded_single(THUMB_W * h, w);
    if tall < 1 {
        assert(tall * w <= 0) by (nonlinear_arith)
            requires
                tall <= 0,
                w >= 1,
        ;
    }
}

} // verus!
