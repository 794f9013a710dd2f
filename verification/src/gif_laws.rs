//! What is read again of an animation that was written.

use vstd::prelude::*;

use crate::dither::{indexed, lemma_mapping, nth_pixel};
use crate::encode::{
    any_see_through, file_palette, frame_back, plan_of, read_back, readable, see_through,
};
use crate::gif_in::{canvas_after, composed, drawn, drawn_byte, playable, GifView, RawView};
use crate::gif_out::{palette_of, ExportSettings};
use crate::raster::{column_of, offset, row_of, Picture};

verus! {

/// A byte stands at its column and row.
proof fn lemma_byte_at(w: int, h: int, k: int)
    requires
        0 < w,
        0 < h,
        0 <= k < w * h * 4,
    ensures
        0 <= column_of(w, k) < w,
        0 <= row_of(w, k) < h,
        offset(w, column_of(w, k), row_of(w, k)) == k / 4 * 4,
{
    let p = k / 4;
    vstd::arithmetic::div_mod::lemma_fundamental_div_mod(p, w);
    assert(0 <= p % w < w) by (nonlinear_arith)
        requires
            0 < w,
    ;
    assert(0 <= p / w) by (nonlinear_arith)
        requires
            0 < w,
            0 <= p,
    ;
    assert(p / w < h) by (nonlinear_arith)
        requires
            p == w * (p / w) + p % w,
            0 <= p % w,
            p < w * h,
            0 < w,
    ;
    assert((p / w) * w == w * (p / w)) by (nonlinear_arith);
}

/// A frame that fills the canvas shows its own pixels, except that those that
/// are transparent show what was there before.
proof fn lemma_drawn_whole(canvas: Picture, raw: RawView, k: int)
    requires
        canvas.wf(),
        raw.wf(),
        raw.left == 0,
        raw.top == 0,
        raw.width == canvas.width,
        raw.height == canvas.height,
        0 < raw.width,
        0 < raw.height,
        0 <= k < canvas.data.len(),
    ensures
        drawn(canvas, raw).data[k] == if raw.data[k / 4 * 4 + 3] != 0 {
            raw.data[k]
        } else {
            canvas.data[k]
        },
{
    let w = canvas.width as int;
    lemma_byte_at(w, canvas.height as int, k);
    assert(drawn(canvas, raw).data[k] == drawn_byte(canvas, raw, k));
}

/// The canvas after some frames of a file is as big as the file's.
proof fn lemma_canvas_size(gif: GifView, n: nat)
    requires
        n <= gif.frames.len(),
    ensures
        canvas_after(gif, n).width == gif.width,
        canvas_after(gif, n).height == gif.height,
        canvas_after(gif, n).wf(),
    decreases n,
{
    if n > 0 {
        lemma_canvas_size(gif, (n - 1) as nat);
    } else {
        assert(0 <= gif.width * gif.height) by (nonlinear_arith)
            requires
                0 <= gif.width,
                0 <= gif.height,
        ;
    }
}

/// What stands at byte `c` of pixel `p` when frame `i` is shown: the color
/// chosen for the pixel; where that is the transparent one, what stood there
/// when the frame before was shown, and nothing before the first.
pub open spec fn shown_again(
    frames: Seq<(Picture, u16)>,
    settings: ExportSettings,
    before: Option<Picture>,
    i: int,
    p: int,
    c: int,
) -> u8 {
    let plan = plan_of(frames, settings);
    let index = indexed(plan.quant, frames[i].0, plan.transparent, plan.dither)[p];
    if plan.transparent == Some(index) {
        match before {
            Some(picture) => picture.data[p * 4 + c],
            None => 0,
        }
    } else if c == 3 {
        255
    } else {
        file_palette(palette_of(plan.quant), any_see_through(frames))[index * 3 + c]
    }
}

/// A written animation reads back as the frames that went in: as many of them,
/// of the same size, each for its time and each pixel in the color chosen for
/// it.
pub proof fn law_an_export_reads_back(
    frames: Seq<(Picture, u16)>,
    settings: ExportSettings,
    key: u64,
    i: int,
)
    requires
        readable(frames),
        0 <= i < frames.len(),
    ensures
        ({
            let seen = composed(read_back(frames, settings), frames.len(), key);
            let before = if i > 0 {
                Some(seen[i - 1].pixels)
            } else {
                None
            };
            &&& seen.len() == frames.len()
            &&& seen[i].delay_cs == playable(frames[i].1)
            &&& seen[i].pixels.width == frames[i].0.width
            &&& seen[i].pixels.height == frames[i].0.height
            &&& seen[i].pixels.wf()
            &&& forall|p: int, c: int|
                0 <= p < frames[i].0.data.len() / 4 && 0 <= c < 4
                    ==> #[trigger] seen[i].pixels.data[p * 4 + c] == shown_again(
                    frames,
                    settings,
                    before,
                    i,
                    p,
                    c,
                )
        }),
{
    let gif = read_back(frames, settings);
    let plan = plan_of(frames, settings);
    let seen = composed(gif, frames.len(), key);
    let raw = gif.frames[i];
    let p0 = frames[i].0;
    assert(raw == frame_back(frames, settings, i));
    assert(p0.wf() && p0.width == frames[0].0.width && p0.height == frames[0].0.height);
    lemma_canvas_size(gif, i as nat);
    let under = canvas_after(gif, i as nat);
    let pixels = (p0.data.len() / 4) as nat;
    lemma_mapping(plan.quant, p0, plan.transparent, plan.dither, pixels);
    assert(seen[i].pixels == drawn(under, raw));
    let before = if i > 0 {
        Some(seen[i - 1].pixels)
    } else {
        None
    };
    if i > 0 {
        assert(gif.frames[i - 1] == frame_back(frames, settings, i - 1));
        assert(under == drawn(canvas_after(gif, (i - 1) as nat), gif.frames[i - 1]));
        assert(seen[i - 1].pixels == under);
    }
    assert forall|p: int, c: int|
        0 <= p < p0.data.len() / 4 && 0 <= c < 4 implies #[trigger] seen[i].pixels.data[p * 4 + c]
        == shown_again(frames, settings, before, i, p, c) by {
        let k = p * 4 + c;
        lemma_drawn_whole(under, raw, k);
        assert(k / 4 == p && k % 4 == c);
        assert((p * 4 + 3) / 4 == p && (p * 4 + 3) % 4 == 3);
    }
}

/// A pixel that is mostly transparent reads back transparent until a frame
/// draws there, and where no pixel is, every pixel of every frame reads back
/// opaque.
pub proof fn law_transparency_survives(
    frames: Seq<(Picture, u16)>,
    settings: ExportSettings,
    key: u64,
    i: int,
    p: int,
)
    requires
        readable(frames),
        0 <= i < frames.len(),
        0 <= p < frames[i].0.data.len() / 4,
    ensures
        ({
            let seen = composed(read_back(frames, settings), frames.len(), key);
            &&& (forall|j: int| 0 <= j <= i ==> #[trigger] see_through(frames[j].0, p))
                ==> seen[i].pixels.data[p * 4 + 3] == 0
            &&& !any_see_through(frames) ==> seen[i].pixels.data[p * 4 + 3] == 255
        }),
    decreases i,
{
    let seen = composed(read_back(frames, settings), frames.len(), key);
    let plan = plan_of(frames, settings);
    let pic = frames[i].0;
    law_an_export_reads_back(frames, settings, key, i);
    lemma_mapping(plan.quant, pic, plan.transparent, plan.dither, (pic.data.len() / 4) as nat);
    assert(seen[i].pixels.data[p * 4 + 3] == seen[i].pixels.data[p * 4 + 3]);
    assert(nth_pixel(pic, p)[3] == pic.data[p * 4 + 3]);
    if forall|j: int| 0 <= j <= i ==> #[trigger] see_through(frames[j].0, p) {
        assert(see_through(frames[i].0, p));
        assert(any_see_through(frames));
        assert(frames[i].0.wf() && frames[0].0.wf());
        if i > 0 {
            assert(frames[i - 1].0.wf());
            assert(frames[i - 1].0.data.len() == pic.data.len());
            law_transparency_survives(frames, settings, key, i - 1, p);
        }
    }
}

} // verus!
