//! What becomes of each pixel: looking through a window, laying one picture
//! over another, cropping, shrinking, and decoding a GIF.

use vstd::prelude::*;

use crate::canvas::{clamp_rect, with_frames, Rect};
use crate::document::DocView;
use crate::gif_in::{canvas_after, composed, disposed, drawn, Disposal, GifView, RawView};
use crate::model::FrameView;
use crate::raster::{
    lemma_byte_place, lemma_offset_inside, offset, resampled, Picture,
};

verus! {

/// A window shows the pixel that lies under it, and nothing where there is
/// none.
pub proof fn law_a_window_shows_what_is_under_it(
    p: Picture,
    x: u32,
    y: u32,
    w: u32,
    h: u32,
    i: int,
    j: int,
    c: int,
)
    requires
        0 <= i < w,
        0 <= j < h,
        0 <= c < 4,
    ensures
        ({
            let seen = p.window(x, y, w, h);
            &&& seen.width == w
            &&& seen.height == h
            &&& seen.data.len() == w * h * 4
            &&& x + i < p.width && y + j < p.height ==> seen.data[(j * w + i) * 4 + c]
                == p.data[((y + j) * p.width + (x + i)) * 4 + c]
            &&& x + i >= p.width || y + j >= p.height ==> seen.data[(j * w + i) * 4 + c] == 0
        }),
{
    lemma_byte_place(w as int, i, j, c);
    lemma_offset_inside(w as int, h as int, i, j);
    assert(0 <= w * h * 4) by (nonlinear_arith);
    let k = offset(w as int, i, j) + c;
    assert(p.window(x, y, w, h).data[k] == p.window_byte(x, y, w, k));
}

/// A picture laid over another hides the pixels under it and no others.
pub proof fn law_a_picture_covers_what_is_under_it(
    p: Picture,
    top: Picture,
    x: int,
    y: int,
    i: int,
    j: int,
    c: int,
)
    requires
        p.wf(),
        0 <= i < p.width,
        0 <= j < p.height,
        0 <= c < 4,
    ensures
        ({
            let both = p.overlaid(top, x, y);
            let at = (j * p.width + i) * 4 + c;
            &&& both.width == p.width
            &&& both.height == p.height
            &&& both.data.len() == p.data.len()
            &&& both.data[at] == if x <= i && i < x + top.width && y <= j && j < y + top.height {
                top.data[((j - y) * top.width + (i - x)) * 4 + c]
            } else {
                p.data[at]
            }
        }),
{
    lemma_byte_place(p.width as int, i, j, c);
    lemma_offset_inside(p.width as int, p.height as int, i, j);
    let k = offset(p.width as int, i, j) + c;
    assert(p.overlaid(top, x, y).data[k] == p.overlaid_byte(top, x, y, k));
}

/// A rectangle that lies on the canvas stays as it is; any other comes to lie
/// on it, with a pixel at least, and keeps the pixels of it that were there.
pub proof fn law_a_rectangle_is_brought_onto_the_canvas(rect: Rect, cw: u32, ch: u32, x: int, y: int)
    requires
        cw > 0,
        ch > 0,
        rect.w > 0,
        rect.h > 0,
        0 <= x < cw,
        0 <= y < ch,
    ensures
        ({
            let r = clamp_rect(rect, cw, ch);
            &&& r.x + r.w <= cw
            &&& r.y + r.h <= ch
            &&& r.w >= 1
            &&& r.h >= 1
            &&& rect.x + rect.w <= cw && rect.y + rect.h <= ch ==> r == rect
            &&& rect.x < cw && rect.y < ch ==> ((r.x <= x && x < r.x + r.w && r.y <= y && y < r.y
                + r.h) <==> (rect.x <= x && x < rect.x + rect.w && rect.y <= y && y < rect.y
                + rect.h))
        }),
{
}

/// A crop keeps of every frame the pixels inside the rectangle, and what the
/// frame is but for its pixels.
pub proof fn law_a_crop_keeps_what_is_inside(
    doc: DocView,
    rect: Rect,
    key: u64,
    k: int,
    i: int,
    j: int,
    c: int,
)
    requires
        0 <= k < doc.frames.len() <= usize::MAX,
        rect.w > 0,
        rect.h > 0,
        rect.x + rect.w <= doc.frames[0].pixels.width,
        rect.y + rect.h <= doc.frames[0].pixels.height,
        0 <= i < rect.w,
        0 <= j < rect.h,
        0 <= c < 4,
    ensures
        ({
            let list = doc.cropped_list(rect, key);
            let (was, now) = (doc.frames[k], list[k].1);
            &&& list.len() == doc.frames.len()
            &&& list[k].0 == k
            &&& now.pixels.width == rect.w
            &&& now.pixels.height == rect.h
            &&& now.pixels.data.len() == rect.w * rect.h * 4
            &&& now.pixels.data[(j * rect.w + i) * 4 + c] == if rect.x + i < was.pixels.width
                && rect.y + j < was.pixels.height {
                was.pixels.data[((rect.y + j) * was.pixels.width + (rect.x + i)) * 4 + c]
            } else {
                0
            }
            &&& now.delay_cs == was.delay_cs
            &&& now.detached == was.detached
        }),
{
    law_a_window_shows_what_is_under_it(
        doc.frames[k].pixels,
        rect.x,
        rect.y,
        rect.w,
        rect.h,
        i,
        j,
        c,
    );
}

/// A zoom of a frame is its crop, blown up to the canvas.
pub proof fn law_a_zoom_fills_the_canvas_from_the_crop(
    doc: DocView,
    indices: Seq<usize>,
    rect: Rect,
    key: u64,
    k: int,
)
    requires
        0 <= k < indices.len(),
        forall|n: int| 0 <= n < indices.len() ==> #[trigger] indices[n] < doc.frames.len(),
        doc.frames.len() <= usize::MAX,
        doc.frames[0].pixels.width > 0,
        doc.frames[0].pixels.height > 0,
    ensures
        ({
            let list = doc.zoomed_list(indices, rect, key);
            let at = indices[k] as int;
            let (was, now) = (doc.frames[at], list[k].1);
            &&& list.len() == indices.len()
            &&& list[k].0 == at
            &&& now.pixels == resampled(
                doc.cropped_list(rect, key)[at].1.pixels,
                doc.frames[0].pixels.width,
                doc.frames[0].pixels.height,
            )
            &&& now.delay_cs == was.delay_cs
            &&& now.detached == was.detached
        }),
{
    lemma_all_below(indices, doc.frames.len());
}

proof fn lemma_all_below(indices: Seq<usize>, n: nat)
    requires
        forall|k: int| 0 <= k < indices.len() ==> #[trigger] indices[k] < n,
    ensures
        crate::canvas::below(indices, n) == indices,
    decreases indices.len(),
{
    if indices.len() > 0 {
        let head = indices.drop_last();
        assert forall|k: int| 0 <= k < head.len() implies #[trigger] head[k] < n by {
            assert(head[k] == indices[k]);
        }
        lemma_all_below(head, n);
        assert(indices[indices.len() - 1] < n);
        assert(crate::canvas::below(indices, n) =~= indices);
    } else {
        assert(crate::canvas::below(indices, n) =~= indices);
    }
}

/// A shrink leaves the pixels inside the rectangle where they are and clears
/// all others.
pub proof fn law_a_shrink_clears_what_is_outside(
    doc: DocView,
    indices: Seq<usize>,
    rect: Rect,
    key: u64,
    k: int,
    i: int,
    j: int,
    c: int,
)
    requires
        0 <= k < indices.len(),
        forall|n: int| 0 <= n < indices.len() ==> #[trigger] indices[n] < doc.frames.len(),
        doc.frames.len() <= usize::MAX,
        rect.w > 0,
        rect.h > 0,
        rect.x + rect.w <= doc.frames[0].pixels.width,
        rect.y + rect.h <= doc.frames[0].pixels.height,
        0 <= i < doc.frames[0].pixels.width,
        0 <= j < doc.frames[0].pixels.height,
        0 <= c < 4,
    ensures
        ({
            let list = doc.shrunk_list(indices, rect, key);
            let canvas = doc.frames[0].pixels;
            let (was, now) = (doc.frames[indices[k] as int], list[k].1);
            &&& list.len() == indices.len()
            &&& list[k].0 == indices[k]
            &&& now.pixels.width == canvas.width
            &&& now.pixels.height == canvas.height
            &&& now.pixels.data[(j * canvas.width + i) * 4 + c] == if rect.x <= i && i < rect.x
                + rect.w && rect.y <= j && j < rect.y + rect.h && i < was.pixels.width && j
                < was.pixels.height {
                was.pixels.data[(j * was.pixels.width + i) * 4 + c]
            } else {
                0
            }
            &&& now.delay_cs == was.delay_cs
            &&& now.detached == was.detached
        }),
{
    lemma_all_below(indices, doc.frames.len());
    let canvas = doc.frames[0].pixels;
    let was = doc.frames[indices[k] as int].pixels;
    let blank = Picture::blank(canvas.width, canvas.height);
    let kept = was.window(rect.x, rect.y, rect.w, rect.h);
    assert(0 <= canvas.width * canvas.height * 4) by (nonlinear_arith);
    law_a_picture_covers_what_is_under_it(blank, kept, rect.x as int, rect.y as int, i, j, c);
    lemma_offset_inside(canvas.width as int, canvas.height as int, i, j);
    if rect.x <= i && i < rect.x + rect.w && rect.y <= j && j < rect.y + rect.h {
        law_a_window_shows_what_is_under_it(
            was,
            rect.x,
            rect.y,
            rect.w,
            rect.h,
            i - rect.x,
            j - rect.y,
            c,
        );
    }
}

/// A resize makes of every frame what the resampler makes of it at that size,
/// and nothing else of the frame changes.
pub proof fn law_a_resize_resamples_each_frame(doc: DocView, w: u32, h: u32, key: u64, k: int)
    requires
        0 <= k < doc.frames.len() <= usize::MAX,
    ensures
        ({
            let list = doc.resized_list(w, h, key);
            &&& list.len() == doc.frames.len()
            &&& list[k].0 == k
            &&& list[k].1.pixels == resampled(doc.frames[k].pixels, w, h)
            &&& list[k].1.delay_cs == doc.frames[k].delay_cs
            &&& list[k].1.detached == doc.frames[k].detached
        }),
{
}

/// Frames that are put in go where they belong, and the others stay.
pub proof fn law_frames_are_put_in_their_places(
    frames: Seq<FrameView>,
    list: Seq<(usize, FrameView)>,
    i: int,
)
    requires
        0 <= i < frames.len(),
        forall|a: int, b: int|
            0 <= a < b < list.len() ==> (#[trigger] list[a]).0 != (#[trigger] list[b]).0,
    ensures
        with_frames(frames, list).len() == frames.len(),
        forall|k: int|
            0 <= k < list.len() && (#[trigger] list[k]).0 == i ==> with_frames(frames, list)[i]
                == list[k].1,
        (forall|k: int| 0 <= k < list.len() ==> (#[trigger] list[k]).0 != i) ==> with_frames(
            frames,
            list,
        )[i] == frames[i],
    decreases list.len(),
{
    if list.len() > 0 {
        let head = list.drop_last();
        assert forall|a: int, b: int| 0 <= a < b < head.len() implies (#[trigger] head[a]).0 != (
        #[trigger] head[b]).0 by {
            assert(list[a].0 != list[b].0);
        }
        law_frames_are_put_in_their_places(frames, head, i);
        let last = list.len() - 1;
        assert forall|k: int| 0 <= k < list.len() && (#[trigger] list[k]).0 == i implies with_frames(
            frames,
            list,
        )[i] == list[k].1 by {
            if k < last {
                assert(list[k].0 != list[last].0);
                assert(head[k] == list[k]);
            }
        }
        if forall|k: int| 0 <= k < list.len() ==> (#[trigger] list[k]).0 != i {
            assert(list[last].0 != i);
            assert forall|k: int| 0 <= k < head.len() implies (#[trigger] head[k]).0 != i by {
                assert(head[k] == list[k]);
            }
        }
    }
}

/// Whether a patch has a pixel for (`x`, `y`) of the canvas that is not
/// transparent.
pub open spec fn paints(raw: RawView, x: int, y: int) -> bool {
    &&& raw.left <= x
    &&& x < raw.left + raw.width
    &&& raw.top <= y
    &&& y < raw.top + raw.height
    &&& raw.data[((y - raw.top) * raw.width + (x - raw.left)) * 4 + 3] != 0
}

proof fn lemma_canvas_size(gif: GifView, n: nat)
    ensures
        canvas_after(gif, n).width == gif.width,
        canvas_after(gif, n).height == gif.height,
        canvas_after(gif, n).wf(),
    decreases n,
{
    if n > 0 {
        lemma_canvas_size(gif, (n - 1) as nat);
    } else {
        assert(0 <= gif.width * gif.height * 4) by (nonlinear_arith);
    }
}

proof fn lemma_drawn(canvas: Picture, raw: RawView, x: int, y: int, c: int)
    requires
        canvas.wf(),
        0 <= x < canvas.width,
        0 <= y < canvas.height,
        0 <= c < 4,
    ensures
        ({
            let at = (y * canvas.width + x) * 4 + c;
            &&& 0 <= at < canvas.data.len()
            &&& drawn(canvas, raw).data[at] == if paints(raw, x, y) {
                raw.data[((y - raw.top) * raw.width + (x - raw.left)) * 4 + c]
            } else {
                canvas.data[at]
            }
            &&& crate::gif_in::cleared(canvas, raw).data[at] == if raw.left <= x && x < raw.left
                + raw.width && raw.top <= y && y < raw.top + raw.height {
                0
            } else {
                canvas.data[at]
            }
        }),
{
    lemma_byte_place(canvas.width as int, x, y, c);
    lemma_offset_inside(canvas.width as int, canvas.height as int, x, y);
    let k = offset(canvas.width as int, x, y) + c;
    assert(drawn(canvas, raw).data[k] == crate::gif_in::drawn_byte(canvas, raw, k));
}

/// A decoded frame has the size of the canvas and shows the pixels of its patch
/// where they are not transparent; the first shows nothing else. It is attached,
/// and lasts as long as the file says, a hundredth of a second at least.
pub proof fn law_a_decoded_frame_shows_its_patch(
    gif: GifView,
    n: nat,
    key: u64,
    i: int,
    x: int,
    y: int,
    c: int,
)
    requires
        0 <= i < n <= gif.frames.len(),
        0 <= x < gif.width,
        0 <= y < gif.height,
        0 <= c < 4,
    ensures
        ({
            let (frame, raw) = (composed(gif, n, key)[i], gif.frames[i]);
            let at = (y * gif.width + x) * 4 + c;
            &&& composed(gif, n, key).len() == n
            &&& frame.pixels.width == gif.width
            &&& frame.pixels.height == gif.height
            &&& frame.pixels.data.len() == gif.width * gif.height * 4
            &&& paints(raw, x, y) ==> frame.pixels.data[at] == raw.data[((y - raw.top) * raw.width
                + (x - raw.left)) * 4 + c]
            &&& i == 0 && !paints(raw, x, y) ==> frame.pixels.data[at] == 0
            &&& raw.delay > 0 ==> frame.delay_cs == raw.delay
            &&& raw.delay == 0 ==> frame.delay_cs == 1
            &&& !frame.detached
        }),
{
    lemma_canvas_size(gif, i as nat);
    lemma_drawn(canvas_after(gif, i as nat), gif.frames[i], x, y, c);
}

/// Where a frame's patch leaves the canvas, a decoded frame shows what the frame
/// before it showed there; only a frame that asks for it is wiped from its place
/// first. A frame without a disposal method stays.
pub proof fn law_a_decoded_frame_stays_under_the_next(
    gif: GifView,
    n: nat,
    key: u64,
    i: int,
    x: int,
    y: int,
    c: int,
)
    requires
        0 <= i,
        i + 1 < n <= gif.frames.len(),
        0 <= x < gif.width,
        0 <= y < gif.height,
        0 <= c < 4,
        !paints(gif.frames[i + 1], x, y),
        gif.frames[i].disposal != Disposal::Previous,
    ensures
        ({
            let frames = composed(gif, n, key);
            let raw = gif.frames[i];
            let at = (y * gif.width + x) * 4 + c;
            let wiped = raw.disposal == Disposal::Background && raw.left <= x && x < raw.left
                + raw.width && raw.top <= y && y < raw.top + raw.height;
            frames[i + 1].pixels.data[at] == if wiped {
                0
            } else {
                frames[i].pixels.data[at]
            }
        }),
{
    let canvas = canvas_after(gif, i as nat);
    let raw = gif.frames[i];
    lemma_canvas_size(gif, i as nat);
    lemma_canvas_size(gif, (i + 1) as nat);
    lemma_drawn(canvas, raw, x, y, c);
    lemma_drawn(drawn(canvas, raw), raw, x, y, c);
    assert(canvas_after(gif, (i + 1) as nat) == disposed(canvas, raw));
    lemma_drawn(canvas_after(gif, (i + 1) as nat), gif.frames[i + 1], x, y, c);
}

proof fn lemma_canvas_without(gif: GifView, p: int, m: nat)
    requires
        0 <= p < gif.frames.len(),
        m < gif.frames.len(),
        gif.frames[p].disposal == Disposal::Previous,
    ensures
        ({
            let less = GifView { frames: gif.frames.remove(p), ..gif };
            &&& m <= p ==> canvas_after(less, m) == canvas_after(gif, m)
            &&& m >= p ==> canvas_after(less, m) == canvas_after(gif, m + 1)
        }),
    decreases m,
{
    let less = GifView { frames: gif.frames.remove(p), ..gif };
    if m > 0 {
        lemma_canvas_without(gif, p, (m - 1) as nat);
        if m <= p {
            assert(less.frames[m - 1] == gif.frames[m - 1]);
        } else {
            assert(less.frames[m - 1] == gif.frames[m as int]);
        }
    }
    if m == p {
        assert(canvas_after(gif, m + 1) == disposed(canvas_after(gif, m), gif.frames[p]));
    }
}

/// A frame that is disposed of to what was there before it leaves no trace: the
/// other frames look as they would without it.
pub proof fn law_a_frame_undone_leaves_no_trace(gif: GifView, key: u64, other: u64, p: int, i: int)
    requires
        0 <= p < gif.frames.len(),
        gif.frames[p].disposal == Disposal::Previous,
        0 <= i < gif.frames.len(),
        i != p,
    ensures
        ({
            let all = gif.frames.len();
            let less = GifView { frames: gif.frames.remove(p), ..gif };
            let at = if i < p {
                i
            } else {
                i - 1
            };
            &&& composed(gif, all, key)[i].pixels == composed(less, (all - 1) as nat, other)[at].pixels
            &&& composed(gif, all, key)[i].delay_cs == composed(
                less,
                (all - 1) as nat,
                other,
            )[at].delay_cs
        }),
{
    let less = GifView { frames: gif.frames.remove(p), ..gif };
    let at = if i < p {
        i
    } else {
        i - 1
    };
    lemma_canvas_without(gif, p, at as nat);
    assert(less.frames[at] == gif.frames[i]);
}

} // verus!
