//! What an export keeps of the pixels it is given.

use vstd::prelude::*;

use crate::color::{surface_picture, unmultiplied};
use crate::dither::{indexed, mapping_after, nth_pixel, spread, Debt, Mapping};
use crate::encode::{estimate_of, file_palette, sample_places, wanted_colors, Estimate};
use crate::gif_out::{
    head_bytes, nearest, palette_of, picked_bytes, picked_pixels, repeat_bytes, sample_step,
    sample_stride, sampled, strided,
};
use crate::raster::Picture;

verus! {

/// The header of a file names the format, the size with its low byte first, and
/// the colors, filled up with black.
pub proof fn law_the_header_says_the_size(width: u16, height: u16, palette: Seq<u8>, i: int)
    requires
        6 <= palette.len() <= 768,
        palette.len() % 3 == 0,
    ensures
        ({
            let head = head_bytes(width, height, palette);
            let colors = (head.len() - 13) / 3;
            &&& head.take(6) == seq![71u8, 73, 70, 56, 57, 97]
            &&& head[6] + 256 * head[7] == width
            &&& head[8] + 256 * head[9] == height
            &&& head[10] >= 128
            &&& head.len() == 13 + 3 * colors
            &&& 3 * colors >= palette.len()
            &&& 3 * colors < 2 * palette.len()
            &&& 0 <= i < palette.len() ==> head[13 + i] == palette[i]
            &&& palette.len() <= i < 3 * colors ==> head[13 + i] == 0
            &&& head[10] % 8 == head[10] / 16 % 8
            &&& head[10] % 8 == 0 ==> colors == 2
            &&& head[10] % 8 == 1 ==> colors == 4
            &&& head[10] % 8 == 2 ==> colors == 8
            &&& head[10] % 8 == 3 ==> colors == 16
            &&& head[10] % 8 == 4 ==> colors == 32
            &&& head[10] % 8 == 5 ==> colors == 64
            &&& head[10] % 8 == 6 ==> colors == 128
            &&& head[10] % 8 == 7 ==> colors == 256
        }),
{
    reveal_with_fuel(crate::gif_out::doubled, 9);
    let head = head_bytes(width, height, palette);
    assert(head.take(6) =~= seq![71u8, 73, 70, 56, 57, 97]);
}

/// A file that plays once says nothing of repeating. Any other says how often,
/// low byte first, and never stops where it says nought.
pub proof fn law_the_file_says_how_often_it_plays(loops: Option<u16>)
    ensures
        ({
            let bytes = repeat_bytes(loops);
            &&& loops == Some(0u16) ==> bytes.len() == 0
            &&& loops != Some(0u16) ==> {
                &&& bytes.len() == 19
                &&& bytes[0] == 0x21 && bytes[1] == 0xff && bytes[2] == 11 && bytes[14] == 3
                    && bytes[15] == 1 && bytes[18] == 0
                &&& loops matches Some(n) ==> bytes[16] + 256 * bytes[17] == n
                &&& loops is None ==> bytes[16] == 0 && bytes[17] == 0
            }
        }),
{
}

/// An export takes as many colors as it was told, two at least and no more than
/// a file can have, and leaves room for the transparent one where there is one.
pub proof fn law_an_export_takes_the_colors_it_was_told(colors: u16)
    ensures
        2 <= colors <= 256 ==> wanted_colors(colors, false) == colors,
        3 <= colors <= 256 ==> wanted_colors(colors, true) == colors - 1,
        colors < 2 ==> wanted_colors(colors, false) == 2,
        colors < 3 ==> wanted_colors(colors, true) == 2,
        colors > 256 ==> wanted_colors(colors, false) == 256,
        colors > 256 ==> wanted_colors(colors, true) == 255,
{
}

/// The colors of a file are those that were found, and after them there is a
/// slot for the transparent one where there is one. Their number is the next
/// power of two.
pub proof fn law_the_palette_holds_the_colors(colors: Seq<u8>, transparent: bool, i: int)
    requires
        6 <= colors.len() <= 765,
        colors.len() % 3 == 0,
    ensures
        ({
            let file = file_palette(colors, transparent);
            &&& 0 <= i < colors.len() ==> file[i] == colors[i]
            &&& file.len() >= colors.len()
            &&& transparent ==> file.len() >= colors.len() + 3
            &&& colors.len() <= i < file.len() ==> file[i] == 0
            &&& file.len() == 6 || file.len() == 12 || file.len() == 24 || file.len() == 48
                || file.len() == 96 || file.len() == 192 || file.len() == 384 || file.len() == 768
            &&& file.len() > 6 ==> file.len() / 2 < colors.len() + if transparent {
                3
            } else {
                0int
            }
        }),
{
}

/// A row of pictures end to end.
pub open spec fn end_to_end(frames: Seq<(Picture, u16)>) -> Seq<u8>
    decreases frames.len(),
{
    if frames.len() == 0 {
        seq![]
    } else {
        end_to_end(frames.drop_last()) + frames.last().0.data
    }
}

proof fn lemma_strided_all(data: Seq<u8>, n: int)
    requires
        data.len() % 4 == 0,
        0 <= n <= data.len() / 4,
    ensures
        strided(data, 1, n) == data.skip(n * 4),
    decreases data.len() / 4 - n,
{
    if n < data.len() / 4 {
        lemma_strided_all(data, n + 1);
        assert(data.subrange(n * 4, n * 4 + 4) + data.skip((n + 1) * 4) =~= data.skip(n * 4));
    } else {
        assert(data.skip(n * 4) =~= seq![]);
    }
}

proof fn lemma_end_to_end(frames: Seq<(Picture, u16)>, i: int)
    requires
        0 <= i <= frames.len(),
        forall|k: int| 0 <= k < frames.len() ==> (#[trigger] frames[k]).0.data.len() % 4 == 0,
    ensures
        end_to_end(frames.take(i)) + picked_bytes(frames, 1, 1, i) == end_to_end(frames),
    decreases frames.len() - i,
{
    if i < frames.len() {
        lemma_end_to_end(frames, i + 1);
        lemma_strided_all(frames[i].0.data, 0);
        assert(frames[i].0.data.skip(0) =~= frames[i].0.data);
        assert(frames.take(i + 1).drop_last() =~= frames.take(i));
        assert(frames.take(i + 1).last() == frames[i]);
        assert(end_to_end(frames.take(i)) + (frames[i].0.data + picked_bytes(frames, 1, 1, i + 1))
            =~= end_to_end(frames.take(i)) + frames[i].0.data + picked_bytes(frames, 1, 1, i + 1));
    } else {
        assert(frames.take(i) =~= frames);
        assert(end_to_end(frames) + seq![] =~= end_to_end(frames));
    }
}

/// Where there are few frames and few pixels, the colors are chosen from every
/// pixel of every frame.
pub proof fn law_a_small_export_looks_at_every_pixel(frames: Seq<(Picture, u16)>)
    requires
        0 < frames.len() <= 16,
        forall|k: int| 0 <= k < frames.len() ==> (#[trigger] frames[k]).0.data.len() % 4 == 0,
        picked_pixels(frames, 1, 0) < 2_000_000,
        end_to_end(frames).len() > 0,
    ensures
        sampled(frames) == end_to_end(frames),
{
    lemma_end_to_end(frames, 0);
    assert(frames.take(0) =~= seq![]);
    assert(end_to_end(frames.take(0)) =~= seq![]);
    assert(seq![] + picked_bytes(frames, 1, 1, 0) =~= picked_bytes(frames, 1, 1, 0));
}

/// A sample for an estimate takes one frame out of each of equal parts of the
/// animation, in order.
pub proof fn law_a_sample_is_spread_evenly(n: nat, count: usize, i: int)
    requires
        0 < count <= n <= usize::MAX,
        0 <= i < count,
    ensures
        ({
            let places = sample_places(n, count);
            &&& places.len() == count
            &&& i * n <= places[i] * count + count
            &&& places[i] * count < (i + 1) * n
            &&& n == count ==> places[i] == i
            &&& i + 1 < count ==> places[i] < places[i + 1]
        }),
{
    let c = count as int;
    let half = n as int / 2;
    let a = (i * n + half) / c;
    assert(a * c <= i * n + half < a * c + c) by (nonlinear_arith)
        requires
            c > 0,
            a == (i * n + half) / c,
    ;
    assert(i * n + n == (i + 1) * n) by (nonlinear_arith);
    assert(0 <= a < n) by (nonlinear_arith)
        requires
            a * c <= i * n + half,
            i * n + half < a * c + c,
            0 <= half < n,
            0 <= i < c,
            c > 0,
            n > 0,
    ;
    if n == count {
        assert(a == i) by (nonlinear_arith)
            requires
                a * c <= i * n + half < a * c + c,
                n == c,
                0 <= half < n,
        ;
    }
    if i + 1 < count {
        let b = ((i + 1) * n + half) / c;
        assert(b * c <= (i + 1) * n + half < b * c + c) by (nonlinear_arith)
            requires
                c > 0,
                b == ((i + 1) * n + half) / c,
        ;
        assert((i + 1) * n + n == (i + 2) * n) by (nonlinear_arith);
        assert(0 <= b < n) by (nonlinear_arith)
            requires
                b * c <= (i + 1) * n + half,
                (i + 1) * n + half < b * c + c,
                0 <= half < n,
                0 <= i + 1 < c,
                c > 0,
                n > 0,
        ;
        assert(a < b) by (nonlinear_arith)
            requires
                a * c <= i * n + half,
                (i + 1) * n + half < b * c + c,
                i * n + n == (i + 1) * n,
                c <= n,
                c > 0,
        ;
    }
}

/// A file that was written whole is measured, not guessed at, and a sample
/// accounts for each byte that was written once.
pub proof fn law_an_estimate_accounts_for_every_byte(measured: usize, sampled: usize, total: usize)
    ensures
        match estimate_of(measured, sampled, total) {
            Estimate::Measured(bytes) => bytes == measured && sampled >= total,
            Estimate::Sampled { once, frames, sampled: of } => sampled < total && once + frames
                == measured && of == sampled,
        },
{
}

/// What the four pixels next to a pixel get of its error is the whole error
/// where it parts evenly and leaves no color out of range; it goes to the right
/// and to the row below, and to no other pixel.
pub proof fn law_dithering_hands_the_error_on(owed: Seq<Debt>, x: int, row: int, e: int, k: int)
    requires
        0 <= x,
        row >= 3,
        x + 2 < row,
        owed.len() == 2 * row,
        -15 <= e <= 15,
        owed[x + 2].0 == 0,
        owed[x + row].0 == 0,
        owed[x + 1 + row].0 == 0,
        owed[x + 2 + row].0 == 0,
        0 <= k < owed.len(),
    ensures
        ({
            let after = spread(owed, x, row, ((16 * e) as i16, 0, 0));
            &&& after.len() == owed.len()
            &&& after[x + 2].0 + after[x + row].0 + after[x + 1 + row].0 + after[x + 2 + row].0 == 16
                * e
            &&& after[x + 2].0 == 7 * e
            &&& after[x + row].0 == 3 * e
            &&& after[x + 1 + row].0 == 5 * e
            &&& after[x + 2 + row].0 == e
            &&& k != x + 2 && k != x + row && k != x + 1 + row && k != x + 2 + row ==> after[k]
                == owed[k]
        }),
{
}

/// The error of each color is handed on by itself and the same way.
pub proof fn law_the_colors_are_dithered_alike(owed: Seq<Debt>, x: int, row: int, diff: Debt, k: int)
    requires
        0 <= x,
        row >= 3,
        x + 2 < row,
        owed.len() == 2 * row,
        0 <= k < owed.len(),
    ensures
        ({
            let turned = Seq::new(owed.len(), |i: int| (owed[i].1, owed[i].2, owed[i].0));
            let after = spread(owed, x, row, diff)[k];
            spread(turned, x, row, (diff.1, diff.2, diff.0))[k] == (after.1, after.2, after.0)
        }),
{
}

proof fn lemma_plain(
    quant: color_quant::NeuQuant,
    p: Picture,
    transparent: Option<u8>,
    n: nat,
    k: int,
)
    requires
        0 <= k < n,
    ensures
        ({
            let chosen = mapping_after(quant, p, transparent, false, n).chosen;
            let pixel = nth_pixel(p, k);
            &&& chosen.len() == n
            &&& chosen[k] == if pixel[3] < 128 && transparent is Some {
                transparent->0
            } else {
                nearest(quant, seq![pixel[0], pixel[1], pixel[2], 255]) as u8
            }
        }),
    decreases n,
{
    if k < n - 1 {
        lemma_plain(quant, p, transparent, (n - 1) as nat, k);
    } else {
        if n > 1 {
            lemma_plain(quant, p, transparent, (n - 1) as nat, k - 1);
        } else {
            assert(mapping_after(quant, p, transparent, false, 0).chosen.len() == 0);
        }
        let pixel = nth_pixel(p, k);
        assert(crate::dither::asked(pixel, (0i16, 0i16, 0i16)) =~= seq![
            pixel[0],
            pixel[1],
            pixel[2],
            255,
        ]);
    }
}

/// Without dithering, the color chosen for a pixel depends on that pixel alone:
/// the nearest to its color, or the transparent one where it is mostly
/// transparent and there is one. So pixels that are alike are written alike.
pub proof fn law_a_plain_color_is_the_nearest(
    quant: color_quant::NeuQuant,
    p: Picture,
    transparent: Option<u8>,
    k: int,
    l: int,
)
    requires
        0 <= k < p.data.len() / 4,
        0 <= l < p.data.len() / 4,
    ensures
        ({
            let chosen = indexed(quant, p, transparent, false);
            let at = 4 * k;
            &&& chosen.len() == p.data.len() / 4
            &&& p.data[at + 3] < 128 && transparent is Some ==> chosen[k] == transparent->0
            &&& p.data[at + 3] >= 128 || transparent is None ==> chosen[k] == nearest(
                quant,
                seq![p.data[at], p.data[at + 1], p.data[at + 2], 255],
            ) as u8
            &&& p.data.subrange(4 * k, 4 * k + 4) == p.data.subrange(4 * l, 4 * l + 4) ==> chosen[k]
                == chosen[l]
        }),
{
    lemma_plain(quant, p, transparent, (p.data.len() / 4) as nat, k);
    lemma_plain(quant, p, transparent, (p.data.len() / 4) as nat, l);
}

/// A color that was dimmed by its transparency is brought back as far as whole
/// numbers let it: dimmed again it is what it was, rounded up.
pub proof fn law_a_dimmed_color_is_brought_back(c: u8, a: u8)
    requires
        c <= a,
    ensures
        a == 255 ==> unmultiplied(c, a) == c,
        a == 0 ==> unmultiplied(c, a) == 0,
        a > 0 ==> unmultiplied(c, a) * a <= 255 * c < (unmultiplied(c, a) + 1) * a,
        c == a && a > 0 ==> unmultiplied(c, a) == 255,
{
    if a > 0 {
        let (x, y) = (c as int, a as int);
        let v = x * 255 / y;
        assert(v * y <= 255 * x < (v + 1) * y) by (nonlinear_arith)
            requires
                y > 0,
                v == x * 255 / y,
        ;
        assert(v <= 255) by (nonlinear_arith)
            requires
                v * y <= 255 * x,
                x <= y,
                y > 0,
        ;
        if a == 255 {
            assert(v == x) by (nonlinear_arith)
                requires
                    v * y <= 255 * x < (v + 1) * y,
                    y == 255,
            ;
        }
        if c == a {
            assert(v == 255) by (nonlinear_arith)
                requires
                    255 * x < (v + 1) * y,
                    x == y,
                    y > 0,
                    v <= 255,
            ;
        }
    }
}

/// A drawing surface holds blue first; a picture holds red first, and the rows
/// close up.
pub proof fn law_a_surface_is_read_red_first(
    data: Seq<u8>,
    w: u32,
    h: u32,
    stride: int,
    x: int,
    y: int,
)
    requires
        0 <= x < w,
        0 <= y < h,
    ensures
        ({
            let p = surface_picture(data, w, h, stride);
            let (to, from) = ((y * w + x) * 4, y * stride + x * 4);
            &&& p.width == w && p.height == h
            &&& p.data.len() == w * h * 4
            &&& p.data[to + 3] == data[from + 3]
            &&& data[from + 3] == 255 ==> {
                &&& p.data[to] == data[from + 2]
                &&& p.data[to + 1] == data[from + 1]
                &&& p.data[to + 2] == data[from]
            }
            &&& data[from + 3] == 0 ==> p.data[to] == 0 && p.data[to + 1] == 0 && p.data[to + 2]
                == 0
        }),
{
    crate::raster::lemma_byte_place(w as int, x, y, 0);
    crate::raster::lemma_byte_place(w as int, x, y, 1);
    crate::raster::lemma_byte_place(w as int, x, y, 2);
    crate::raster::lemma_byte_place(w as int, x, y, 3);
    crate::raster::lemma_offset_inside(w as int, h as int, x, y);
    let at = y * stride + x * 4;
    if data[at + 3] == 255 {
        law_a_dimmed_color_is_brought_back(data[at], 255);
        law_a_dimmed_color_is_brought_back(data[at + 1], 255);
        law_a_dimmed_color_is_brought_back(data[at + 2], 255);
    }
}

proof fn lemma_strided_pixel(data: Seq<u8>, stride: int, n: int, q: int)
    requires
        stride >= 1,
        n >= 0,
        0 <= q,
        4 * q < strided(data, stride, n).len(),
    ensures
        strided(data, stride, n).len() % 4 == 0,
        4 * q + 4 <= strided(data, stride, n).len(),
        4 * (n + q * stride) + 4 <= data.len(),
        strided(data, stride, n).subrange(4 * q, 4 * q + 4) == data.subrange(
            4 * (n + q * stride),
            4 * (n + q * stride) + 4,
        ),
    decreases q,
{
    let all = strided(data, stride, n);
    let rest = strided(data, stride, n + stride);
    assert(all == data.subrange(n * 4, n * 4 + 4) + rest);
    lemma_strided_whole(data, stride, n + stride);
    if q > 0 {
        lemma_strided_pixel(data, stride, n + stride, q - 1);
        assert(n + stride + (q - 1) * stride == n + q * stride) by (nonlinear_arith);
        assert(all.subrange(4 * q, 4 * q + 4) =~= rest.subrange(4 * (q - 1), 4 * (q - 1) + 4));
    } else {
        assert(q * stride == 0) by (nonlinear_arith)
            requires
                q == 0,
        ;
        assert(all.subrange(0, 4) =~= data.subrange(n * 4, n * 4 + 4));
    }
}

proof fn lemma_strided_whole(data: Seq<u8>, stride: int, n: int)
    requires
        stride >= 1,
        n >= 0,
    ensures
        strided(data, stride, n).len() % 4 == 0,
    decreases crate::gif_out::ahead_of(data.len() as int, n * 4),
{
    if n * 4 + 4 <= data.len() {
        lemma_strided_whole(data, stride, n + stride);
    }
}

/// What is looked at of a picture is every so many of its pixels, from the first
/// on.
pub proof fn law_a_sample_takes_whole_pixels(data: Seq<u8>, stride: int, q: int)
    requires
        stride >= 1,
        0 <= q,
        4 * q < strided(data, stride, 0).len(),
    ensures
        strided(data, stride, 0).len() % 4 == 0,
        strided(data, stride, 0).subrange(4 * q, 4 * q + 4) == data.subrange(
            4 * (q * stride),
            4 * (q * stride) + 4,
        ),
{
    lemma_strided_pixel(data, stride, 0, q);
}

proof fn lemma_picked(frames: Seq<(Picture, u16)>, step: int, stride: int, i: int, at: int)
    requires
        step >= 1,
        stride >= 1,
        0 <= i,
        0 <= at < picked_bytes(frames, step, stride, i).len(),
    ensures
        exists|k: int|
            #![trigger frames[i + k * step]]
            0 <= k && i + k * step < frames.len() && strided(
                frames[i + k * step].0.data,
                stride,
                0,
            ).contains(picked_bytes(frames, step, stride, i)[at]),
    decreases crate::gif_out::ahead_of(frames.len() as int, i),
{
    let own = strided(frames[i].0.data, stride, 0);
    let all = picked_bytes(frames, step, stride, i);
    let rest = picked_bytes(frames, step, stride, i + step);
    assert(all == own + rest);
    if at < own.len() {
        assert(own[at] == all[at]);
        assert(0 * step == 0) by (nonlinear_arith);
        assert(frames[i + 0 * step] == frames[i]);
    } else {
        lemma_picked(frames, step, stride, i + step, at - own.len());
        let k = choose|k: int|
            #![trigger frames[i + step + k * step]]
            0 <= k && i + step + k * step < frames.len() && strided(
                frames[i + step + k * step].0.data,
                stride,
                0,
            ).contains(rest[at - own.len()]);
        assert(i + step + k * step == i + (k + 1) * step) by (nonlinear_arith);
        assert(all[at] == rest[at - own.len()]);
        assert(frames[i + (k + 1) * step] == frames[i + step + k * step]);
    }
}

/// Of many frames every so many are looked at, and nothing is looked at that no
/// frame holds.
pub proof fn law_nothing_is_sampled_that_is_not_there(frames: Seq<(Picture, u16)>, at: int)
    requires
        0 <= at < sampled(frames).len(),
        picked_bytes(
            frames,
            sample_step(frames.len() as int),
            sample_stride(picked_pixels(frames, sample_step(frames.len() as int), 0)),
            0,
        ).len() > 0,
    ensures
        exists|k: int|
            #![trigger frames[k * sample_step(frames.len() as int)]]
            0 <= k && k * sample_step(frames.len() as int) < frames.len() && strided(
                frames[k * sample_step(frames.len() as int)].0.data,
                sample_stride(picked_pixels(frames, sample_step(frames.len() as int), 0)),
                0,
            ).contains(sampled(frames)[at]),
{
    let step = sample_step(frames.len() as int);
    let stride = sample_stride(picked_pixels(frames, step, 0));
    lemma_picked(frames, step, stride, 0, at);
    let k = choose|k: int|
        #![trigger frames[0 + k * step]]
        0 <= k && 0 + k * step < frames.len() && strided(
            frames[0 + k * step].0.data,
            stride,
            0,
        ).contains(picked_bytes(frames, step, stride, 0)[at]);
    assert(frames[k * step] == frames[0 + k * step]);
}

/// A color that came out too dark makes the next pixel brighter, one that came
/// out too bright makes it darker, and one that came out right leaves it.
pub proof fn law_the_next_pixel_makes_up_for_it(
    before: Mapping,
    quant: color_quant::NeuQuant,
    pixel: Seq<u8>,
    x: int,
    row: int,
)
    requires
        pixel.len() == 4,
        pixel[3] >= 128,
        0 <= x,
        x + 2 < row,
        before.owed.len() == 2 * row,
        forall|k: int| 0 <= k < before.owed.len() ==> #[trigger] before.owed[k] == (0i16, 0i16, 0i16),
    ensures
        ({
            let after = before.mapped(quant, pixel, x, row, None, true);
            let index = nearest(quant, seq![pixel[0], pixel[1], pixel[2], 255]);
            let got = palette_of(quant)[index * 3];
            &&& after.chosen == before.chosen.push(index as u8)
            &&& pixel[0] - got >= 3 ==> after.owed[x + 2].0 > 0
            &&& got - pixel[0] >= 3 ==> after.owed[x + 2].0 < 0
            &&& pixel[0] == got ==> after.owed[x + 2].0 == 0
        }),
{
    let color = crate::dither::asked(pixel, (0i16, 0i16, 0i16));
    assert(before.owed[x + 1] == (0i16, 0i16, 0i16));
    assert(before.owed[x + 2] == (0i16, 0i16, 0i16));
    assert(color =~= seq![pixel[0], pixel[1], pixel[2], 255]);
}

/// What the row below is owed comes due when that row begins, and the row after
/// it is owed nothing yet.
pub proof fn law_the_row_below_inherits_its_errors(owed: Seq<Debt>, row: int, k: int)
    requires
        0 < row,
        owed.len() == 2 * row,
        0 <= k < row,
    ensures
        crate::dither::next_row(owed, row).len() == owed.len(),
        crate::dither::next_row(owed, row)[k] == owed[row + k],
        crate::dither::next_row(owed, row)[row + k] == (0i16, 0i16, 0i16),
{
}

/// An export is as large as its first frame and dithers where it was told to.
pub proof fn law_an_export_follows_its_settings(
    frames: Seq<(Picture, u16)>,
    settings: crate::gif_out::ExportSettings,
)
    requires
        frames.len() > 0,
        frames[0].0.width <= u16::MAX,
        frames[0].0.height <= u16::MAX,
    ensures
        ({
            let plan = crate::encode::plan_of(frames, settings);
            &&& plan.width == frames[0].0.width
            &&& plan.height == frames[0].0.height
            &&& plan.dither == settings.dither
            &&& plan.transparent is Some <==> exists|i: int, n: int|
                0 <= i < frames.len() && 0 <= n < frames[i].0.data.len() / 4
                    && #[trigger] crate::encode::see_through(frames[i].0, n)
        }),
{
}

} // verus!
