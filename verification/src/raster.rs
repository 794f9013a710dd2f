//! RGBA pixel buffers, and the resampling the `image` crate does on them.

use vstd::prelude::*;

use crate::model::{thumb_height, thumb_rows, THUMB_W};

verus! {

/// The longest side from which the resampler enlarges, and to which it shrinks.
/// It places its samples in single precision: enlarging a side of this length
/// one is off by up to a third of a pixel, and where it is off by half of one
/// there need be no pixel under it, which the resampler panics on. Shrinking a
/// side to this length at most, it is off by less than a fifth of the pixels
/// that it takes together, however long the side is.
pub const SIDE_LIMIT: u32 = 1048576;

/// How `resize` weighs the source pixels under a target pixel.
#[derive(Clone, Copy, PartialEq, Eq, Debug, Structural)]
pub enum Filter {
    Triangle,
    Lanczos3,
}

/// A picture of `width` by `height` pixels, four bytes a pixel (red, green,
/// blue, alpha), rows top to bottom with no padding.
#[derive(Debug)]
pub struct Raster {
    pub width: u32,
    pub height: u32,
    pub data: Vec<u8>,
}

/// One pixel: red, green, blue, alpha.
pub type Rgba8 = [u8; 4];

/// The mathematical picture behind a `Raster`.
pub struct Picture {
    pub width: u32,
    pub height: u32,
    pub data: Seq<u8>,
}

/// Where pixel (`x`, `y`) starts in the data of a picture `width` wide.
pub open spec fn offset(width: int, x: int, y: int) -> int {
    (y * width + x) * 4
}

/// Whether `data` holds exactly the bytes of a `w` by `h` picture.
pub open spec fn fills(w: int, h: int, data: Seq<u8>) -> bool {
    data.len() == w * h * 4
}

/// The column of the pixel that byte `k` belongs to.
pub open spec fn column_of(width: int, k: int) -> int {
    (k / 4) % width
}

/// The row of the pixel that byte `k` belongs to.
pub open spec fn row_of(width: int, k: int) -> int {
    (k / 4) / width
}

/// Byte `c` of pixel (`x`, `y`).
pub open spec fn channel_at(p: Picture, x: int, y: int, c: int) -> u8 {
    p.data[offset(p.width as int, x, y) + c]
}

/// Whether the resampler can bring a side of length `from` to length `to`.
pub open spec fn side_scales(from: int, to: int) -> bool {
    from <= SIDE_LIMIT || to <= SIDE_LIMIT
}

/// Whether a buffer `sw` by `sh` can be resampled to `w` by `h`: its sides can,
/// and the intermediate picture (16 bytes a pixel) and the result both fit an
/// allocation.
pub open spec fn resizable(sw: int, sh: int, w: int, h: int) -> bool {
    &&& side_scales(sw, w)
    &&& side_scales(sh, h)
    &&& sw * h * 16 <= isize::MAX
    &&& w * h * 4 <= isize::MAX
}

/// Whether a picture of this size can be a frame: there can be a thumbnail of
/// it. The thumbnail of a narrow picture is larger than the picture.
pub open spec fn drawable(w: int, h: int) -> bool {
    thumb_height(w, h) <= u32::MAX && resizable(w, h, THUMB_W as int, thumb_height(w, h))
}

pub fn is_drawable(w: u32, h: u32) -> (r: bool)
    ensures
        r == drawable(w as int, h as int),
{
    let tall = thumb_rows(w, h);
    tall <= u32::MAX as u64 && can_resample(w, h, THUMB_W, tall as u32)
}

/// Whether a buffer can be resampled in the memory there can be.
pub fn can_resample(sw: u32, sh: u32, w: u32, h: u32) -> (r: bool)
    ensures
        r == resizable(sw as int, sh as int, w as int, h as int),
{
    assert(sw * h <= 0xffff_ffff * 0xffff_ffff && w * h <= 0xffff_ffff * 0xffff_ffff)
        by (nonlinear_arith)
        requires
            sw <= 0xffff_ffff,
            w <= 0xffff_ffff,
            h <= 0xffff_ffff,
    ;
    (sw <= SIDE_LIMIT || w <= SIDE_LIMIT) && (sh <= SIDE_LIMIT || h <= SIDE_LIMIT) && sw as u128
        * h as u128 * 16 <= isize::MAX as u128 && w as u128 * h as u128 * 4 <= isize::MAX as u128
}

/// The pixel offset stays inside the data of a well-formed picture.
pub proof fn lemma_offset_inside(w: int, h: int, x: int, y: int)
    requires
        0 <= x < w,
        0 <= y < h,
    ensures
        0 <= offset(w, x, y),
        offset(w, x, y) + 4 <= w * h * 4,
{
    assert(y * w + x + 1 <= h * w) by (nonlinear_arith)
        requires
            0 <= x < w,
            0 <= y < h,
    ;
    assert(0 <= y * w) by (nonlinear_arith)
        requires
            0 <= y,
            0 <= w,
    ;
    assert(h * w == w * h) by (nonlinear_arith);
}

/// Byte `c` of pixel (`x`, `y`) belongs to column `x` and row `y`.
pub proof fn lemma_byte_place(w: int, x: int, y: int, c: int)
    requires
        0 <= x < w,
        0 <= y,
        0 <= c < 4,
    ensures
        column_of(w, offset(w, x, y) + c) == x,
        row_of(w, offset(w, x, y) + c) == y,
        (offset(w, x, y) + c) % 4 == c,
{
    assert((offset(w, x, y) + c) / 4 == y * w + x);
    vstd::arithmetic::div_mod::lemma_fundamental_div_mod_converse(y * w + x, w, y, x);
}

impl View for Raster {
    type V = Picture;

    open spec fn view(&self) -> Picture {
        Picture { width: self.width, height: self.height, data: self.data@ }
    }
}

impl Picture {
    /// The data holds four bytes for each pixel.
    pub open spec fn wf(self) -> bool {
        fills(self.width as int, self.height as int, self.data)
    }

    /// A wholly transparent black picture.
    pub open spec fn blank(w: u32, h: u32) -> Picture {
        Picture {
            width: w,
            height: h,
            data: Seq::new((w as int * h as int * 4) as nat, |i: int| 0u8),
        }
    }

    /// The picture is of a size a frame can have.
    pub open spec fn within_limit(self) -> bool {
        drawable(self.width as int, self.height as int)
    }

    /// Every pixel is fully opaque.
    pub open spec fn opaque(self) -> bool {
        forall|i: int| 0 <= i < self.width * self.height ==> #[trigger] self.data[i * 4 + 3] == 255
    }

    /// The picture seen through a `w` by `h` window whose corner sits at
    /// (`x`, `y`): what the window shows of the picture is copied, what lies
    /// past it is transparent black.
    pub open spec fn window(self, x: u32, y: u32, w: u32, h: u32) -> Picture {
        Picture {
            width: w,
            height: h,
            data: Seq::new((w as int * h as int * 4) as nat, |k: int| self.window_byte(x, y, w, k)),
        }
    }

    /// Byte `k` of that window.
    pub open spec fn window_byte(self, x: u32, y: u32, w: u32, k: int) -> u8 {
        let i = x + column_of(w as int, k);
        let j = y + row_of(w as int, k);
        if i < self.width && j < self.height {
            channel_at(self, i, j, k % 4)
        } else {
            0
        }
    }

    /// The picture with `top` laid over it, replacing what it covers, its
    /// corner at (`x`, `y`). What falls outside the picture is lost.
    pub open spec fn overlaid(self, top: Picture, x: int, y: int) -> Picture {
        Picture {
            width: self.width,
            height: self.height,
            data: Seq::new(self.data.len(), |k: int| self.overlaid_byte(top, x, y, k)),
        }
    }

    /// Byte `k` of the overlaid picture.
    pub open spec fn overlaid_byte(self, top: Picture, x: int, y: int, k: int) -> u8 {
        let i = column_of(self.width as int, k);
        let j = row_of(self.width as int, k);
        if x <= i < x + top.width && y <= j < y + top.height {
            channel_at(top, i - x, j - y, k % 4)
        } else {
            self.data[k]
        }
    }
}

impl Raster {
    pub open spec fn wf(&self) -> bool {
        self@.wf()
    }

    /// A buffer over the given bytes, if they are exactly enough.
    pub fn from_raw(width: u32, height: u32, data: Vec<u8>) -> (r: Option<Raster>)
        ensures
            r is Some <==> fills(width as int, height as int, data@),
            r matches Some(raster) ==> raster.wf() && raster@ == (Picture {
                width,
                height,
                data: data@,
            }),
    {
        let r = Raster { width, height, data };
        if r.is_whole() {
            Some(r)
        } else {
            None
        }
    }

    /// Whether the bytes are exactly enough.
    pub fn is_whole(&self) -> (r: bool)
        ensures
            r == self.wf(),
    {
        let (width, height) = (self.width, self.height);
        assert(width * height <= 0xffff_ffff * 0xffff_ffff) by (nonlinear_arith)
            requires
                width <= 0xffff_ffff,
                height <= 0xffff_ffff,
        ;
        let pixels: u64 = width as u64 * height as u64;
        self.data.len() % 4 == 0 && self.data.len() as u64 / 4 == pixels
    }

    /// A wholly transparent picture.
    pub fn blank(w: u32, h: u32) -> (r: Raster)
        requires
            w * h * 4 <= usize::MAX,
        ensures
            r.wf(),
            r@ == Picture::blank(w, h),
    {
        proof {
            lemma_size_steps(w as int, h as int);
        }
        let r = Raster { width: w, height: h, data: vec![0u8; w as usize * h as usize * 4] };
        assert(r@.data =~= Picture::blank(w, h).data);
        r
    }

    /// The picture through a `w` by `h` window at (`x`, `y`), transparent past
    /// its edges.
    pub fn window(&self, x: u32, y: u32, w: u32, h: u32) -> (r: Raster)
        requires
            self.wf(),
            w * h * 4 <= usize::MAX,
        ensures
            r.wf(),
            r@ == self@.window(x, y, w, h),
    {
        let mut data: Vec<u8> = Vec::new();
        let mut j: u32 = 0;
        assert(0 * (w as int) * 4 == 0) by (nonlinear_arith);
        while j < h
            invariant
                self.wf(),
                j <= h,
                data@.len() == offset(w as int, 0, j as int),
                forall|k: int|
                    0 <= k < data@.len() ==> #[trigger] data@[k] == self@.window_byte(x, y, w, k),
            decreases h - j,
        {
            let mut i: u32 = 0;
            while i < w
                invariant
                    self.wf(),
                    i <= w,
                    j < h,
                    data@.len() == offset(w as int, i as int, j as int),
                    forall|k: int|
                        0 <= k < data@.len() ==> #[trigger] data@[k] == self@.window_byte(x, y, w, k),
                decreases w - i,
            {
                proof {
                    lemma_byte_place(w as int, i as int, j as int, 0);
                    lemma_byte_place(w as int, i as int, j as int, 1);
                    lemma_byte_place(w as int, i as int, j as int, 2);
                    lemma_byte_place(w as int, i as int, j as int, 3);
                }
                let p = self.pixel_or_clear(x as u64 + i as u64, y as u64 + j as u64);
                data.push(p[0]);
                data.push(p[1]);
                data.push(p[2]);
                data.push(p[3]);
                i = i + 1;
            }
            assert(offset(w as int, w as int, j as int) == offset(w as int, 0, j + 1))
                by (nonlinear_arith);
            j = j + 1;
        }
        assert(offset(w as int, 0, h as int) == w * h * 4) by (nonlinear_arith);
        let r = Raster { width: w, height: h, data };
        assert(r@.data =~= self@.window(x, y, w, h).data);
        r
    }

    /// The picture with `top` laid over it, its corner at (`x`, `y`).
    pub fn overlaid(&self, top: &Raster, x: i64, y: i64) -> (r: Raster)
        requires
            self.wf(),
            top.wf(),
        ensures
            r.wf(),
            r@ == self@.overlaid(top@, x as int, y as int),
    {
        let (w, h) = (self.width, self.height);
        let mut data: Vec<u8> = Vec::new();
        let mut j: u32 = 0;
        assert(0 * (w as int) * 4 == 0) by (nonlinear_arith);
        while j < h
            invariant
                self.wf(),
                top.wf(),
                w == self.width,
                h == self.height,
                j <= h,
                data@.len() == offset(w as int, 0, j as int),
                forall|k: int|
                    0 <= k < data@.len() ==> #[trigger] data@[k] == self@.overlaid_byte(
                        top@,
                        x as int,
                        y as int,
                        k,
                    ),
            decreases h - j,
        {
            let mut i: u32 = 0;
            while i < w
                invariant
                    self.wf(),
                    top.wf(),
                    w == self.width,
                    h == self.height,
                    i <= w,
                    j < h,
                    data@.len() == offset(w as int, i as int, j as int),
                    forall|k: int|
                        0 <= k < data@.len() ==> #[trigger] data@[k] == self@.overlaid_byte(
                            top@,
                            x as int,
                            y as int,
                            k,
                        ),
                decreases w - i,
            {
                proof {
                    lemma_byte_place(w as int, i as int, j as int, 0);
                    lemma_byte_place(w as int, i as int, j as int, 1);
                    lemma_byte_place(w as int, i as int, j as int, 2);
                    lemma_byte_place(w as int, i as int, j as int, 3);
                }
                let (across, down) = (i as i128 - x as i128, j as i128 - y as i128);
                let p = if 0 <= across && across < top.width as i128 && 0 <= down && down
                    < top.height as i128 {
                    top.pixel_or_clear(across as u64, down as u64)
                } else {
                    self.pixel_or_clear(i as u64, j as u64)
                };
                data.push(p[0]);
                data.push(p[1]);
                data.push(p[2]);
                data.push(p[3]);
                i = i + 1;
            }
            assert(offset(w as int, w as int, j as int) == offset(w as int, 0, j + 1))
                by (nonlinear_arith);
            j = j + 1;
        }
        assert(offset(w as int, 0, h as int) == w * h * 4) by (nonlinear_arith);
        let r = Raster { width: w, height: h, data };
        assert(r@.data =~= self@.overlaid(top@, x as int, y as int).data);
        r
    }

    /// Whether every pixel is fully opaque.
    pub fn opaque(&self) -> (r: bool)
        requires
            self.wf(),
        ensures
            r == self@.opaque(),
    {
        let mut i: usize = 0;
        assert(self.data.len() == self.data@.len());
        let ghost pixels = self.width * self.height;
        assert(0 <= pixels) by (nonlinear_arith)
            requires
                pixels == self.width * self.height,
        ;
        while i < self.data.len() / 4
            invariant
                self.wf(),
                pixels == self.width * self.height,
                self.data.len() == pixels * 4,
                i <= pixels,
                forall|k: int| 0 <= k < i ==> #[trigger] self.data@[k * 4 + 3] == 255,
            decreases pixels - i,
        {
            if self.data[i * 4 + 3] != 255 {
                assert(self@.data[i as int * 4 + 3] != 255);
                return false;
            }
            i = i + 1;
        }
        true
    }

    /// Whether two buffers hold the same picture.
    pub fn same(&self, other: &Raster) -> (r: bool)
        ensures
            r == (self@ == other@),
    {
        if self.width != other.width || self.height != other.height || self.data.len()
            != other.data.len() {
            return false;
        }
        let mut i: usize = 0;
        while i < self.data.len()
            invariant
                self.width == other.width,
                self.height == other.height,
                self.data@.len() == other.data@.len(),
                i <= self.data@.len(),
                forall|k: int| 0 <= k < i ==> self.data@[k] == other.data@[k],
            decreases self.data@.len() - i,
        {
            if self.data[i] != other.data[i] {
                return false;
            }
            i = i + 1;
        }
        assert(self.data@ =~= other.data@);
        true
    }

    /// The pixel at (`x`, `y`), transparent black past the edges.
    pub fn pixel_or_clear(&self, x: u64, y: u64) -> (p: Rgba8)
        requires
            self.wf(),
        ensures
            forall|c: int|
                0 <= c < 4 ==> #[trigger] p@[c] == (if x < self.width && y < self.height {
                    channel_at(self@, x as int, y as int, c)
                } else {
                    0
                }),
    {
        if x < self.width as u64 && y < self.height as u64 {
            proof {
                lemma_offset_inside(self.width as int, self.height as int, x as int, y as int);
                lemma_row_start(self.width as int, x as int, y as int);
                assert(self.data.len() == self.data@.len());
            }
            let at: usize = (y as usize * self.width as usize + x as usize) * 4;
            [self.data[at], self.data[at + 1], self.data[at + 2], self.data[at + 3]]
        } else {
            [0, 0, 0, 0]
        }
    }
}

/// The picture `image::imageops::resize` makes of `source` at `w` by `h` with
/// the triangle filter.
pub uninterp spec fn resampled(source: Picture, w: u32, h: u32) -> Picture;

/// Calls `image::imageops::resize`. Claimed of it: the result has the size
/// asked for and holds four bytes a pixel, a picture resized to its own size
/// comes back as it was, and with the triangle filter it depends on the source
/// picture and the size alone. Of the pixels that the Lanczos filter makes
/// nothing is claimed: its weights are sines, whose last digits differ from
/// one machine to another.
#[verifier::external_body]
pub(crate) fn resize(source: &Raster, w: u32, h: u32, filter: Filter) -> (r: Raster)
    requires
        source.wf(),
        resizable(source.width as int, source.height as int, w as int, h as int),
    ensures
        filter is Triangle ==> r@ == resampled(source@, w, h),
        r.wf(),
        r.width == w,
        r.height == h,
        (w == source.width && h == source.height) ==> r@ == source@,
{
    let image = image::RgbaImage::from_raw(source.width, source.height, source.data.clone());
    let kind = match filter {
        Filter::Triangle => image::imageops::FilterType::Triangle,
        Filter::Lanczos3 => image::imageops::FilterType::Lanczos3,
    };
    let out = image::imageops::resize(&image.unwrap(), w, h, kind);
    Raster { width: out.width(), height: out.height(), data: out.into_raw() }
}

/// Whether `r` is a picture that `resize` can make of `source` at `w` by `h`
/// with the Lanczos filter. On another machine it can be another one.
pub closed spec fn scaled(source: Raster, w: u32, h: u32, r: Raster) -> bool {
    call_ensures(resize, (&source, w, h, Filter::Lanczos3), r)
}

/// What a function makes of a picture.
fn made_of<F: Fn(&Raster, u32, u32, Filter) -> Raster>(
    f: F,
    source: &Raster,
    w: u32,
    h: u32,
    filter: Filter,
) -> (r: Raster)
    requires
        call_requires(f, (source, w, h, filter)),
    ensures
        call_ensures(f, (source, w, h, filter), r),
{
    f(source, w, h, filter)
}

/// A picture scaled with the Lanczos filter.
pub fn scale(source: &Raster, w: u32, h: u32) -> (r: Raster)
    requires
        source.wf(),
        resizable(source.width as int, source.height as int, w as int, h as int),
    ensures
        scaled(*source, w, h, r),
        r.wf(),
        r.width == w,
        r.height == h,
        (w == source.width && h == source.height) ==> r@ == source@,
{
    made_of(resize, source, w, h, Filter::Lanczos3)
}

impl PartialEq for Raster {
    fn eq(&self, other: &Raster) -> (r: bool) {
        self.same(other)
    }
}

impl vstd::std_specs::cmp::PartialEqSpecImpl for Raster {
    open spec fn obeys_eq_spec() -> bool {
        true
    }

    open spec fn eq_spec(&self, other: &Raster) -> bool {
        self@ == other@
    }
}

/// The partial products of a picture's size fit where the size does.
proof fn lemma_size_steps(w: int, h: int)
    requires
        0 <= w,
        0 <= h,
    ensures
        0 <= w * h,
        w * h <= w * h * 4,
{
    assert(0 <= w * h) by (nonlinear_arith)
        requires
            0 <= w,
            0 <= h,
    ;
}

/// The partial products of a pixel's offset are no larger than the offset.
pub proof fn lemma_row_start(w: int, x: int, y: int)
    requires
        0 <= w,
        0 <= x,
        0 <= y,
    ensures
        0 <= y * w <= y * w + x <= offset(w, x, y),
{
    assert(0 <= y * w) by (nonlinear_arith)
        requires
            0 <= y,
            0 <= w,
    ;
}

} // verus!
