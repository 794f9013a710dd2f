//! Mapping a picture onto a palette, with Floyd-Steinberg dithering or
//! without.

use vstd::prelude::*;

use crate::gif_out::{color_map, index_of, nearest, palette_of};
use crate::raster::{Picture, Raster};

verus! {

/// What the colors around a pixel owe it, for each of red, green and blue.
pub type Debt = (i16, i16, i16);

/// Where the mapping stands: the colors chosen, and what is owed to the pixels
/// of the row at hand and of the one below it, each row with a place more at
/// both ends.
pub struct Mapping {
    pub chosen: Seq<u8>,
    pub owed: Seq<Debt>,
}

/// A sixteenth, rounded towards zero.
pub open spec fn sixteenth(v: int) -> int {
    if v >= 0 {
        v / 16
    } else {
        -((-v) / 16)
    }
}

/// What is owed, kept within one color value.
pub open spec fn bounded(v: int) -> i16 {
    if v < -255 {
        (-255int) as i16
    } else if v > 255 {
        255
    } else {
        v as i16
    }
}

/// A color value.
pub open spec fn color_value(v: int) -> u8 {
    if v < 0 {
        0
    } else if v > 255 {
        255
    } else {
        v as u8
    }
}

/// The debts with `weight` sixteenths of a difference added at place `at`.
pub open spec fn owing(owed: Seq<Debt>, at: int, diff: Debt, weight: int) -> Seq<Debt> {
    let d = owed[at];
    owed.update(
        at,
        (
            bounded(d.0 + sixteenth(diff.0 * weight)),
            bounded(d.1 + sixteenth(diff.1 * weight)),
            bounded(d.2 + sixteenth(diff.2 * weight)),
        ),
    )
}

/// The debts with a difference at column `x` spread over its neighbours.
pub open spec fn spread(owed: Seq<Debt>, x: int, row: int, diff: Debt) -> Seq<Debt> {
    owing(
        owing(owing(owing(owed, x + 2, diff, 7), x + row, diff, 3), x + 1 + row, diff, 5),
        x + 2 + row,
        diff,
        1,
    )
}

/// The debts of the next row.
pub open spec fn next_row(owed: Seq<Debt>, row: int) -> Seq<Debt> {
    owed.skip(row) + no_debts(row as nat)
}

pub open spec fn no_debts(n: nat) -> Seq<Debt> {
    Seq::new(n, |i: int| (0i16, 0i16, 0i16))
}

/// The color that a pixel and what it is owed ask for.
pub open spec fn asked(pixel: Seq<u8>, debt: Debt) -> Seq<u8> {
    seq![
        color_value(pixel[0] + debt.0),
        color_value(pixel[1] + debt.1),
        color_value(pixel[2] + debt.2),
        255,
    ]
}

/// What the color chosen fell short by.
pub open spec fn shortfall(asked: Seq<u8>, palette: Seq<u8>, index: int) -> Debt {
    (
        (asked[0] - palette[index * 3]) as i16,
        (asked[1] - palette[index * 3 + 1]) as i16,
        (asked[2] - palette[index * 3 + 2]) as i16,
    )
}

impl Mapping {
    /// After one more pixel, at column `x` of a row.
    pub open spec fn mapped(
        self,
        quant: color_quant::NeuQuant,
        pixel: Seq<u8>,
        x: int,
        row: int,
        transparent: Option<u8>,
        dither: bool,
    ) -> Mapping {
        if pixel[3] < 128 && transparent is Some {
            Mapping { chosen: self.chosen.push(transparent->0), ..self }
        } else {
            let debt = if dither {
                self.owed[x + 1]
            } else {
                (0i16, 0i16, 0i16)
            };
            let color = asked(pixel, debt);
            let index = nearest(quant, color);
            Mapping {
                chosen: self.chosen.push(index as u8),
                owed: if dither {
                    spread(self.owed, x, row, shortfall(color, palette_of(quant), index as int))
                } else {
                    self.owed
                },
            }
        }
    }
}

/// The four bytes of pixel `n`.
pub open spec fn nth_pixel(p: Picture, n: int) -> Seq<u8> {
    p.data.subrange(n * 4, n * 4 + 4)
}

/// Where the mapping stands after `n` pixels.
pub open spec fn mapping_after(
    quant: color_quant::NeuQuant,
    p: Picture,
    transparent: Option<u8>,
    dither: bool,
    n: nat,
) -> Mapping
    decreases n,
{
    let row = p.width + 2;
    if n == 0 {
        Mapping { chosen: seq![], owed: no_debts((row * 2) as nat) }
    } else {
        let before = mapping_after(quant, p, transparent, dither, (n - 1) as nat);
        let x = (n - 1) % (p.width as int);
        let start = if dither && x == 0 && n > 1 {
            Mapping { owed: next_row(before.owed, row), ..before }
        } else {
            before
        };
        start.mapped(quant, nth_pixel(p, n - 1), x, row, transparent, dither)
    }
}

/// The palette color of every pixel of a picture.
pub open spec fn indexed(
    quant: color_quant::NeuQuant,
    p: Picture,
    transparent: Option<u8>,
    dither: bool,
) -> Seq<u8> {
    mapping_after(quant, p, transparent, dither, (p.data.len() / 4) as nat).chosen
}

/// Whether an index is that of a color of the palette, or the transparent one.
pub open spec fn has_color(palette: Seq<u8>, transparent: Option<u8>, index: u8) -> bool {
    index * 3 + 3 <= palette.len() || transparent == Some(index)
}

/// What is owed at each place is within a color value.
spec fn solvent(owed: Seq<Debt>) -> bool {
    forall|i: int|
        0 <= i < owed.len() ==> -255 <= (#[trigger] owed[i]).0 <= 255 && -255 <= owed[i].1 <= 255
            && -255 <= owed[i].2 <= 255
}

fn value(c: u8, debt: i16) -> (r: u8)
    requires
        -255 <= debt <= 255,
    ensures
        r == color_value(c + debt),
{
    let v: i16 = c as i16 + debt;
    if v < 0 {
        0
    } else if v > 255 {
        255
    } else {
        v as u8
    }
}

fn add_debt(debt: i16, diff: i16, weight: i16) -> (r: i16)
    requires
        -255 <= debt <= 255,
        -255 <= diff <= 255,
        1 <= weight <= 7,
    ensures
        r == bounded(debt + sixteenth(diff * weight)),
        -255 <= r <= 255,
{
    assert(-1785 <= diff * weight <= 1785) by (nonlinear_arith)
        requires
            -255 <= diff <= 255,
            1 <= weight <= 7,
    ;
    let product: i16 = diff * weight;
    let part: i16 = if product >= 0 {
        product / 16
    } else {
        -((-product) / 16)
    };
    let sum: i16 = debt + part;
    if sum < -255 {
        -255
    } else if sum > 255 {
        255
    } else {
        sum
    }
}

fn add_share(owed: &mut Vec<Debt>, at: usize, diff: Debt, weight: i16)
    requires
        at < old(owed)@.len(),
        solvent(old(owed)@),
        -255 <= diff.0 <= 255,
        -255 <= diff.1 <= 255,
        -255 <= diff.2 <= 255,
        1 <= weight <= 7,
    ensures
        final(owed)@ == owing(old(owed)@, at as int, diff, weight as int),
        solvent(final(owed)@),
        final(owed)@.len() == old(owed)@.len(),
{
    let d = owed[at];
    assert(solvent(owed@));
    owed[at] = (
        add_debt(d.0, diff.0, weight),
        add_debt(d.1, diff.1, weight),
        add_debt(d.2, diff.2, weight),
    );
}

fn debt_free(n: usize) -> (r: Vec<Debt>)
    ensures
        r@ == no_debts(n as nat),
{
    let mut r: Vec<Debt> = Vec::new();
    let mut i: usize = 0;
    assert(r@ =~= no_debts(0));
    while i < n
        invariant
            i <= n,
            r@ == no_debts(i as nat),
        decreases n - i,
    {
        r.push((0, 0, 0));
        i = i + 1;
        assert(r@ =~= no_debts(i as nat));
    }
    r
}

fn advance_row(owed: &Vec<Debt>, row: usize) -> (r: Vec<Debt>)
    requires
        owed@.len() == row * 2,
        solvent(owed@),
    ensures
        r@ == next_row(owed@, row as int),
        solvent(r@),
        r@.len() == row * 2,
{
    let mut r: Vec<Debt> = Vec::new();
    let mut i: usize = 0;
    while i < row
        invariant
            i <= row,
            owed@.len() == row * 2,
            owed.len() == owed@.len(),
            r@.len() == i,
            forall|k: int| 0 <= k < i ==> #[trigger] r@[k] == owed@[row + k],
        decreases row - i,
    {
        r.push(owed[row + i]);
        i = i + 1;
    }
    let mut j: usize = 0;
    while j < row
        invariant
            j <= row,
            owed@.len() == row * 2,
            r@.len() == row + j,
            forall|k: int| 0 <= k < row ==> #[trigger] r@[k] == owed@[row + k],
            forall|k: int| row <= k < row + j ==> #[trigger] r@[k] == (0i16, 0i16, 0i16),
        decreases row - j,
    {
        r.push((0, 0, 0));
        j = j + 1;
    }
    assert(r@ =~= next_row(owed@, row as int));
    r
}

/// Map a picture onto the quantizer's palette. Pixels that are mostly
/// transparent get the transparent color where there is one.
pub fn index_frame(
    img: &Raster,
    quant: &color_quant::NeuQuant,
    transparent: Option<u8>,
    dither: bool,
) -> (r: Vec<u8>)
    requires
        img.wf(),
        3 <= palette_of(*quant).len() <= 768,
    ensures
        r@ == indexed(*quant, img@, transparent, dither),
        r@.len() == img@.data.len() / 4,
        forall|k: int|
            0 <= k < r@.len() ==> has_color(palette_of(*quant), transparent, #[trigger] r@[k]),
{
    let pixels: usize = img.data.len() / 4;
    let mut chosen: Vec<u8> = Vec::new();
    assert(img.data.len() == img.data@.len());
    if pixels == 0 {
        assert(chosen@ =~= seq![]);
        return chosen;
    }
    let ghost p = img@;
    let ghost w = img.width as int;
    assert(w >= 1 && w * 4 <= img.data.len()) by (nonlinear_arith)
        requires
            img.data.len() == w * img.height * 4,
            img.data.len() >= 4,
            0 <= w,
            0 <= img.height,
    ;
    let row: usize = img.width as usize + 2;
    // Floyd-Steinberg error, one row of lookahead plus the current row.
    let mut owed = debt_free(row * 2);
    let palette = color_map(quant);
    let mut n: usize = 0;
    let mut x: usize = 0;
    assert(0int % w == 0) by (nonlinear_arith)
        requires
            w >= 1,
    ;
    while n < pixels
        invariant
            n <= pixels,
            img.wf(),
            p == img@,
            w == img.width,
            w >= 1,
            row == w + 2,
            img.data.len() == img.data@.len(),
            pixels == img.data.len() / 4,
            palette@ == palette_of(*quant),
            3 <= palette@.len() <= 768,
            x == n as int % w,
            owed@.len() == row * 2,
            solvent(owed@),
            chosen@.len() == n,
            forall|k: int|
                0 <= k < n ==> has_color(palette_of(*quant), transparent, #[trigger] chosen@[k]),
            (Mapping { chosen: chosen@, owed: owed@ }) == mapping_after(
                *quant,
                p,
                transparent,
                dither,
                n as nat,
            ),
        decreases pixels - n,
    {
        proof {
            lemma_next_column(n as int, w);
        }
        let ghost before = Mapping { chosen: chosen@, owed: owed@ };
        let ghost pixel = nth_pixel(p, n as int);
        if dither && x == 0 && n > 0 {
            owed = advance_row(&owed, row);
        }
        let ghost start = Mapping { chosen: chosen@, owed: owed@ };
        let (red, green, blue, alpha) = (
            img.data[n * 4],
            img.data[n * 4 + 1],
            img.data[n * 4 + 2],
            img.data[n * 4 + 3],
        );
        assert(pixel =~= seq![red, green, blue, alpha]);
        if alpha < 128 && transparent.is_some() {
            let t = match transparent {
                Some(t) => t,
                None => 0,
            };
            chosen.push(t);
        } else {
            let debt = if dither {
                owed[x + 1]
            } else {
                (0, 0, 0)
            };
            assert(solvent(owed@));
            let color: [u8; 4] = [
                value(red, debt.0),
                value(green, debt.1),
                value(blue, debt.2),
                255,
            ];
            assert(color@ =~= asked(pixel, debt));
            let index: usize = index_of(quant, &color);
            chosen.push(index as u8);
            if dither {
                let diff: Debt = (
                    color[0] as i16 - palette[index * 3] as i16,
                    color[1] as i16 - palette[index * 3 + 1] as i16,
                    color[2] as i16 - palette[index * 3 + 2] as i16,
                );
                assert(diff == shortfall(color@, palette@, index as int));
                assert(owed.len() == owed@.len());
                add_share(&mut owed, x + 2, diff, 7);
                add_share(&mut owed, x + row, diff, 3);
                add_share(&mut owed, x + 1 + row, diff, 5);
                add_share(&mut owed, x + 2 + row, diff, 1);
            }
        }
        assert((Mapping { chosen: chosen@, owed: owed@ }) == start.mapped(
            *quant,
            pixel,
            x as int,
            row as int,
            transparent,
            dither,
        ));
        n = n + 1;
        x = if x + 1 == img.width as usize {
            0
        } else {
            x + 1
        };
    }
    chosen
}

/// The column of the pixel after.
proof fn lemma_next_column(n: int, w: int)
    requires
        w >= 1,
        0 <= n,
    ensures
        0 <= n % w < w,
        (n + 1) % w == if n % w + 1 == w {
            0
        } else {
            n % w + 1
        },
{
    let (q, r) = (n / w, n % w);
    vstd::arithmetic::div_mod::lemma_fundamental_div_mod(n, w);
    assert(0 <= n % w < w) by (nonlinear_arith)
        requires
            w >= 1,
    ;
    if r + 1 == w {
        assert(n + 1 == (q + 1) * w + 0) by (nonlinear_arith)
            requires
                n == w * q + r,
                r + 1 == w,
        ;
        vstd::arithmetic::div_mod::lemma_fundamental_div_mod_converse(n + 1, w, q + 1, 0);
    } else {
        assert(n + 1 == q * w + (r + 1)) by (nonlinear_arith)
            requires
                n == w * q + r,
        ;
        vstd::arithmetic::div_mod::lemma_fundamental_div_mod_converse(n + 1, w, q, r + 1);
    }
}

/// There is one color for each pixel, and a pixel that is mostly transparent
/// gets the transparent one, where there is one.
pub proof fn lemma_mapping(
    quant: color_quant::NeuQuant,
    p: Picture,
    transparent: Option<u8>,
    dither: bool,
    n: nat,
)
    ensures
        mapping_after(quant, p, transparent, dither, n).chosen.len() == n,
        transparent matches Some(t) ==> forall|k: int|
            0 <= k < n && nth_pixel(p, k)[3] < 128 ==> #[trigger] mapping_after(
                quant,
                p,
                transparent,
                dither,
                n,
            ).chosen[k] == t,
    decreases n,
{
    if n > 0 {
        lemma_mapping(quant, p, transparent, dither, (n - 1) as nat);
        let before = mapping_after(quant, p, transparent, dither, (n - 1) as nat).chosen;
        let now = mapping_after(quant, p, transparent, dither, n).chosen;
        assert(now.drop_last() =~= before);
        if let Some(t) = transparent {
            assert forall|k: int| 0 <= k < n && nth_pixel(p, k)[3] < 128 implies #[trigger] now[k]
                == t by {
                if k < n - 1 {
                    assert(now[k] == now.drop_last()[k]);
                }
            }
        }
    }
}

} // verus!
