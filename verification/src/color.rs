//! Colors as people write them, and as Cairo stores them.

use vstd::prelude::*;

use crate::raster::{lemma_byte_place, offset, Picture, Raster, Rgba8};
use crate::text::{chars_of, text_of, trim, trimmed};

verus! {

/// A hexadecimal digit, in upper case.
pub open spec fn hex_digit(n: int) -> char {
    if n < 10 {
        ((48 + n) as u8) as char
    } else {
        ((55 + n) as u8) as char
    }
}

/// A byte in two digits.
pub open spec fn hex_byte(b: u8) -> Seq<char> {
    seq![hex_digit(b as int / 16), hex_digit(b as int % 16)]
}

/// A color as people write it. Opaque colors go without their alpha.
pub open spec fn hex_text(c: Seq<u8>) -> Seq<char> {
    let rgb = seq!['#'] + hex_byte(c[0]) + hex_byte(c[1]) + hex_byte(c[2]);
    if c[3] == 255 {
        rgb
    } else {
        rgb + hex_byte(c[3])
    }
}

fn push_byte(out: &mut Vec<char>, b: u8)
    ensures
        final(out)@ == old(out)@ + hex_byte(b),
{
    let (hi, lo): (u8, u8) = (b / 16, b % 16);
    out.push(
        if hi < 10 {
            (48 + hi) as char
        } else {
            (55 + hi) as char
        },
    );
    out.push(
        if lo < 10 {
            (48 + lo) as char
        } else {
            (55 + lo) as char
        },
    );
    assert(out@ =~= old(out)@ + hex_byte(b));
}

/// Opaque colors are written without their alpha, so the common case reads
/// as the six digits people paste from anywhere else.
pub fn hex_of(color: Rgba8) -> (r: String)
    ensures
        r@ == hex_text(color@),
{
    let mut out: Vec<char> = Vec::new();
    out.push('#');
    assert(out@ =~= seq!['#']);
    push_byte(&mut out, color[0]);
    push_byte(&mut out, color[1]);
    push_byte(&mut out, color[2]);
    if color[3] != 255 {
        push_byte(&mut out, color[3]);
    }
    text_of(&out)
}

/// The value of a hexadecimal digit, if it is one.
pub open spec fn digit_value(c: char) -> Option<int> {
    if '0' <= c <= '9' {
        Some(c as u32 - 48)
    } else if 'a' <= c <= 'f' {
        Some(c as u32 - 87)
    } else if 'A' <= c <= 'F' {
        Some(c as u32 - 55)
    } else {
        None
    }
}

/// The text without the number signs it starts with.
pub open spec fn without_signs(s: Seq<char>) -> Seq<char>
    decreases s.len(),
{
    if s.len() > 0 && s[0] == '#' {
        without_signs(s.skip(1))
    } else {
        s
    }
}

pub open spec fn all_hex(s: Seq<char>) -> bool {
    forall|i: int| 0 <= i < s.len() ==> digit_value(#[trigger] s[i]) is Some
}

/// The byte that two digits from `at` on make.
pub open spec fn byte_at(s: Seq<char>, at: int) -> u8 {
    (digit_value(s[at])->0 * 16 + digit_value(s[at + 1])->0) as u8
}

/// The color a text stands for: six hexadecimal digits, or eight with the
/// alpha, after any number signs.
pub open spec fn parsed_hex(text: Seq<char>) -> Option<Seq<u8>> {
    let digits = without_signs(trimmed(text));
    if !all_hex(digits) {
        None
    } else if digits.len() == 6 {
        Some(seq![byte_at(digits, 0), byte_at(digits, 2), byte_at(digits, 4), 255])
    } else if digits.len() == 8 {
        Some(
            seq![
                byte_at(digits, 0),
                byte_at(digits, 2),
                byte_at(digits, 4),
                byte_at(digits, 6),
            ],
        )
    } else {
        None
    }
}

fn value_of(c: char) -> (r: Option<u8>)
    ensures
        match r {
            Some(n) => digit_value(c) == Some(n as int) && n < 16,
            None => digit_value(c) is None,
        },
{
    if '0' <= c && c <= '9' {
        Some((c as u32 - 48) as u8)
    } else if 'a' <= c && c <= 'f' {
        Some((c as u32 - 87) as u8)
    } else if 'A' <= c && c <= 'F' {
        Some((c as u32 - 55) as u8)
    } else {
        None
    }
}

pub fn parse_hex(text: &str) -> (r: Option<Rgba8>)
    ensures
        match r {
            Some(color) => parsed_hex(text@) == Some(color@),
            None => parsed_hex(text@) is None,
        },
{
    let v = trim(&chars_of(text));
    let mut at: usize = 0;
    assert(v@.skip(0) =~= v@);
    while at < v.len() && v[at] == '#'
        invariant
            at <= v@.len(),
            without_signs(v@) == without_signs(v@.skip(at as int)),
        decreases v@.len() - at,
    {
        assert(v@.skip(at as int).skip(1) =~= v@.skip(at + 1));
        at = at + 1;
    }
    let ghost digits = v@.skip(at as int);
    assert(digits == without_signs(v@));
    let mut values: Vec<u8> = Vec::new();
    let mut i: usize = at;
    while i < v.len()
        invariant
            at <= i <= v@.len(),
            digits == v@.skip(at as int),
            digits == without_signs(trimmed(text@)),
            values@.len() == i - at,
            forall|k: int|
                0 <= k < i - at ==> digit_value(#[trigger] digits[k]) == Some(values@[k] as int)
                    && values@[k] < 16,
        decreases v@.len() - i,
    {
        match value_of(v[i]) {
            Some(n) => {
                assert(digits[i - at] == v@[i as int]);
                values.push(n);
            },
            None => {
                assert(digit_value(digits[i - at]) is None);
                return None;
            },
        }
        i = i + 1;
    }
    assert(all_hex(digits));
    if values.len() == 6 || values.len() == 8 {
        assert(digit_value(digits[0]) is Some && digit_value(digits[1]) is Some && digit_value(
            digits[2],
        ) is Some && digit_value(digits[3]) is Some && digit_value(digits[4]) is Some
            && digit_value(digits[5]) is Some);
        let alpha: u8 = if values.len() == 8 {
            assert(digit_value(digits[6]) is Some && digit_value(digits[7]) is Some);
            values[6] * 16 + values[7]
        } else {
            255
        };
        let color: Rgba8 = [
            values[0] * 16 + values[1],
            values[2] * 16 + values[3],
            values[4] * 16 + values[5],
            alpha,
        ];
        assert(color@ =~= parsed_hex(text@)->0);
        Some(color)
    } else {
        None
    }
}

proof fn lemma_digit(n: int)
    requires
        0 <= n < 16,
    ensures
        digit_value(hex_digit(n)) == Some(n),
        hex_digit(n) != '#',
        !crate::text::white(hex_digit(n)),
{
}

/// A color reads back from how it is written.
pub proof fn law_hex_round_trip(c: Seq<u8>)
    requires
        c.len() == 4,
    ensures
        parsed_hex(hex_text(c)) == Some(c),
{
    let s = hex_text(c);
    let digits = s.skip(1);
    lemma_digit(c[0] as int / 16);
    lemma_digit(c[0] as int % 16);
    lemma_digit(c[1] as int / 16);
    lemma_digit(c[1] as int % 16);
    lemma_digit(c[2] as int / 16);
    lemma_digit(c[2] as int % 16);
    lemma_digit(c[3] as int / 16);
    lemma_digit(c[3] as int % 16);
    assert(s[0] == '#');
    assert(s.last() == hex_digit(if c[3] == 255 {
        c[2] as int % 16
    } else {
        c[3] as int % 16
    }));
    crate::text::lemma_trimmed_solid(s);
    assert(digits[0] == hex_digit(c[0] as int / 16));
    assert(without_signs(digits) == digits);
    assert(without_signs(s) == digits);
    assert(digits =~= if c[3] == 255 {
        hex_byte(c[0]) + hex_byte(c[1]) + hex_byte(c[2])
    } else {
        hex_byte(c[0]) + hex_byte(c[1]) + hex_byte(c[2]) + hex_byte(c[3])
    });
    assert(byte_at(digits, 0) == c[0]);
    assert(byte_at(digits, 2) == c[1]);
    assert(byte_at(digits, 4) == c[2]);
    if c[3] != 255 {
        assert(byte_at(digits, 6) == c[3]);
    }
    assert(all_hex(digits));
    assert(parsed_hex(s)->0 =~= c);
}

/// A premultiplied color value taken apart from its alpha.
pub open spec fn unmultiplied(c: u8, a: u8) -> u8 {
    if a == 0 {
        0
    } else {
        let v = (c as int * 255) / (a as int);
        if v > 255 {
            255
        } else {
            v as u8
        }
    }
}

/// Byte `c` of pixel (`x`, `y`) of a premultiplied BGRA surface whose rows are
/// `stride` bytes apart, as plain RGBA.
pub open spec fn surface_byte(data: Seq<u8>, stride: int, x: int, y: int, c: int) -> u8 {
    let at = y * stride + x * 4;
    if c == 3 {
        data[at + 3]
    } else {
        unmultiplied(data[at + 2 - c], data[at + 3])
    }
}

/// The picture on such a surface.
pub open spec fn surface_picture(data: Seq<u8>, w: u32, h: u32, stride: int) -> Picture {
    Picture {
        width: w,
        height: h,
        data: Seq::new(
            (w as int * h as int * 4) as nat,
            |k: int|
                surface_byte(
                    data,
                    stride,
                    crate::raster::column_of(w as int, k),
                    crate::raster::row_of(w as int, k),
                    k % 4,
                ),
        ),
    }
}

fn unmultiply(c: u8, a: u8) -> (r: u8)
    ensures
        r == unmultiplied(c, a),
{
    if a == 0 {
        0
    } else {
        let v: u32 = (c as u32 * 255) / a as u32;
        if v > 255 {
            255
        } else {
            v as u8
        }
    }
}

/// Cairo's ARgb32 is premultiplied BGRA on little-endian machines.
pub fn to_rgba(data: &Vec<u8>, w: u32, h: u32, stride: usize) -> (r: Raster)
    requires
        w * 4 <= stride,
        h * stride <= data@.len(),
    ensures
        r.wf(),
        r@ == surface_picture(data@, w, h, stride as int),
{
    let mut out: Vec<u8> = Vec::new();
    let mut y: u32 = 0;
    assert(0 * (w as int) * 4 == 0) by (nonlinear_arith);
    assert(data.len() == data@.len());
    let ghost want = surface_picture(data@, w, h, stride as int);
    while y < h
        invariant
            w * 4 <= stride,
            h * stride <= data.len(),
            data.len() == data@.len(),
            y <= h,
            out@.len() == offset(w as int, 0, y as int),
            forall|k: int|
                0 <= k < out@.len() ==> #[trigger] out@[k] == surface_byte(
                    data@,
                    stride as int,
                    crate::raster::column_of(w as int, k),
                    crate::raster::row_of(w as int, k),
                    k % 4,
                ),
        decreases h - y,
    {
        assert(y * stride + stride <= h * stride) by (nonlinear_arith)
            requires
                y < h,
                0 <= stride,
        ;
        assert(0 <= y * stride) by (nonlinear_arith)
            requires
                0 <= y,
                0 <= stride,
        ;
        let row: usize = y as usize * stride;
        let mut x: u32 = 0;
        while x < w
            invariant
                w * 4 <= stride,
                row == y * stride,
                row + stride <= data.len(),
                data.len() == data@.len(),
                x <= w,
                y < h,
                out@.len() == offset(w as int, x as int, y as int),
                forall|k: int|
                    0 <= k < out@.len() ==> #[trigger] out@[k] == surface_byte(
                        data@,
                        stride as int,
                        crate::raster::column_of(w as int, k),
                        crate::raster::row_of(w as int, k),
                        k % 4,
                    ),
            decreases w - x,
        {
            proof {
                lemma_byte_place(w as int, x as int, y as int, 0);
                lemma_byte_place(w as int, x as int, y as int, 1);
                lemma_byte_place(w as int, x as int, y as int, 2);
                lemma_byte_place(w as int, x as int, y as int, 3);
            }
            let i: usize = row + x as usize * 4;
            let a: u8 = data[i + 3];
            out.push(unmultiply(data[i + 2], a));
            out.push(unmultiply(data[i + 1], a));
            out.push(unmultiply(data[i], a));
            out.push(a);
            x = x + 1;
        }
        assert(offset(w as int, w as int, y as int) == offset(w as int, 0, y + 1))
            by (nonlinear_arith);
        y = y + 1;
    }
    assert(offset(w as int, 0, h as int) == w * h * 4) by (nonlinear_arith);
    let r = Raster { width: w, height: h, data: out };
    assert(r@.data =~= want.data);
    r
}

} // verus!
