//! Signed distance fields, computed exactly in integers: each texel's alpha holds
//! the distance to the nearest edge of the shape, biased by `BUFFER`.

use vstd::prelude::*;
use crate::display_list::trunc_div;
use crate::geometry::{lemma_row_major_index, lemma_row_major_unique, Size2D};

verus! {

/// The alpha value of the shape's edge in a field.
pub const BUFFER: u8 = 192;

/// Alpha steps per glyph pixel of distance in a glyph's field.
pub const GLYPH_DISTANCE_SCALING_FACTOR: u32 = 10;

/// Field texels over which an arc's field falls from `BUFFER` to zero.
pub const ARC_DISTANCE_SCALING_FACTOR: u32 = 256;

/// Distances in a glyph's field are capped at this many glyph pixels.
pub const MAX_GLYPH_DISTANCE: u32 = 127;

/// `r` is the square root of `n` rounded down.
pub open spec fn is_floor_sqrt(r: int, n: int) -> bool {
    0 <= r && r * r <= n && n < (r + 1) * (r + 1)
}

/// The square root of `n` rounded down.
pub open spec fn floor_sqrt_of(n: int) -> int {
    choose|r: int| is_floor_sqrt(r, n)
}

proof fn lemma_floor_sqrt_unique(a: int, b: int, n: int)
    requires
        is_floor_sqrt(a, n),
        is_floor_sqrt(b, n),
    ensures
        a == b,
{
    if a < b {
        assert((a + 1) * (a + 1) <= b * b) by (nonlinear_arith)
            requires
                0 <= a + 1 <= b,
        ;
    } else if b < a {
        assert((b + 1) * (b + 1) <= a * a) by (nonlinear_arith)
            requires
                0 <= b + 1 <= a,
        ;
    }
}

proof fn lemma_floor_sqrt_of(r: int, n: int)
    requires
        is_floor_sqrt(r, n),
    ensures
        floor_sqrt_of(n) == r,
{
    lemma_floor_sqrt_unique(floor_sqrt_of(n), r, n);
}

/// The square root of `n`, rounded down.
pub fn floor_sqrt(n: u128) -> (r: u128)
    ensures
        is_floor_sqrt(r as int, n as int),
        floor_sqrt_of(n as int) == r,
{
    let mut lo: u128 = 0;
    let mut hi: u128 = 0x1_0000_0000_0000_0000;
    assert(n < hi * hi);
    while hi - lo > 1
        invariant
            lo < hi <= 0x1_0000_0000_0000_0000,
            lo * lo <= n < hi * hi,
        decreases hi - lo,
    {
        let mid = lo + (hi - lo) / 2;
        assert(mid * mid <= 0xffff_ffff_ffff_ffff * 0xffff_ffff_ffff_ffffu128) by (nonlinear_arith)
            requires
                mid <= 0xffff_ffff_ffff_ffffu128,
        ;
        if mid * mid <= n {
            lo = mid;
        } else {
            hi = mid;
        }
    }
    proof {
        lemma_floor_sqrt_of(lo as int, n as int);
    }
    lo
}

/// `v` held to the range of a byte.
pub open spec fn clamp_byte(v: int) -> u8 {
    if v < 0 {
        0
    } else if v > 255 {
        255
    } else {
        v as u8
    }
}

/// The four bytes of texel `(x, y)` of an RGBA image `w` texels wide.
pub open spec fn texel(s: Seq<u8>, w: int, x: int, y: int) -> (u8, u8, u8, u8) {
    let i = 4 * (y * w + x);
    (s[i], s[i + 1], s[i + 2], s[i + 3])
}

/// The glyph pixel `(x, y)` lies in the bitmap and is set.
pub open spec fn glyph_pixel_inside(data: Seq<u8>, gw: int, gh: int, x: int, y: int) -> bool {
    0 <= x < gw && 0 <= y < gh && data[y * gw + x] != 0
}

pub open spec fn sq_distance(x0: int, y0: int, x1: int, y1: int) -> int {
    (x1 - x0) * (x1 - x0) + (y1 - y0) * (y1 - y0)
}

/// `d2` is the squared distance from `(px, py)` to the nearest bitmap pixel on the
/// other side of the shape's edge, capped at `MAX_GLYPH_DISTANCE` squared.
pub open spec fn is_nearest_sq_distance(data: Seq<u8>, gw: int, gh: int, px: int, py: int, d2: int) -> bool {
    let inside = glyph_pixel_inside(data, gw, gh, px, py);
    let cap = MAX_GLYPH_DISTANCE * MAX_GLYPH_DISTANCE;
    &&& d2 <= cap
    &&& forall|x1: int, y1: int|
        0 <= x1 < gw && 0 <= y1 < gh && #[trigger] glyph_pixel_inside(data, gw, gh, x1, y1) != inside
        ==> d2 <= sq_distance(px, py, x1, y1)
    &&& (d2 == cap || exists|x1: int, y1: int|
        0 <= x1 < gw && 0 <= y1 < gh && #[trigger] glyph_pixel_inside(data, gw, gh, x1, y1) != inside
        && sq_distance(px, py, x1, y1) == d2)
}

/// The squared distance from `(px, py)` to the nearest pixel across the edge.
pub open spec fn nearest_sq_distance(data: Seq<u8>, gw: int, gh: int, px: int, py: int) -> int {
    choose|d2: int| is_nearest_sq_distance(data, gw, gh, px, py, d2)
}

/// The alpha of a glyph's field at glyph point `(px, py)`.
pub open spec fn glyph_alpha(data: Seq<u8>, gw: int, gh: int, px: int, py: int) -> u8 {
    let scaled = floor_sqrt_of(
        GLYPH_DISTANCE_SCALING_FACTOR * GLYPH_DISTANCE_SCALING_FACTOR * nearest_sq_distance(data, gw, gh, px, py),
    );
    if glyph_pixel_inside(data, gw, gh, px, py) {
        clamp_byte(BUFFER + scaled - GLYPH_DISTANCE_SCALING_FACTOR)
    } else {
        clamp_byte(BUFFER - scaled)
    }
}

/// The glyph coordinate that field coordinate `v` maps to, where the glyph starts
/// `pad` texels into the field and `glyph_len` glyph pixels span `field_len` texels.
pub open spec fn field_to_glyph(v: int, pad: int, glyph_len: int, field_len: int) -> int {
    trunc_div((v - pad) * glyph_len, field_len)
}


/// Whether glyph point `(px, py)` lies in the bitmap on a set pixel.
fn glyph_point_is_inside(data: &Vec<u8>, gw: u32, gh: u32, px: i128, py: i128) -> (inside: bool)
    requires
        data@.len() >= gw * gh,
    ensures
        inside == glyph_pixel_inside(data@, gw as int, gh as int, px as int, py as int),
{
    let data_len = data.len();
    if 0 <= px && px < gw as i128 && 0 <= py && py < gh as i128 {
        proof {
            lemma_row_major_index(gw as int, gh as int, px as int, py as int);
            assert((py as usize) * (gw as usize) + (px as usize) < data_len);
        }
        data[(py as usize) * (gw as usize) + (px as usize)] != 0
    } else {
        false
    }
}

/// The squared distance from glyph point `(px, py)` to the nearest bitmap pixel whose
/// side of the edge differs from `inside`, capped at `MAX_GLYPH_DISTANCE` squared.
fn nearest_opposite_sq_distance(data: &Vec<u8>, gw: u32, gh: u32, px: i128, py: i128) -> (d2: u64)
    requires
        data@.len() >= gw * gh,
        -0x1_0000_0000_0000_0000_0000 < px < 0x1_0000_0000_0000_0000_0000,
        -0x1_0000_0000_0000_0000_0000 < py < 0x1_0000_0000_0000_0000_0000,
    ensures
        is_nearest_sq_distance(data@, gw as int, gh as int, px as int, py as int, d2 as int),
{
    let data_len = data.len();
    let inside = glyph_point_is_inside(data, gw, gh, px, py);
    let ghost sdata = data@;
    let ghost (w, h) = (gw as int, gh as int);
    assert(inside == glyph_pixel_inside(sdata, w, h, px as int, py as int));
    let cap: u64 = (MAX_GLYPH_DISTANCE as u64) * (MAX_GLYPH_DISTANCE as u64);
    let mut d2: u64 = cap;
    let ghost mut wx: int = 0;
    let ghost mut wy: int = 0;
    let mut y1: u32 = 0;
    while y1 < gh
        invariant
            y1 <= gh,
            sdata == data@,
            w == gw,
            h == gh,
            data@.len() >= gw * gh,
            data_len == data@.len(),
            -0x1_0000_0000_0000_0000_0000 < px < 0x1_0000_0000_0000_0000_0000,
            -0x1_0000_0000_0000_0000_0000 < py < 0x1_0000_0000_0000_0000_0000,
            inside == glyph_pixel_inside(sdata, w, h, px as int, py as int),
            cap == MAX_GLYPH_DISTANCE * MAX_GLYPH_DISTANCE,
            d2 <= cap,
            forall|x0: int, y0: int|
                0 <= x0 < w && 0 <= y0 < y1 && #[trigger] glyph_pixel_inside(sdata, w, h, x0, y0) != inside
                ==> d2 <= sq_distance(px as int, py as int, x0, y0),
            d2 == cap || (0 <= wx < w && 0 <= wy < h && glyph_pixel_inside(sdata, w, h, wx, wy) != inside
                && sq_distance(px as int, py as int, wx, wy) == d2),
        decreases gh - y1,
    {
        let mut x1: u32 = 0;
        while x1 < gw
            invariant
                y1 < gh,
                x1 <= gw,
                sdata == data@,
                w == gw,
                h == gh,
                data@.len() >= gw * gh,
                data_len == data@.len(),
            -0x1_0000_0000_0000_0000_0000 < px < 0x1_0000_0000_0000_0000_0000,
            -0x1_0000_0000_0000_0000_0000 < py < 0x1_0000_0000_0000_0000_0000,
                -0x1_0000_0000_0000_0000_0000 < px < 0x1_0000_0000_0000_0000_0000,
                -0x1_0000_0000_0000_0000_0000 < py < 0x1_0000_0000_0000_0000_0000,
                inside == glyph_pixel_inside(sdata, w, h, px as int, py as int),
                cap == MAX_GLYPH_DISTANCE * MAX_GLYPH_DISTANCE,
                d2 <= cap,
                forall|x0: int, y0: int|
                    0 <= x0 < w && 0 <= y0 < h && (y0 < y1 || (y0 == y1 && x0 < x1))
                    && #[trigger] glyph_pixel_inside(sdata, w, h, x0, y0) != inside
                    ==> d2 <= sq_distance(px as int, py as int, x0, y0),
                d2 == cap || (0 <= wx < w && 0 <= wy < h && glyph_pixel_inside(sdata, w, h, wx, wy) != inside
                    && sq_distance(px as int, py as int, wx, wy) == d2),
            decreases gw - x1,
        {
            proof {
                lemma_row_major_index(w, h, x1 as int, y1 as int);
                assert((y1 as usize) * (gw as usize) + (x1 as usize) < data_len);
            }
            let set = data[(y1 as usize) * (gw as usize) + (x1 as usize)] != 0;
            assert(set == glyph_pixel_inside(sdata, w, h, x1 as int, y1 as int));
            if set != inside {
                let dx: i128 = x1 as i128 - px;
                let dy: i128 = y1 as i128 - py;
                if -127 < dx && dx < 127 && -127 < dy && dy < 127 {
                    assert(0 <= dx * dx < 127 * 127 && 0 <= dy * dy < 127 * 127) by (nonlinear_arith)
                        requires
                            -127 < dx < 127,
                            -127 < dy < 127,
                    ;
                    let s = (dx * dx + dy * dy) as u64;
                    if s < d2 {
                        d2 = s;
                        proof {
                            wx = x1 as int;
                            wy = y1 as int;
                        }
                    }
                } else {
                    assert(sq_distance(px as int, py as int, x1 as int, y1 as int) >= cap) by (nonlinear_arith)
                        requires
                            dx == x1 - px,
                            dy == y1 - py,
                            dx <= -127 || dx >= 127 || dy <= -127 || dy >= 127,
                            cap == 127 * 127,
                    ;
                }
            }
            x1 = x1 + 1;
        }
        y1 = y1 + 1;
    }
    d2
}

proof fn lemma_nearest_sq_distance(data: Seq<u8>, gw: int, gh: int, px: int, py: int, d2: int)
    requires
        is_nearest_sq_distance(data, gw, gh, px, py, d2),
    ensures
        nearest_sq_distance(data, gw, gh, px, py) == d2,
{
    let other = nearest_sq_distance(data, gw, gh, px, py);
    assert(is_nearest_sq_distance(data, gw, gh, px, py, other));
    let inside = glyph_pixel_inside(data, gw, gh, px, py);
    let cap = MAX_GLYPH_DISTANCE * MAX_GLYPH_DISTANCE;
    if other != cap {
        let (x1, y1) = choose|x1: int, y1: int|
            0 <= x1 < gw && 0 <= y1 < gh && #[trigger] glyph_pixel_inside(data, gw, gh, x1, y1) != inside
            && sq_distance(px, py, x1, y1) == other;
        assert(d2 <= other);
    }
    if d2 != cap {
        let (x1, y1) = choose|x1: int, y1: int|
            0 <= x1 < gw && 0 <= y1 < gh && #[trigger] glyph_pixel_inside(data, gw, gh, x1, y1) != inside
            && sq_distance(px, py, x1, y1) == d2;
        assert(other <= d2);
    }
}

/// The texel at `(x, y)` of the field that `build_distance_field_for_glyph` makes.
pub open spec fn glyph_field_texel(
    data: Seq<u8>,
    glyph_size: Size2D<u32>,
    glyph_size_in_field: Size2D<u32>,
    field_size: Size2D<u32>,
    x: int,
    y: int,
) -> (u8, u8, u8, u8) {
    let pad_x = (field_size.width - glyph_size_in_field.width) / 2;
    let pad_y = (field_size.height - glyph_size_in_field.height) / 2;
    let gw = glyph_size.width as int;
    let gx = field_to_glyph(x, pad_x, gw, glyph_size_in_field.width as int);
    let gy = field_to_glyph(y, pad_y, gw, glyph_size_in_field.width as int);
    (255u8, 255u8, 255u8, glyph_alpha(data, gw, glyph_size.height as int, gx, gy))
}

proof fn lemma_trunc_div_bound(a: int, b: int)
    requires
        b >= 1,
    ensures
        -(if a < 0 { -a } else { a }) <= trunc_div(a, b) <= (if a < 0 { -a } else { a }),
{
    if a >= 0 {
        assert(a / b <= a) by (nonlinear_arith)
            requires
                a >= 0,
                b >= 1,
        ;
        assert(a / b >= 0) by (nonlinear_arith)
            requires
                a >= 0,
                b >= 1,
        ;
    } else {
        assert((-a) / b <= -a) by (nonlinear_arith)
            requires
                -a >= 0,
                b >= 1,
        ;
        assert((-a) / b >= 0) by (nonlinear_arith)
            requires
                -a >= 0,
                b >= 1,
        ;
    }
}


/// The alpha of the glyph's field at glyph point `(px, py)`.
fn glyph_alpha_at(data: &Vec<u8>, gw: u32, gh: u32, px: i128, py: i128) -> (a: u8)
    requires
        data@.len() >= gw * gh,
        -0x1_0000_0000_0000_0000_0000 < px < 0x1_0000_0000_0000_0000_0000,
        -0x1_0000_0000_0000_0000_0000 < py < 0x1_0000_0000_0000_0000_0000,
    ensures
        a == glyph_alpha(data@, gw as int, gh as int, px as int, py as int),
{
    let inside = glyph_point_is_inside(data, gw, gh, px, py);
    let d2 = nearest_opposite_sq_distance(data, gw, gh, px, py);
    proof {
        lemma_nearest_sq_distance(data@, gw as int, gh as int, px as int, py as int, d2 as int);
    }
    let factor = GLYPH_DISTANCE_SCALING_FACTOR as u128;
    let scaled = floor_sqrt(factor * factor * (d2 as u128));
    assert(scaled * scaled <= 100 * 127 * 127);
    assert(scaled <= 1270) by (nonlinear_arith)
        requires
            scaled * scaled <= 100 * 127 * 127,
            scaled >= 0,
    ;
    let value: i64 = if inside {
        BUFFER as i64 + scaled as i64 - GLYPH_DISTANCE_SCALING_FACTOR as i64
    } else {
        BUFFER as i64 - scaled as i64
    };
    if value < 0 {
        0
    } else if value > 255 {
        255
    } else {
        value as u8
    }
}

/// Builds the signed distance field of a glyph bitmap (`data`, one byte a pixel,
/// nonzero inside). The glyph is scaled down to `glyph_size_in_field` and centred
/// in a field of `field_size`. Each texel is white, its alpha `BUFFER` plus or minus
/// `GLYPH_DISTANCE_SCALING_FACTOR` steps per glyph pixel of distance to the edge.
pub fn build_distance_field_for_glyph(
    data: &Vec<u8>,
    glyph_size: &Size2D<u32>,
    glyph_size_in_field: &Size2D<u32>,
    field_size: &Size2D<u32>,
) -> (r: Vec<u8>)
    requires
        data@.len() >= glyph_size.width * glyph_size.height,
        glyph_size_in_field.width <= field_size.width,
        glyph_size_in_field.height <= field_size.height,
        field_size.width * field_size.height > 0 ==> glyph_size_in_field.width > 0,
        field_size.width * field_size.height * 4 <= usize::MAX,
    ensures
        r@.len() == field_size.width * field_size.height * 4,
        forall|x: int, y: int|
            0 <= x < field_size.width && 0 <= y < field_size.height ==> #[trigger] texel(
                r@,
                field_size.width as int,
                x,
                y,
            ) == glyph_field_texel(data@, *glyph_size, *glyph_size_in_field, *field_size, x, y),
        forall|x: int, y: int|
            0 <= x < field_size.width && 0 <= y < field_size.height ==> {
                let pad_x = (field_size.width - glyph_size_in_field.width) / 2;
                let pad_y = (field_size.height - glyph_size_in_field.height) / 2;
                let (gw, gh) = (glyph_size.width as int, glyph_size.height as int);
                let gx = field_to_glyph(x, pad_x, gw, glyph_size_in_field.width as int);
                let gy = field_to_glyph(y, pad_y, gw, glyph_size_in_field.width as int);
                &&& glyph_pixel_inside(data@, gw, gh, gx, gy) ==> #[trigger] texel(r@, field_size.width as int, x, y).3
                    >= BUFFER
                &&& !glyph_pixel_inside(data@, gw, gh, gx, gy) && GLYPH_DISTANCE_SCALING_FACTOR
                    * GLYPH_DISTANCE_SCALING_FACTOR * nearest_sq_distance(data@, gw, gh, gx, gy) >= BUFFER * BUFFER
                    ==> texel(r@, field_size.width as int, x, y).3 == 0
            },
{
    let (fw, fh) = (field_size.width, field_size.height);
    let (gw, gh) = (glyph_size.width, glyph_size.height);
    let pad_x = (fw - glyph_size_in_field.width) / 2;
    let pad_y = (fh - glyph_size_in_field.height) / 2;
    let mut result: Vec<u8> = Vec::new();
    let mut y0: u32 = 0;
    while y0 < fh
        invariant
            y0 <= fh,
            fw * fh * 4 <= usize::MAX,
            fw * fh > 0 ==> glyph_size_in_field.width > 0,
            data@.len() >= gw * gh,
            fw == field_size.width,
            fh == field_size.height,
            gw == glyph_size.width,
            gh == glyph_size.height,
            pad_x == (field_size.width - glyph_size_in_field.width) / 2,
            pad_y == (field_size.height - glyph_size_in_field.height) / 2,
            result@.len() == 4 * (y0 * fw),
            forall|x: int, y: int|
                0 <= x < fw && 0 <= y && y * fw + x < y0 * fw ==> #[trigger] texel(result@, fw as int, x, y)
                    == glyph_field_texel(data@, *glyph_size, *glyph_size_in_field, *field_size, x, y),
        decreases fh - y0,
    {
        assert(fw > 0 ==> fw * fh > 0) by (nonlinear_arith)
            requires
                fh > y0 >= 0,
        ;
        let mut x0: u32 = 0;
        while x0 < fw
            invariant
                y0 < fh,
                x0 <= fw,
                fw * fh * 4 <= usize::MAX,
                fw > 0 ==> glyph_size_in_field.width > 0,
                data@.len() >= gw * gh,
                fw == field_size.width,
                fh == field_size.height,
                gw == glyph_size.width,
                gh == glyph_size.height,
                pad_x == (field_size.width - glyph_size_in_field.width) / 2,
                pad_y == (field_size.height - glyph_size_in_field.height) / 2,
                result@.len() == 4 * (y0 * fw + x0),
                forall|x: int, y: int|
                    0 <= x < fw && 0 <= y && y * fw + x < y0 * fw + x0 ==> #[trigger] texel(result@, fw as int, x, y)
                        == glyph_field_texel(data@, *glyph_size, *glyph_size_in_field, *field_size, x, y),
            decreases fw - x0,
        {
            let ratio_den = glyph_size_in_field.width as i128;
            let dx = x0 as i128 - pad_x as i128;
            let dy = y0 as i128 - pad_y as i128;
            assert(-0x1_0000_0000_0000_0000 < dx * gw < 0x1_0000_0000_0000_0000) by (nonlinear_arith)
                requires
                    -0x1_0000_0000 < dx < 0x1_0000_0000,
                    0 <= gw < 0x1_0000_0000,
            ;
            assert(-0x1_0000_0000_0000_0000 < dy * gw < 0x1_0000_0000_0000_0000) by (nonlinear_arith)
                requires
                    -0x1_0000_0000 < dy < 0x1_0000_0000,
                    0 <= gw < 0x1_0000_0000,
            ;
            let gx = (dx * (gw as i128)) / ratio_den;
            let gy = (dy * (gw as i128)) / ratio_den;
            proof {
                lemma_trunc_div_bound(dx * gw, ratio_den as int);
                lemma_trunc_div_bound(dy * gw, ratio_den as int);
            }
            let alpha = glyph_alpha_at(data, gw, gh, gx, gy);
            let ghost before = result@;
            result.push(255);
            result.push(255);
            result.push(255);
            result.push(alpha);
            proof {
                let k = y0 * fw + x0;
                assert forall|x: int, y: int|
                    0 <= x < fw && 0 <= y && y * fw + x < k + 1 implies #[trigger] texel(result@, fw as int, x, y)
                        == glyph_field_texel(data@, *glyph_size, *glyph_size_in_field, *field_size, x, y) by {
                    if y * fw + x == k {
                        lemma_row_major_unique(fw as int, x, y, x0 as int, y0 as int);
                    } else {
                        assert(texel(before, fw as int, x, y) == texel(result@, fw as int, x, y));
                    }
                }
            }
            x0 = x0 + 1;
        }
        assert(4 * (y0 * fw + fw) == 4 * ((y0 + 1) * fw)) by (nonlinear_arith);
        y0 = y0 + 1;
    }
    assert(4 * (fh * fw) == fw * fh * 4) by (nonlinear_arith);
    assert forall|x: int, y: int| 0 <= x < fw && 0 <= y < fh implies #[trigger] texel(result@, fw as int, x, y)
        == glyph_field_texel(data@, *glyph_size, *glyph_size_in_field, *field_size, x, y) by {
        lemma_row_major_index(fw as int, fh as int, x, y);
        assert(fw * fh == fh * fw) by (nonlinear_arith);
    }
    assert forall|x: int, y: int| 0 <= x < fw && 0 <= y < fh implies {
        let (gwi, ghi) = (gw as int, gh as int);
        let gx = field_to_glyph(x, pad_x as int, gwi, glyph_size_in_field.width as int);
        let gy = field_to_glyph(y, pad_y as int, gwi, glyph_size_in_field.width as int);
        &&& glyph_pixel_inside(data@, gwi, ghi, gx, gy) ==> #[trigger] texel(result@, fw as int, x, y).3 >= BUFFER
        &&& !glyph_pixel_inside(data@, gwi, ghi, gx, gy) && GLYPH_DISTANCE_SCALING_FACTOR * GLYPH_DISTANCE_SCALING_FACTOR
            * nearest_sq_distance(data@, gwi, ghi, gx, gy) >= BUFFER * BUFFER ==> texel(result@, fw as int, x, y).3 == 0
    } by {
        let gx = field_to_glyph(x, pad_x as int, gw as int, glyph_size_in_field.width as int);
        let gy = field_to_glyph(y, pad_y as int, gw as int, glyph_size_in_field.width as int);
        lemma_glyph_field_inside_and_far_outside(data@, gw as int, gh as int, gx, gy);
    }
    result
}

/// The square root of `n` rounded up.
pub open spec fn ceil_sqrt_of(n: int) -> int {
    if floor_sqrt_of(n) * floor_sqrt_of(n) == n {
        floor_sqrt_of(n)
    } else {
        floor_sqrt_of(n) + 1
    }
}

/// The alpha level of a filled arc's field at squared distance `s` from the corner
/// that is its centre: `BUFFER * (1 - (sqrt(s) - radius) / ARC_DISTANCE_SCALING_FACTOR)`,
/// that is `192 - 3 * (sqrt(s) - radius) / 4`, rounded down. For a whole `c`,
/// `(c - x) / 4` and `(c - ceil(x)) / 4` round down alike, so it is written with
/// `ceil(3 * sqrt(s)) = ceil_sqrt_of(9 * s)`. With `inverted`, the distance counts
/// the other way: `192 + 3 * (sqrt(s) - radius) / 4`, rounded down.
pub open spec fn arc_level(s: int, radius: int, inverted: bool) -> int {
    if inverted {
        (4 * BUFFER - 3 * radius + floor_sqrt_of(9 * s)) / 4
    } else {
        (4 * BUFFER + 3 * radius - ceil_sqrt_of(9 * s)) / 4
    }
}

/// The texel at `(x, y)` of an arc's field of side `size`.
pub open spec fn arc_field_texel(size: int, radius: int, inverted: bool, x: int, y: int) -> (u8, u8, u8, u8) {
    let s = (size - x) * (size - x) + (size - y) * (size - y);
    (255u8, 255u8, 255u8, clamp_byte(arc_level(s, radius, inverted)))
}

fn arc_alpha(s: u128, radius: u32, inverted: bool) -> (a: u8)
    requires
        s <= 0x1_0000_0000_0000_0000_0000,
    ensures
        a == clamp_byte(arc_level(s as int, radius as int, inverted)),
{
    let f = floor_sqrt(9 * s);
    assert(f <= 0x1_0000_0000_0000) by (nonlinear_arith)
        requires
            f * f <= 9 * s,
            s <= 0x1_0000_0000_0000_0000_0000,
            f >= 0,
    ;
    let buffer4 = 4 * (BUFFER as i128);
    let numerator: i128 = if inverted {
        buffer4 - 3 * (radius as i128) + f as i128
    } else {
        let c: i128 = if f * f == 9 * s { f as i128 } else { f as i128 + 1 };
        buffer4 + 3 * (radius as i128) - c
    };
    if numerator < 0 {
        assert(numerator / 4 < 0);
        0
    } else {
        let level = numerator / 4;
        if level > 255 {
            255
        } else {
            level as u8
        }
    }
}

fn build_arc_field(size: u32, radius: u32, inverted: bool) -> (r: Vec<u8>)
    requires
        size * size * 4 <= usize::MAX,
    ensures
        r@.len() == size * size * 4,
        forall|x: int, y: int|
            0 <= x < size && 0 <= y < size ==> #[trigger] texel(r@, size as int, x, y) == arc_field_texel(
                size as int,
                radius as int,
                inverted,
                x,
                y,
            ),
{
    let mut result: Vec<u8> = Vec::new();
    let mut y: u32 = 0;
    while y < size
        invariant
            y <= size,
            size * size * 4 <= usize::MAX,
            result@.len() == 4 * (y * size),
            forall|x0: int, y0: int|
                0 <= x0 < size && 0 <= y0 && y0 * size + x0 < y * size ==> #[trigger] texel(result@, size as int, x0, y0)
                    == arc_field_texel(size as int, radius as int, inverted, x0, y0),
        decreases size - y,
    {
        let mut x: u32 = 0;
        while x < size
            invariant
                y < size,
                x <= size,
                size * size * 4 <= usize::MAX,
                result@.len() == 4 * (y * size + x),
                forall|x0: int, y0: int|
                    0 <= x0 < size && 0 <= y0 && y0 * size + x0 < y * size + x ==> #[trigger] texel(
                        result@,
                        size as int,
                        x0,
                        y0,
                    ) == arc_field_texel(size as int, radius as int, inverted, x0, y0),
            decreases size - x,
        {
            let dx = (size - x) as u128;
            let dy = (size - y) as u128;
            assert(dx * dx + dy * dy <= 0x1_0000_0000_0000_0000_0000) by (nonlinear_arith)
                requires
                    dx <= 0xffff_ffff,
                    dy <= 0xffff_ffff,
            ;
            let alpha = arc_alpha(dx * dx + dy * dy, radius, inverted);
            let ghost before = result@;
            result.push(255);
            result.push(255);
            result.push(255);
            result.push(alpha);
            proof {
                let k = y * size + x;
                assert forall|x0: int, y0: int|
                    0 <= x0 < size && 0 <= y0 && y0 * size + x0 < k + 1 implies #[trigger] texel(result@, size as int, x0, y0)
                        == arc_field_texel(size as int, radius as int, inverted, x0, y0) by {
                    if y0 * size + x0 == k {
                        lemma_row_major_unique(size as int, x0, y0, x as int, y as int);
                    } else {
                        assert(texel(before, size as int, x0, y0) == texel(result@, size as int, x0, y0));
                    }
                }
            }
            x = x + 1;
        }
        assert(4 * (y * size + size) == 4 * ((y + 1) * size)) by (nonlinear_arith);
        y = y + 1;
    }
    assert(4 * (size * size) == size * size * 4) by (nonlinear_arith);
    assert forall|x0: int, y0: int| 0 <= x0 < size && 0 <= y0 < size implies #[trigger] texel(result@, size as int, x0, y0)
        == arc_field_texel(size as int, radius as int, inverted, x0, y0) by {
        lemma_row_major_index(size as int, size as int, x0, y0);
    }
    result
}

/// Builds the field of a quarter disc of `radius` centred on the bottom-right corner
/// of a `size` by `size` square: inside the disc the alpha rises above `BUFFER`.
pub fn build_distance_field_for_filled_arc(size: u32, radius: u32) -> (r: Vec<u8>)
    requires
        size * size * 4 <= usize::MAX,
    ensures
        r@.len() == size * size * 4,
        forall|x: int, y: int|
            0 <= x < size && 0 <= y < size ==> #[trigger] texel(r@, size as int, x, y) == arc_field_texel(
                size as int,
                radius as int,
                false,
                x,
                y,
            ),
        forall|x: int, y: int|
            0 <= x < size && 0 <= y < size ==> {
                let s = (size - x) * (size - x) + (size - y) * (size - y);
                &&& s <= radius * radius ==> #[trigger] texel(r@, size as int, x, y).3 >= BUFFER
                &&& s >= (radius + ARC_DISTANCE_SCALING_FACTOR) * (radius + ARC_DISTANCE_SCALING_FACTOR) ==> texel(
                    r@,
                    size as int,
                    x,
                    y,
                ).3 == 0
            },
{
    let r = build_arc_field(size, radius, false);
    assert forall|x: int, y: int| 0 <= x < size && 0 <= y < size implies {
        let s = (size - x) * (size - x) + (size - y) * (size - y);
        &&& s <= radius * radius ==> #[trigger] texel(r@, size as int, x, y).3 >= BUFFER
        &&& s >= (radius + ARC_DISTANCE_SCALING_FACTOR) * (radius + ARC_DISTANCE_SCALING_FACTOR) ==> texel(
            r@,
            size as int,
            x,
            y,
        ).3 == 0
    } by {
        let s = (size - x) * (size - x) + (size - y) * (size - y);
        assert(s >= 0) by (nonlinear_arith)
            requires
                s == (size - x) * (size - x) + (size - y) * (size - y),
        ;
        lemma_filled_arc_inside_and_far_outside(s, radius as int);
    }
    r
}

/// Builds the field of the same quarter disc with inside and outside exchanged: the
/// alpha rises above `BUFFER` outside the disc.
pub fn build_distance_field_for_inverted_filled_arc(size: u32, radius: u32) -> (r: Vec<u8>)
    requires
        size * size * 4 <= usize::MAX,
    ensures
        r@.len() == size * size * 4,
        forall|x: int, y: int|
            0 <= x < size && 0 <= y < size ==> #[trigger] texel(r@, size as int, x, y) == arc_field_texel(
                size as int,
                radius as int,
                true,
                x,
                y,
            ),
{
    build_arc_field(size, radius, true)
}

proof fn lemma_floor_sqrt_exists(n: int)
    requires
        n >= 0,
    ensures
        is_floor_sqrt(floor_sqrt_of(n), n),
    decreases n,
{
    if n == 0 {
        assert(is_floor_sqrt(0, 0));
    } else {
        lemma_floor_sqrt_exists(n - 1);
        let r = floor_sqrt_of(n - 1);
        if (r + 1) * (r + 1) == n {
            assert(n < (r + 2) * (r + 2)) by (nonlinear_arith)
                requires
                    (r + 1) * (r + 1) == n,
                    r >= 0,
            ;
            assert(is_floor_sqrt(r + 1, n));
        } else {
            assert(is_floor_sqrt(r, n));
        }
    }
}

/// The filled arc is a convex shape, and its field keeps the edge convention: at
/// every point inside the disc the alpha is at least `BUFFER`, and at every point
/// `ARC_DISTANCE_SCALING_FACTOR` or more beyond the rim it is zero.
pub proof fn lemma_filled_arc_inside_and_far_outside(s: int, radius: int)
    requires
        s >= 0,
        radius >= 0,
    ensures
        s <= radius * radius ==> clamp_byte(arc_level(s, radius, false)) >= BUFFER,
        s >= (radius + ARC_DISTANCE_SCALING_FACTOR) * (radius + ARC_DISTANCE_SCALING_FACTOR) ==> clamp_byte(
            arc_level(s, radius, false),
        ) == 0,
{
    lemma_floor_sqrt_exists(9 * s);
    let f = floor_sqrt_of(9 * s);
    if s <= radius * radius {
        assert(f <= 3 * radius) by (nonlinear_arith)
            requires
                f * f <= 9 * s,
                s <= radius * radius,
                f >= 0,
                radius >= 0,
        ;
        if f * f != 9 * s {
            assert(f < 3 * radius) by (nonlinear_arith)
                requires
                    f * f < 9 * s,
                    s <= radius * radius,
                    f >= 0,
                    radius >= 0,
            ;
        }
    }
    if s >= (radius + 256) * (radius + 256) {
        assert(f + 1 > 3 * radius + 768) by (nonlinear_arith)
            requires
                9 * s < (f + 1) * (f + 1),
                s >= (radius + 256) * (radius + 256),
                f >= 0,
                radius >= 0,
        ;
    }
}

proof fn lemma_nearest_exists_from(data: Seq<u8>, gw: int, gh: int, px: int, py: int, k: int)
    requires
        0 <= k <= MAX_GLYPH_DISTANCE * MAX_GLYPH_DISTANCE,
        forall|x1: int, y1: int|
            0 <= x1 < gw && 0 <= y1 < gh && #[trigger] glyph_pixel_inside(data, gw, gh, x1, y1) != glyph_pixel_inside(
                data,
                gw,
                gh,
                px,
                py,
            ) ==> k <= sq_distance(px, py, x1, y1),
    ensures
        is_nearest_sq_distance(data, gw, gh, px, py, nearest_sq_distance(data, gw, gh, px, py)),
    decreases MAX_GLYPH_DISTANCE * MAX_GLYPH_DISTANCE - k,
{
    let inside = glyph_pixel_inside(data, gw, gh, px, py);
    let cap = MAX_GLYPH_DISTANCE * MAX_GLYPH_DISTANCE;
    if k == cap {
        assert(is_nearest_sq_distance(data, gw, gh, px, py, k));
    } else if exists|x1: int, y1: int|
        0 <= x1 < gw && 0 <= y1 < gh && #[trigger] glyph_pixel_inside(data, gw, gh, x1, y1) != inside && sq_distance(
            px,
            py,
            x1,
            y1,
        ) == k {
        assert(is_nearest_sq_distance(data, gw, gh, px, py, k));
    } else {
        lemma_nearest_exists_from(data, gw, gh, px, py, k + 1);
    }
}

/// A glyph's field keeps the edge convention: at every set pixel of the bitmap the
/// alpha is at least `BUFFER`, and at every point outside the glyph whose nearest set
/// pixel is `BUFFER / GLYPH_DISTANCE_SCALING_FACTOR` pixels away or more it is zero.
pub proof fn lemma_glyph_field_inside_and_far_outside(data: Seq<u8>, gw: int, gh: int, px: int, py: int)
    ensures
        glyph_pixel_inside(data, gw, gh, px, py) ==> glyph_alpha(data, gw, gh, px, py) >= BUFFER,
        !glyph_pixel_inside(data, gw, gh, px, py) && GLYPH_DISTANCE_SCALING_FACTOR * GLYPH_DISTANCE_SCALING_FACTOR
            * nearest_sq_distance(data, gw, gh, px, py) >= BUFFER * BUFFER ==> glyph_alpha(data, gw, gh, px, py) == 0,
{
    assert forall|x1: int, y1: int|
        0 <= x1 < gw && 0 <= y1 < gh && #[trigger] glyph_pixel_inside(data, gw, gh, x1, y1) != glyph_pixel_inside(
            data,
            gw,
            gh,
            px,
            py,
        ) implies 0 <= sq_distance(px, py, x1, y1) by {
        assert(0 <= (x1 - px) * (x1 - px)) by (nonlinear_arith);
        assert(0 <= (y1 - py) * (y1 - py)) by (nonlinear_arith);
    }
    lemma_nearest_exists_from(data, gw, gh, px, py, 0);
    let d2 = nearest_sq_distance(data, gw, gh, px, py);
    let inside = glyph_pixel_inside(data, gw, gh, px, py);
    let cap = MAX_GLYPH_DISTANCE * MAX_GLYPH_DISTANCE;
    let n = GLYPH_DISTANCE_SCALING_FACTOR * GLYPH_DISTANCE_SCALING_FACTOR * d2;
    if inside {
        if d2 != cap {
            let (x1, y1) = choose|x1: int, y1: int|
                0 <= x1 < gw && 0 <= y1 < gh && #[trigger] glyph_pixel_inside(data, gw, gh, x1, y1) != inside
                && sq_distance(px, py, x1, y1) == d2;
            assert(x1 != px || y1 != py);
            assert(d2 >= 1) by (nonlinear_arith)
                requires
                    d2 == (x1 - px) * (x1 - px) + (y1 - py) * (y1 - py),
                    x1 != px || y1 != py,
            ;
        }
        assert(d2 >= 1);
    }
    if d2 != cap {
        let (x1, y1) = choose|x1: int, y1: int|
            0 <= x1 < gw && 0 <= y1 < gh && #[trigger] glyph_pixel_inside(data, gw, gh, x1, y1) != inside
            && sq_distance(px, py, x1, y1) == d2;
    }
    assert(d2 >= 0);
    assert(n >= 0);
    lemma_floor_sqrt_exists(n);
    let root = floor_sqrt_of(n);
    if inside {
        assert(root >= 10) by (nonlinear_arith)
            requires
                n < (root + 1) * (root + 1),
                n >= 100,
                root >= 0,
        ;
    }
    if n >= BUFFER * BUFFER {
        assert(root >= 192) by (nonlinear_arith)
            requires
                n < (root + 1) * (root + 1),
                n >= 192 * 192,
                root >= 0,
        ;
    }
}

} // verus!
