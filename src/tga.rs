//! Snapshots of fields as uncompressed 24-bit TGA images, for debugging.

use vstd::prelude::*;
use crate::geometry::{lemma_row_major_index, lemma_row_major_unique, Size2D};

verus! {

/// Length of a TGA header.
pub const TGA_HEADER_LEN: usize = 18;

/// The header of an uncompressed true-color image of `size`, 24 bits a pixel.
pub open spec fn tga_header(size: Size2D<u32>) -> Seq<u8> {
    seq![
        0u8, 0, 2, 0, 0, 0, 0, 0, 0, 0, 0, 0,
        (size.width % 256) as u8,
        ((size.width / 256) % 256) as u8,
        (size.height % 256) as u8,
        ((size.height / 256) % 256) as u8,
        24,
        0,
    ]
}

/// A TGA image of the alpha channel of an RGBA image of `size`: each pixel is
/// written as three copies of its alpha, rows from the bottom up.
pub fn tga_image(buffer: &Vec<u8>, size: &Size2D<u32>) -> (r: Vec<u8>)
    requires
        buffer@.len() >= size.width * size.height * 4,
        size.width * size.height * 4 <= usize::MAX,
    ensures
        r@.len() == TGA_HEADER_LEN + 3 * (size.width * size.height),
        r@.subrange(0, TGA_HEADER_LEN as int) == tga_header(*size),
        forall|x: int, y: int, c: int|
            0 <= x < size.width && 0 <= y < size.height && 0 <= c < 3 ==> #[trigger] r@[TGA_HEADER_LEN + 3 * ((
            size.height - 1 - y) * size.width + x) + c] == buffer@[4 * (y * size.width + x) + 3],
{
    let (w, h) = (size.width, size.height);
    let mut out: Vec<u8> = Vec::new();
    let mut k: usize = 0;
    while k < TGA_HEADER_LEN
        invariant
            k <= TGA_HEADER_LEN,
            out@.len() == k,
            forall|i: int| 0 <= i < k ==> #[trigger] out@[i] == (if i == 2 { 2u8 } else if i == 16 { 24u8 } else { 0u8 }),
        decreases TGA_HEADER_LEN - k,
    {
        out.push(if k == 2 { 2 } else if k == 16 { 24 } else { 0 });
        k = k + 1;
    }
    out.set(12, (w % 256) as u8);
    out.set(13, ((w / 256) % 256) as u8);
    out.set(14, (h % 256) as u8);
    out.set(15, ((h / 256) % 256) as u8);
    assert(out@ =~= tga_header(*size));
    let mut row: u32 = 0;
    while row < h
        invariant
            row <= h,
            w == size.width,
            h == size.height,
            buffer@.len() >= w * h * 4,
            w * h * 4 <= usize::MAX,
            out@.len() == TGA_HEADER_LEN + 3 * (row * w),
            out@.subrange(0, TGA_HEADER_LEN as int) == tga_header(*size),
            forall|x: int, r0: int, c: int|
                0 <= x < w && 0 <= r0 && r0 * w + x < row * w && 0 <= c < 3 ==> #[trigger] out@[TGA_HEADER_LEN + 3 * (r0
                    * w + x) + c] == buffer@[4 * ((h - 1 - r0) * w + x) + 3],
        decreases h - row,
    {
        let y = h - 1 - row;
        let mut x: u32 = 0;
        while x < w
            invariant
                row < h,
                y == h - 1 - row,
                x <= w,
                w == size.width,
                h == size.height,
                buffer@.len() >= w * h * 4,
                w * h * 4 <= usize::MAX,
                out@.len() == TGA_HEADER_LEN + 3 * (row * w + x),
                out@.subrange(0, TGA_HEADER_LEN as int) == tga_header(*size),
                forall|x0: int, r0: int, c: int|
                    0 <= x0 < w && 0 <= r0 && r0 * w + x0 < row * w + x && 0 <= c < 3 ==> #[trigger] out@[TGA_HEADER_LEN
                        + 3 * (r0 * w + x0) + c] == buffer@[4 * ((h - 1 - r0) * w + x0) + 3],
            decreases w - x,
        {
            proof {
                lemma_row_major_index(w as int, h as int, x as int, y as int);
            }
            let a = buffer[4 * ((y as usize) * (w as usize) + (x as usize)) + 3];
            let ghost before = out@;
            out.push(a);
            out.push(a);
            out.push(a);
            proof {
                let k = row * w + x;
                assert(out@.subrange(0, TGA_HEADER_LEN as int) =~= before.subrange(0, TGA_HEADER_LEN as int));
                assert forall|x0: int, r0: int, c: int|
                    0 <= x0 < w && 0 <= r0 && r0 * w + x0 < k + 1 && 0 <= c < 3 implies #[trigger] out@[TGA_HEADER_LEN
                        + 3 * (r0 * w + x0) + c] == buffer@[4 * ((h - 1 - r0) * w + x0) + 3] by {
                    if r0 * w + x0 == k {
                        lemma_row_major_unique(w as int, x0, r0, x as int, row as int);
                    } else {
                        assert(out@[TGA_HEADER_LEN + 3 * (r0 * w + x0) + c] == before[TGA_HEADER_LEN + 3 * (r0 * w + x0) + c]);
                    }
                }
            }
            x = x + 1;
        }
        assert(3 * (row * w + w) == 3 * ((row + 1) * w)) by (nonlinear_arith);
        row = row + 1;
    }
    proof {
        assert(3 * (h * w) == 3 * (w * h)) by (nonlinear_arith);
        assert forall|x: int, y: int, c: int|
            0 <= x < w && 0 <= y < h && 0 <= c < 3 implies #[trigger] out@[TGA_HEADER_LEN + 3 * ((h - 1 - y) * w + x) + c]
                == buffer@[4 * (y * w + x) + 3] by {
            let r0 = h - 1 - y;
            lemma_row_major_index(w as int, h as int, x, r0);
            assert(h - 1 - r0 == y);
        }
    }
    out
}

} // verus!
