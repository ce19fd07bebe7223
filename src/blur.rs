//! Blurring a glyph through its distance field. Each texel's distance to the edge
//! indexes a table of the running integral of a Gaussian kernel, which gives the
//! coverage that a true blur would leave there, so long as the blur is narrower than
//! the glyph's thinnest stroke.

use vstd::prelude::*;
use crate::distance_field::{BUFFER, GLYPH_DISTANCE_SCALING_FACTOR};
use crate::geometry::Size2D;

verus! {

/// `n / d` rounded to the nearest whole number, halves away from zero.
pub open spec fn round_div(n: int, d: int) -> int
    recommends
        d > 0,
{
    if n >= 0 {
        (2 * n + d) / (2 * d)
    } else {
        -((-2 * n + d) / (2 * d))
    }
}

/// The blurred coverage for a field texel of alpha `alpha`: none where the texel
/// lies more than `blur_radius` pixels outside the edge, full where it lies more
/// than `blur_radius` inside, and in between the table entry for its distance
/// rounded to a whole pixel. `table[blur_radius + d]` is the coverage at distance `d`.
pub open spec fn blurred_value(alpha: int, blur_radius: int, table: Seq<u8>) -> u8 {
    let offset = alpha - BUFFER;
    let scale = GLYPH_DISTANCE_SCALING_FACTOR as int;
    if offset < -blur_radius * scale {
        0
    } else if offset > blur_radius * scale {
        255
    } else {
        table[round_div(offset, scale) + blur_radius]
    }
}

fn blurred_value_of(alpha: u8, blur_radius: u32, table: &Vec<u8>) -> (v: u8)
    requires
        table@.len() == 2 * blur_radius + 1,
    ensures
        v == blurred_value(alpha as int, blur_radius as int, table@),
{
    let offset: i64 = alpha as i64 - BUFFER as i64;
    let scale: i64 = GLYPH_DISTANCE_SCALING_FACTOR as i64;
    let reach: i64 = blur_radius as i64 * scale;
    if offset < -reach {
        0
    } else if offset > reach {
        255
    } else {
        let rounded: i64 = if offset >= 0 {
            (2 * offset + scale) / (2 * scale)
        } else {
            -((-2 * offset + scale) / (2 * scale))
        };
        assert(-(blur_radius as int) <= rounded <= blur_radius) by (nonlinear_arith)
            requires
                -reach <= offset <= reach,
                reach == blur_radius * 10,
                scale == 10,
                offset >= 0 ==> rounded == (2 * offset + scale) / (2 * scale),
                offset < 0 ==> rounded == -((-2 * offset + scale) / (2 * scale)),
        ;
        assert(rounded == round_div(offset as int, scale as int));
        assert(offset == alpha - BUFFER);
        assert(0 <= rounded + blur_radius <= 2 * blur_radius);
        let table_len = table.len();
        assert(rounded + blur_radius < table_len);
        let index = (rounded + blur_radius as i64) as usize;
        assert(index == round_div(offset as int, scale as int) + blur_radius);
        table[index]
    }
}

/// Blurs a field of `size` texels: every texel of the result has the blurred
/// coverage of the input texel's alpha in all four channels.
pub fn blur_distance_field_with_table(
    distance_field: &Vec<u8>,
    size: &Size2D<u32>,
    blur_radius: u32,
    table: &Vec<u8>,
) -> (r: Vec<u8>)
    requires
        distance_field@.len() >= size.width * size.height * 4,
        size.width * size.height * 4 <= usize::MAX,
        table@.len() == 2 * blur_radius + 1,
    ensures
        r@.len() == size.width * size.height * 4,
        forall|i: int, c: int|
            0 <= i < size.width * size.height && 0 <= c < 4 ==> #[trigger] r@[4 * i + c] == blurred_value(
                distance_field@[4 * i + 3] as int,
                blur_radius as int,
                table@,
            ),
{
    let count: usize = (size.width as usize) * (size.height as usize);
    let mut result: Vec<u8> = Vec::new();
    let mut i: usize = 0;
    while i < count
        invariant
            i <= count,
            count == size.width * size.height,
            count * 4 <= usize::MAX,
            distance_field@.len() >= count * 4,
            table@.len() == 2 * blur_radius + 1,
            result@.len() == 4 * i,
            forall|j: int, c: int|
                0 <= j < i && 0 <= c < 4 ==> #[trigger] result@[4 * j + c] == blurred_value(
                    distance_field@[4 * j + 3] as int,
                    blur_radius as int,
                    table@,
                ),
        decreases count - i,
    {
        let value = blurred_value_of(distance_field[4 * i + 3], blur_radius, table);
        let ghost before = result@;
        result.push(value);
        result.push(value);
        result.push(value);
        result.push(value);
        proof {
            assert forall|j: int, c: int| 0 <= j < i + 1 && 0 <= c < 4 implies #[trigger] result@[4 * j + c]
                == blurred_value(distance_field@[4 * j + 3] as int, blur_radius as int, table@) by {
                if j < i {
                    assert(result@[4 * j + c] == before[4 * j + c]);
                }
            }
        }
        i = i + 1;
    }
    result
}

} // verus!
