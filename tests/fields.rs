use webrast::assets::{ArcAsset, ArcMode, AssetRasterization, BlurredGlyph, Glyph, ARC_RADIUS};
use webrast::blur::blur_distance_field_with_table;
use webrast::distance_field::{
    build_distance_field_for_filled_arc, build_distance_field_for_glyph,
    build_distance_field_for_inverted_filled_arc, floor_sqrt, BUFFER,
};
use webrast::geometry::Size2D;
use webrast::tga::tga_image;

fn alpha(field: &[u8], width: u32, x: u32, y: u32) -> u8 {
    field[(4 * (y * width + x) + 3) as usize]
}

#[test]
fn floor_square_roots() {
    assert_eq!(floor_sqrt(0), 0);
    assert_eq!(floor_sqrt(1), 1);
    assert_eq!(floor_sqrt(200), 14);
    assert_eq!(floor_sqrt(288), 16);
    assert_eq!(floor_sqrt(289), 17);
    assert_eq!(floor_sqrt(u128::MAX), u64::MAX as u128);
}

#[test]
fn glyph_field_of_a_square() {
    // A 4 by 4 bitmap with its middle 2 by 2 set, kept at full size.
    let mut bitmap = vec![0u8; 16];
    for (x, y) in [(1, 1), (2, 1), (1, 2), (2, 2)].iter() {
        bitmap[y * 4 + x] = 255;
    }
    let size = Size2D::new(4, 4);
    let field = build_distance_field_for_glyph(&bitmap, &size, &size, &size);
    assert_eq!(field.len(), 64);
    assert_eq!(&field[0..3], &[255, 255, 255]);
    // Corner: outside, nearest set pixel one step away on both axes: 192 - floor(sqrt(200)).
    assert_eq!(alpha(&field, 4, 0, 0), 178);
    // Edge: outside, one pixel from the square.
    assert_eq!(alpha(&field, 4, 1, 0), 182);
    // Inside, one pixel from the outside: exactly the buffer.
    assert_eq!(alpha(&field, 4, 1, 1), BUFFER);
    assert_eq!(alpha(&field, 4, 2, 2), BUFFER);
}

#[test]
fn glyph_field_with_no_edge_is_capped() {
    let bitmap = vec![0u8; 4];
    let size = Size2D::new(2, 2);
    let field = build_distance_field_for_glyph(&bitmap, &size, &size, &size);
    // No set pixel at all: the distance is capped at 127 pixels, so the alpha is clamped to 0.
    assert_eq!(alpha(&field, 2, 0, 0), 0);
}

#[test]
fn glyph_field_is_padded_and_scaled() {
    let bitmap = vec![255u8; 8 * 8];
    let glyph = Size2D::new(8, 8);
    let in_field = Size2D::new(4, 4);
    let field_size = Size2D::new(6, 6);
    let field = build_distance_field_for_glyph(&bitmap, &glyph, &in_field, &field_size);
    assert_eq!(field.len(), 6 * 6 * 4);
    // Field texel (1, 1) maps to glyph pixel (0, 0), which is set, with no unset pixel anywhere.
    assert_eq!(alpha(&field, 6, 1, 1), 255);
    // Field texel (5, 5) maps to glyph pixel (8, 8), just outside; the nearest set pixel is (7, 7).
    assert_eq!(alpha(&field, 6, 5, 5), 178);
}

#[test]
fn filled_arc_field() {
    let field = build_distance_field_for_filled_arc(4, 4);
    assert_eq!(field.len(), 64);
    assert_eq!(alpha(&field, 4, 0, 0), 190);
    assert_eq!(alpha(&field, 4, 3, 3), 193);
    let inverted = build_distance_field_for_inverted_filled_arc(4, 4);
    assert_eq!(alpha(&inverted, 4, 3, 3), 190);
    assert_eq!(alpha(&inverted, 4, 0, 0), 193);
}

#[test]
fn filled_arc_far_outside_is_transparent() {
    let field = build_distance_field_for_filled_arc(400, 0);
    // Corner (0, 0) lies 400 * sqrt(2) texels from the centre, well over 256 past the rim.
    assert_eq!(alpha(&field, 400, 0, 0), 0);
    // Next to the centre, inside a disc of radius 0 is nothing, yet the level stays near the buffer.
    assert_eq!(alpha(&field, 400, 399, 399), 190);
}

#[test]
fn arc_assets_rasterize_to_their_radius() {
    let filled = ArcAsset { mode: ArcMode::FilledArc }.rasterize();
    assert_eq!(filled.size, Size2D::new(ARC_RADIUS, ARC_RADIUS));
    assert_eq!(filled.data.len(), (ARC_RADIUS * ARC_RADIUS * 4) as usize);
    let inverted = ArcAsset { mode: ArcMode::InvertedFilledArc }.rasterize();
    assert_ne!(filled.data, inverted.data);
}

#[test]
fn blur_table_lookup() {
    let table = vec![10u8, 128, 250];
    let field = vec![0, 0, 0, 192, 0, 0, 0, 255, 0, 0, 0, 0, 0, 0, 0, 197, 0, 0, 0, 187];
    let blurred = blur_distance_field_with_table(&field, &Size2D::new(5, 1), 1, &table);
    assert_eq!(blurred, vec![128, 128, 128, 128, 255, 255, 255, 255, 0, 0, 0, 0, 250, 250, 250, 250, 10, 10, 10, 10]);
}

#[test]
fn blurred_glyph_kernel_reach() {
    let blurred = BlurredGlyph::new(2000);
    assert_eq!(blurred.blur_radius(), 60);
    let table: Vec<u8> = (0..121).map(|i| (i * 2) as u8).collect();
    assert_eq!(table.len(), 121);
    let dependency = AssetRasterization { data: vec![255, 255, 255, 192], size: Size2D::new(1, 1) };
    let r = blurred.rasterize(&dependency, &table);
    assert_eq!(r.size, Size2D::new(1, 1));
    assert_eq!(r.data, vec![120, 120, 120, 120]);
    // A fractional sigma: 3 * 2.5 = 7.5, so the kernel reaches 8 texels.
    assert_eq!(BlurredGlyph::new(250).blur_radius(), 8);
    assert_eq!(BlurredGlyph::new(300).blur_radius(), 9);
}

#[test]
fn glyph_bitmap_sizes() {
    // A 32 pixel square glyph whose top lies 32 pixels under the top of the rendering size.
    let bitmap = vec![255u8; 32 * 32];
    let glyph = Glyph::new("font.ttf".to_string(), 'o');
    let r = glyph.rasterize(&bitmap, 32, 1024 - 32);
    // 32 * 96 / 1024 = 3, plus half of it again for the margin.
    assert_eq!(r.size, Size2D::new(4, 4));
    assert_eq!(r.data.len(), 64);
}

#[test]
fn tga_snapshot() {
    let buffer = vec![0, 0, 0, 10, 0, 0, 0, 20, 0, 0, 0, 30, 0, 0, 0, 40];
    let image = tga_image(&buffer, &Size2D::new(2, 2));
    assert_eq!(image.len(), 18 + 12);
    assert_eq!(&image[0..18], &[0, 0, 2, 0, 0, 0, 0, 0, 0, 0, 0, 0, 2, 0, 2, 0, 24, 0]);
    assert_eq!(&image[18..], &[30, 30, 30, 40, 40, 40, 10, 10, 10, 20, 20, 20]);
}

#[test]
fn tga_header_splits_wide_sizes() {
    let buffer = vec![0u8; 300 * 4];
    let image = tga_image(&buffer, &Size2D::new(300, 1));
    assert_eq!(&image[12..16], &[44, 1, 1, 0]);
}

#[test]
fn inside_points_reach_the_buffer() {
    let size = 64u32;
    let field = build_distance_field_for_filled_arc(size, size);
    for y in 0..size {
        for x in 0..size {
            let (dx, dy) = ((size - x) as u64, (size - y) as u64);
            if dx * dx + dy * dy <= (size as u64) * (size as u64) {
                assert!(alpha(&field, size, x, y) >= BUFFER, "texel ({}, {})", x, y);
            }
        }
    }
    let mut bitmap = vec![0u8; 10 * 10];
    for y in 2..8 {
        for x in 3..9 {
            bitmap[y * 10 + x] = 1;
        }
    }
    let glyph = Size2D::new(10, 10);
    let field = build_distance_field_for_glyph(&bitmap, &glyph, &glyph, &glyph);
    for y in 0..10u32 {
        for x in 0..10u32 {
            if bitmap[(y * 10 + x) as usize] != 0 {
                assert!(alpha(&field, 10, x, y) >= BUFFER);
            } else {
                assert!(alpha(&field, 10, x, y) < BUFFER);
            }
        }
    }
}
