use webrast::assets::{
    ArcAsset, ArcMode, AssetDescription, AssetId, AssetManager, AssetRasterization, Glyph, ARC_RADIUS,
};
use webrast::atlas::{Atlas, Priority};
use webrast::batch::{Batch, Batcher, BufferGamma, Depth, TexCoord, Vertex, GAMMA};
use webrast::context::Context;
use webrast::display_list::{
    Au, BaseDisplayItem, BorderDisplayItem, ClippingRegion, Color, DisplayItem, SolidColorDisplayItem,
    TextDisplayItem,
};
use webrast::geometry::{Point2D, Rect, Size2D};

fn px_rect(x: i32, y: i32, w: i32, h: i32) -> Rect<Au> {
    Rect::new(Point2D::new(Au::from_px(x), Au::from_px(y)), Size2D::new(Au::from_px(w), Au::from_px(h)))
}

fn base(bounds: Rect<Au>) -> BaseDisplayItem {
    BaseDisplayItem { bounds, clip: ClippingRegion { main: bounds } }
}

fn context_with(manager: AssetManager) -> Context {
    Context { asset_manager: manager, render_target_size: Size2D::new(800, 600) }
}

fn place(manager: &mut AssetManager, id: AssetId, w: u32, h: u32) {
    manager.start_rasterizing_asset_if_necessary(id);
    manager.receive_rasterization(id, AssetRasterization { data: vec![0; (w * h * 4) as usize], size: Size2D::new(w, h) });
    manager.require_asset(id, Priority::Retained).unwrap();
}

fn batch_of(batcher: Batcher) -> Batch {
    batcher.finish().pop().unwrap()
}

#[test]
fn single_solid_color() {
    let context = context_with(AssetManager::new(Atlas::new(1)));
    let item = DisplayItem::SolidColor(Box::new(SolidColorDisplayItem {
        base: base(px_rect(60, 60, 240, 240)),
        color: Color::new(128, 0, 128, 255),
    }));
    let mut batcher = Batcher::new();
    batcher.add(&context, &item);
    let batch = batch_of(batcher);
    assert_eq!(batch.vertex_count(), 4);
    assert_eq!(batch.elements, vec![0, 2, 1, 1, 2, 3]);
    assert_eq!(
        batch.vertices,
        vec![
            Vertex { x: 120, y: 120, depth: Depth::Near },
            Vertex { x: 599, y: 120, depth: Depth::Near },
            Vertex { x: 120, y: 599, depth: Depth::Near },
            Vertex { x: 599, y: 599, depth: Depth::Near },
        ]
    );
    assert_eq!(batch.colors, vec![Color::new(128, 0, 128, 255); 4]);
    assert_eq!(batch.buffer_gamma, vec![BufferGamma { buffer: 0, gamma: 0 }; 4]);
    assert_eq!(batch.texture_coords, vec![TexCoord { u: 0, v: 0 }; 4]);
}

#[test]
fn text_without_blur() {
    let mut manager = AssetManager::new(Atlas::new(1));
    let glyph = manager.create_asset(AssetDescription::Glyph(Glyph::new("f.ttf".to_string(), 'S')), None);
    let item = DisplayItem::Text(Box::new(TextDisplayItem {
        base: base(px_rect(0, 0, 100, 100)),
        glyph_asset: glyph,
        blurred_glyph_asset: None,
    }));
    let mut batcher = Batcher::new();
    place(&mut manager, glyph, 10, 20);
    let context = context_with(manager);
    batcher.add(&context, &item);
    let batch = batch_of(batcher);
    assert_eq!(batch.vertex_count(), 4);
    assert_eq!(batch.elements.len(), 6);
    assert_eq!(batch.buffer_gamma, vec![BufferGamma { buffer: 192, gamma: GAMMA }; 4]);
    assert_eq!(GAMMA, 10);
    assert_eq!(batch.colors, vec![Color::transparent_black(); 4]);
    assert_eq!(
        batch.texture_coords,
        vec![
            TexCoord { u: 1, v: 1 },
            TexCoord { u: 19, v: 1 },
            TexCoord { u: 1, v: 39 },
            TexCoord { u: 19, v: 39 },
        ]
    );
}

#[test]
fn border_emits_five_quads() {
    let mut manager = AssetManager::new(Atlas::new(1));
    let arc = manager.create_asset(AssetDescription::Arc(ArcAsset { mode: ArcMode::FilledArc }), None);
    let inverted = manager.create_asset(AssetDescription::Arc(ArcAsset { mode: ArcMode::InvertedFilledArc }), None);
    place(&mut manager, arc, ARC_RADIUS, ARC_RADIUS);
    place(&mut manager, inverted, ARC_RADIUS, ARC_RADIUS);
    let context = context_with(manager);
    let item = DisplayItem::Border(Box::new(BorderDisplayItem {
        base: base(px_rect(0, 0, 100, 100)),
        width: Au(150),
        color: Color::white(),
        radius: Au(50),
        arc_asset: arc,
        inverted_arc_asset: inverted,
    }));
    let mut batcher = Batcher::new();
    batcher.add(&context, &item);
    let batch = batch_of(batcher);
    assert_eq!(batch.vertex_count(), 20);
    assert_eq!(batch.elements.len(), 30);
    let tb = Color::transparent_black();
    let white = Color::white();
    let quad_colors: Vec<Color> = (0..5).map(|q| batch.colors[4 * q]).collect();
    assert_eq!(quad_colors, vec![tb, white, white, white, tb]);
    let edge = BufferGamma { buffer: 192, gamma: GAMMA };
    let none = BufferGamma { buffer: 0, gamma: 0 };
    let quad_gammas: Vec<BufferGamma> = (0..5).map(|q| batch.buffer_gamma[4 * q]).collect();
    assert_eq!(quad_gammas, vec![edge, none, none, none, edge]);
    for q in 0..5u32 {
        let b = 4 * q;
        assert_eq!(&batch.elements[(6 * q) as usize..(6 * q + 6) as usize], &[b, b + 2, b + 1, b + 1, b + 2, b + 3]);
    }
    // The inner arc's texture is the inverted arc's region, second in the atlas.
    assert_eq!(batch.texture_coords[16], TexCoord { u: 2 * ARC_RADIUS as i64 + 1, v: 1 });
    // The top edge starts one radius to the right: 50 Au is under a pixel, so at pixel 0.
    assert_eq!(batch.vertices[4], Vertex { x: 0, y: 0, depth: Depth::Near });
}

#[test]
fn emission_counts_per_item() {
    let mut manager = AssetManager::new(Atlas::new(1));
    let glyph = manager.create_asset(AssetDescription::Glyph(Glyph::new("f.ttf".to_string(), 'a')), None);
    let arc = manager.create_asset(AssetDescription::Arc(ArcAsset { mode: ArcMode::FilledArc }), None);
    place(&mut manager, glyph, 5, 5);
    place(&mut manager, arc, ARC_RADIUS, ARC_RADIUS);
    let context = context_with(manager);
    let items = vec![
        DisplayItem::SolidColor(Box::new(SolidColorDisplayItem { base: base(px_rect(1, 2, 3, 4)), color: Color::black() })),
        DisplayItem::Text(Box::new(TextDisplayItem {
            base: base(px_rect(0, 0, 8, 10)),
            glyph_asset: glyph,
            blurred_glyph_asset: None,
        })),
        DisplayItem::Border(Box::new(BorderDisplayItem {
            base: base(px_rect(0, 0, 10, 10)),
            width: Au(60),
            color: Color::black(),
            radius: Au(30),
            arc_asset: arc,
            inverted_arc_asset: arc,
        })),
    ];
    let mut batcher = Batcher::new();
    let mut counts = Vec::new();
    for item in items.iter() {
        let before = (batcher.pending_batch.vertices.len(), batcher.pending_batch.elements.len());
        batcher.add(&context, item);
        let after = (batcher.pending_batch.vertices.len(), batcher.pending_batch.elements.len());
        counts.push((after.0 - before.0, after.1 - before.1));
    }
    assert_eq!(counts, vec![(4, 6), (4, 6), (20, 30)]);
    let batch = batch_of(batcher);
    assert!(batch.elements.iter().all(|e| (*e as usize) < batch.vertices.len()));
}

#[test]
fn clear_and_clip_quads_wind_clockwise() {
    let context = context_with(AssetManager::new(Atlas::new(1)));
    let mut batch = Batch::new();
    batch.clear_clip(&context);
    batch.add_clip(&ClippingRegion { main: px_rect(10, 10, 5, 5) });
    assert_eq!(batch.elements, vec![0, 1, 2, 2, 1, 3, 4, 5, 6, 6, 5, 7]);
    assert_eq!(batch.vertices[3], Vertex { x: 1599, y: 1199, depth: Depth::Far });
    assert_eq!(batch.colors[0], Color::white());
    assert_eq!(batch.colors[4], Color::transparent_green());
}
