//! Turning display items into one batch of vertex attributes for a single indexed
//! draw. Positions are kept in half pixels of the render target and texture
//! coordinates in half texels of the atlas, so that the half-pixel insets are
//! exact; the drawing side scales them to device coordinates.

use vstd::prelude::*;
use crate::assets::{Asset, AssetId, AssetRasterizationStatus, ARC_RADIUS};
use crate::context::Context;
use crate::display_list::{trunc_div, Au, BorderDisplayItem, ClippingRegion, Color, DisplayItem, AU_PER_PX};
use crate::distance_field::BUFFER;
use crate::geometry::{Point2D, Rect, Size2D};

verus! {

/// The edge sharpness of glyphs drawn from their fields, in thousandths.
pub const GAMMA: u16 = 10;

/// How deep a vertex lies: items are drawn near, the clearing quad far.
#[derive(Clone, Copy, Debug, PartialEq, Eq, Structural)]
pub enum Depth {
    /// Depth -0.5.
    Near,
    /// Depth 0.5.
    Far,
}

/// A vertex position in half pixels of the render target, `y` growing downwards.
#[derive(Clone, Copy, Debug, PartialEq, Eq, Structural)]
pub struct Vertex {
    pub x: i64,
    pub y: i64,
    pub depth: Depth,
}

/// The smoothstep that turns a sampled field into coverage: `buffer` out of 255 is
/// the edge, `gamma` thousandths its half width. Zero in both samples the texture as
/// it is.
#[derive(Clone, Copy, Debug, PartialEq, Eq, Structural)]
pub struct BufferGamma {
    pub buffer: u8,
    pub gamma: u16,
}

/// A texture coordinate in half texels of the atlas.
#[derive(Clone, Copy, Debug, PartialEq, Eq, Structural)]
pub struct TexCoord {
    pub u: i64,
    pub v: i64,
}

/// In which turning order a quad's two triangles are listed.
#[derive(Clone, Copy, Debug, PartialEq, Eq, Structural)]
pub enum Winding {
    Clockwise,
    CounterClockwise,
}

/// One rectangle to draw: where (in application units), how deep, in what color,
/// how its texture is sampled and from where (in atlas texels), and its winding.
#[derive(Clone, Copy, Debug, PartialEq, Eq, Structural)]
pub struct Quad {
    pub rect: Rect<i64>,
    pub depth: Depth,
    pub color: Color,
    pub buffer_gamma: BufferGamma,
    pub texture: Option<Rect<i64>>,
    pub winding: Winding,
}

/// Five parallel vertex arrays and the indices into them. Vertex `i` of every
/// array belongs to the same vertex.
pub struct Batch {
    pub vertices: Vec<Vertex>,
    pub colors: Vec<Color>,
    pub buffer_gamma: Vec<BufferGamma>,
    pub texture_coords: Vec<TexCoord>,
    pub elements: Vec<u32>,
}

/// The contents of a batch.
pub type BatchView = (Seq<Vertex>, Seq<Color>, Seq<BufferGamma>, Seq<TexCoord>, Seq<u32>);

/// Whole pixels of a length in application units, rounded toward zero.
pub open spec fn px(au: int) -> int {
    trunc_div(au, AU_PER_PX as int)
}

/// Application units are small enough for every sum the batcher forms.
pub open spec fn au_in_range(v: int) -> bool {
    -0x1_0000_0000_0000 <= v <= 0x1_0000_0000_0000
}

pub open spec fn quad_in_range(q: Quad) -> bool {
    &&& au_in_range(q.rect.origin.x as int)
    &&& au_in_range(q.rect.origin.y as int)
    &&& au_in_range(q.rect.size.width as int)
    &&& au_in_range(q.rect.size.height as int)
    &&& q.texture matches Some(t) ==> {
        &&& au_in_range(t.origin.x as int)
        &&& au_in_range(t.origin.y as int)
        &&& au_in_range(t.size.width as int)
        &&& au_in_range(t.size.height as int)
    }
}

/// The corners of a rectangle, top left, top right, bottom left, bottom right. The
/// far edges are pulled in by half a pixel so that neighbours do not bleed in.
pub open spec fn rect_vertices(r: Rect<i64>, depth: Depth) -> Seq<Vertex> {
    let x0 = 2 * px(r.origin.x as int);
    let y0 = 2 * px(r.origin.y as int);
    let x1 = 2 * (px(r.origin.x as int) + px(r.size.width as int)) - 1;
    let y1 = 2 * (px(r.origin.y as int) + px(r.size.height as int)) - 1;
    seq![
        Vertex { x: x0 as i64, y: y0 as i64, depth },
        Vertex { x: x1 as i64, y: y0 as i64, depth },
        Vertex { x: x0 as i64, y: y1 as i64, depth },
        Vertex { x: x1 as i64, y: y1 as i64, depth },
    ]
}

/// The texture coordinates of a rectangle's corners, sampling texel centres: half a
/// texel in from the near edges, half a texel in from the far edges.
pub open spec fn rect_tex_coords(t: Rect<i64>) -> Seq<TexCoord> {
    let u0 = 2 * t.origin.x + 1;
    let v0 = 2 * t.origin.y + 1;
    let u1 = 2 * (t.origin.x + t.size.width) - 1;
    let v1 = 2 * (t.origin.y + t.size.height) - 1;
    seq![
        TexCoord { u: u0 as i64, v: v0 as i64 },
        TexCoord { u: u1 as i64, v: v0 as i64 },
        TexCoord { u: u0 as i64, v: v1 as i64 },
        TexCoord { u: u1 as i64, v: v1 as i64 },
    ]
}

/// The two triangles of the quad whose top-left vertex is `base`.
pub open spec fn quad_elements(base: int, winding: Winding) -> Seq<u32> {
    let (tl, tr, bl, br) = (base as u32, (base + 1) as u32, (base + 2) as u32, (base + 3) as u32);
    match winding {
        Winding::Clockwise => seq![tl, tr, bl, bl, tr, br],
        Winding::CounterClockwise => seq![tl, bl, tr, tr, bl, br],
    }
}

/// The buffer and gamma of an untextured quad, or of one whose texture is used as
/// sampled.
pub open spec fn dummy_buffer_gamma() -> BufferGamma {
    BufferGamma { buffer: 0, gamma: 0 }
}

/// The buffer and gamma that draw a field's edge.
pub open spec fn edge_buffer_gamma() -> BufferGamma {
    BufferGamma { buffer: BUFFER, gamma: GAMMA }
}

/// The batch with one more quad.
pub open spec fn push_quad(b: BatchView, q: Quad) -> BatchView {
    let tex = match q.texture {
        Some(t) => rect_tex_coords(t),
        None => seq![TexCoord { u: 0, v: 0 }; 4],
    };
    (
        b.0 + rect_vertices(q.rect, q.depth),
        b.1 + seq![q.color; 4],
        b.2 + seq![q.buffer_gamma; 4],
        b.3 + tex,
        b.4 + quad_elements(b.0.len() as int, q.winding),
    )
}

/// The batch with the quads added in order.
pub open spec fn push_quads(b: BatchView, qs: Seq<Quad>) -> BatchView
    decreases qs.len(),
{
    if qs.len() == 0 {
        b
    } else {
        push_quad(push_quads(b, qs.drop_last()), qs.last())
    }
}

impl Batch {
    pub open spec fn view(self) -> BatchView {
        (self.vertices@, self.colors@, self.buffer_gamma@, self.texture_coords@, self.elements@)
    }

    /// The attribute arrays run in step, and the elements list whole quads of
    /// existing vertices.
    pub open spec fn wf(self) -> bool {
        &&& self.colors@.len() == self.vertices@.len()
        &&& self.buffer_gamma@.len() == self.vertices@.len()
        &&& self.texture_coords@.len() == self.vertices@.len()
        &&& self.vertices@.len() % 4 == 0
        &&& self.elements@.len() == self.vertices@.len() / 4 * 6
        &&& forall|i: int| 0 <= i < self.elements@.len() ==> (#[trigger] self.elements@[i]) < self.vertices@.len()
    }

    pub fn new() -> (b: Batch)
        ensures
            b.wf(),
            b.view() == (
                Seq::<Vertex>::empty(),
                Seq::<Color>::empty(),
                Seq::<BufferGamma>::empty(),
                Seq::<TexCoord>::empty(),
                Seq::<u32>::empty(),
            ),
    {
        Batch {
            vertices: Vec::new(),
            colors: Vec::new(),
            buffer_gamma: Vec::new(),
            texture_coords: Vec::new(),
            elements: Vec::new(),
        }
    }

    pub fn vertex_count(&self) -> (n: usize)
        ensures
            n == self.vertices@.len(),
    {
        self.vertices.len()
    }

    fn add_vertices_for_rect(&mut self, rect: &Rect<i64>, depth: Depth)
        requires
            au_in_range(rect.origin.x as int),
            au_in_range(rect.origin.y as int),
            au_in_range(rect.size.width as int),
            au_in_range(rect.size.height as int),
        ensures
            final(self).vertices@ == old(self).vertices@ + rect_vertices(*rect, depth),
            final(self).colors@ == old(self).colors@,
            final(self).buffer_gamma@ == old(self).buffer_gamma@,
            final(self).texture_coords@ == old(self).texture_coords@,
            final(self).elements@ == old(self).elements@,
    {
        let per_px = AU_PER_PX as i64;
        let (ox, oy) = (rect.origin.x / per_px, rect.origin.y / per_px);
        let (w, h) = (rect.size.width / per_px, rect.size.height / per_px);
        let x0 = 2 * ox;
        let y0 = 2 * oy;
        let x1 = 2 * (ox + w) - 1;
        let y1 = 2 * (oy + h) - 1;
        self.vertices.push(Vertex { x: x0, y: y0, depth });
        self.vertices.push(Vertex { x: x1, y: y0, depth });
        self.vertices.push(Vertex { x: x0, y: y1, depth });
        self.vertices.push(Vertex { x: x1, y: y1, depth });
        assert(self.vertices@ =~= old(self).vertices@ + rect_vertices(*rect, depth));
    }

    fn add_solid_colors(&mut self, count: usize, color: &Color)
        ensures
            final(self).colors@ == old(self).colors@ + Seq::new(count as nat, |i: int| *color),
            final(self).vertices@ == old(self).vertices@,
            final(self).buffer_gamma@ == old(self).buffer_gamma@,
            final(self).texture_coords@ == old(self).texture_coords@,
            final(self).elements@ == old(self).elements@,
    {
        let mut i: usize = 0;
        while i < count
            invariant
                i <= count,
                self.colors@ == old(self).colors@ + Seq::new(i as nat, |j: int| *color),
                self.vertices@ == old(self).vertices@,
                self.buffer_gamma@ == old(self).buffer_gamma@,
                self.texture_coords@ == old(self).texture_coords@,
                self.elements@ == old(self).elements@,
            decreases count - i,
        {
            self.colors.push(*color);
            i = i + 1;
            assert(self.colors@ =~= old(self).colors@ + Seq::new(i as nat, |j: int| *color));
        }
    }

    fn add_buffer_gamma(&mut self, count: usize, buffer: u8, gamma: u16)
        ensures
            final(self).buffer_gamma@ == old(self).buffer_gamma@ + Seq::new(
                count as nat,
                |i: int| BufferGamma { buffer, gamma },
            ),
            final(self).vertices@ == old(self).vertices@,
            final(self).colors@ == old(self).colors@,
            final(self).texture_coords@ == old(self).texture_coords@,
            final(self).elements@ == old(self).elements@,
    {
        let mut i: usize = 0;
        while i < count
            invariant
                i <= count,
                self.buffer_gamma@ == old(self).buffer_gamma@ + Seq::new(i as nat, |j: int| BufferGamma { buffer, gamma }),
                self.vertices@ == old(self).vertices@,
                self.colors@ == old(self).colors@,
                self.texture_coords@ == old(self).texture_coords@,
                self.elements@ == old(self).elements@,
            decreases count - i,
        {
            self.buffer_gamma.push(BufferGamma { buffer, gamma });
            i = i + 1;
            assert(self.buffer_gamma@ =~= old(self).buffer_gamma@ + Seq::new(
                i as nat,
                |j: int| BufferGamma { buffer, gamma },
            ));
        }
    }

    fn add_dummy_buffer_gamma(&mut self, count: usize)
        ensures
            final(self).buffer_gamma@ == old(self).buffer_gamma@ + Seq::new(count as nat, |i: int| dummy_buffer_gamma()),
            final(self).vertices@ == old(self).vertices@,
            final(self).colors@ == old(self).colors@,
            final(self).texture_coords@ == old(self).texture_coords@,
            final(self).elements@ == old(self).elements@,
    {
        self.add_buffer_gamma(count, 0, 0);
        assert(Seq::new(count as nat, |i: int| BufferGamma { buffer: 0, gamma: 0 }) =~= Seq::new(
            count as nat,
            |i: int| dummy_buffer_gamma(),
        ));
    }

    fn add_texture_coords_for_rect(&mut self, texture_rect: &Rect<i64>)
        requires
            au_in_range(texture_rect.origin.x as int),
            au_in_range(texture_rect.origin.y as int),
            au_in_range(texture_rect.size.width as int),
            au_in_range(texture_rect.size.height as int),
        ensures
            final(self).texture_coords@ == old(self).texture_coords@ + rect_tex_coords(*texture_rect),
            final(self).vertices@ == old(self).vertices@,
            final(self).colors@ == old(self).colors@,
            final(self).buffer_gamma@ == old(self).buffer_gamma@,
            final(self).elements@ == old(self).elements@,
    {
        let t = texture_rect;
        let u0 = 2 * t.origin.x + 1;
        let v0 = 2 * t.origin.y + 1;
        let u1 = 2 * (t.origin.x + t.size.width) - 1;
        let v1 = 2 * (t.origin.y + t.size.height) - 1;
        self.texture_coords.push(TexCoord { u: u0, v: v0 });
        self.texture_coords.push(TexCoord { u: u1, v: v0 });
        self.texture_coords.push(TexCoord { u: u0, v: v1 });
        self.texture_coords.push(TexCoord { u: u1, v: v1 });
        assert(self.texture_coords@ =~= old(self).texture_coords@ + rect_tex_coords(*texture_rect));
    }

    fn add_dummy_texture_coords(&mut self, count: usize)
        ensures
            final(self).texture_coords@ == old(self).texture_coords@ + Seq::new(
                count as nat,
                |i: int| TexCoord { u: 0, v: 0 },
            ),
            final(self).vertices@ == old(self).vertices@,
            final(self).colors@ == old(self).colors@,
            final(self).buffer_gamma@ == old(self).buffer_gamma@,
            final(self).elements@ == old(self).elements@,
    {
        let mut i: usize = 0;
        while i < count
            invariant
                i <= count,
                self.texture_coords@ == old(self).texture_coords@ + Seq::new(i as nat, |j: int| TexCoord { u: 0, v: 0 }),
                self.vertices@ == old(self).vertices@,
                self.colors@ == old(self).colors@,
                self.buffer_gamma@ == old(self).buffer_gamma@,
                self.elements@ == old(self).elements@,
            decreases count - i,
        {
            self.texture_coords.push(TexCoord { u: 0, v: 0 });
            i = i + 1;
            assert(self.texture_coords@ =~= old(self).texture_coords@ + Seq::new(
                i as nat,
                |j: int| TexCoord { u: 0, v: 0 },
            ));
        }
    }

    fn add_elements_for_wound_rect(&mut self, winding: Winding)
        requires
            4 <= old(self).vertices@.len() <= u32::MAX,
        ensures
            final(self).elements@ == old(self).elements@ + quad_elements(old(self).vertices@.len() - 4, winding),
            final(self).vertices@ == old(self).vertices@,
            final(self).colors@ == old(self).colors@,
            final(self).buffer_gamma@ == old(self).buffer_gamma@,
            final(self).texture_coords@ == old(self).texture_coords@,
    {
        let bottom_right = self.vertices.len() as u32 - 1;
        let bottom_left = bottom_right - 1;
        let top_right = bottom_left - 1;
        let top_left = top_right - 1;
        match winding {
            Winding::Clockwise => {
                self.elements.push(top_left);
                self.elements.push(top_right);
                self.elements.push(bottom_left);
                self.elements.push(bottom_left);
                self.elements.push(top_right);
                self.elements.push(bottom_right);
            },
            Winding::CounterClockwise => {
                self.elements.push(top_left);
                self.elements.push(bottom_left);
                self.elements.push(top_right);
                self.elements.push(top_right);
                self.elements.push(bottom_left);
                self.elements.push(bottom_right);
            },
        }
        assert(self.elements@ =~= old(self).elements@ + quad_elements(old(self).vertices@.len() - 4, winding));
    }

    /// Appends one quad: four vertices with their attributes, and six indices.
    pub fn add_quad(&mut self, quad: &Quad)
        requires
            old(self).wf(),
            old(self).vertices@.len() + 4 <= u32::MAX,
            quad_in_range(*quad),
        ensures
            final(self).wf(),
            final(self).view() == push_quad(old(self).view(), *quad),
    {
        self.add_vertices_for_rect(&quad.rect, quad.depth);
        self.add_solid_colors(4, &quad.color);
        self.add_buffer_gamma(4, quad.buffer_gamma.buffer, quad.buffer_gamma.gamma);
        match &quad.texture {
            Some(t) => self.add_texture_coords_for_rect(t),
            None => self.add_dummy_texture_coords(4),
        }
        self.add_elements_for_wound_rect(quad.winding);
        proof {
            assert(Seq::new(4, |i: int| quad.color) =~= seq![quad.color; 4]);
            assert(Seq::new(4, |i: int| quad.buffer_gamma) =~= seq![quad.buffer_gamma; 4]);
            assert(Seq::new(4, |i: int| TexCoord { u: 0, v: 0 }) =~= seq![TexCoord { u: 0, v: 0 }; 4]);
            let n = old(self).vertices@.len();
            assert(self.vertices@.len() == n + 4);
            assert forall|i: int| 0 <= i < self.elements@.len() implies (#[trigger] self.elements@[i]) < self.vertices@.len() by {
                if i < old(self).elements@.len() {
                    assert(self.elements@[i] == old(self).elements@[i]);
                }
            }
        }
    }
}

/// A rectangle in application units, widened.
pub open spec fn au_rect(r: Rect<Au>) -> Rect<i64> {
    Rect {
        origin: Point2D { x: r.origin.x.0 as i64, y: r.origin.y.0 as i64 },
        size: Size2D { width: r.size.width.0 as i64, height: r.size.height.0 as i64 },
    }
}

/// A rectangle of atlas texels, widened.
pub open spec fn widen(r: Rect<u32>) -> Rect<i64> {
    Rect {
        origin: Point2D { x: r.origin.x as i64, y: r.origin.y as i64 },
        size: Size2D { width: r.size.width as i64, height: r.size.height as i64 },
    }
}

/// The atlas region that asset `id` occupies.
pub open spec fn atlas_rect(assets: Seq<Asset>, id: AssetId) -> Rect<u32> {
    match assets[id.0 as int].rasterization_status {
        AssetRasterizationStatus::InAtlas(_, h) => h.location.rect,
        _ => Rect { origin: Point2D { x: 0, y: 0 }, size: Size2D { width: 0, height: 0 } },
    }
}

/// The `ARC_RADIUS` square at the bottom-right corner of an atlas region.
pub open spec fn arc_texture(r: Rect<i64>) -> Rect<i64> {
    Rect {
        origin: Point2D {
            x: (r.origin.x + r.size.width - ARC_RADIUS) as i64,
            y: (r.origin.y + r.size.height - ARC_RADIUS) as i64,
        },
        size: Size2D { width: ARC_RADIUS as i64, height: ARC_RADIUS as i64 },
    }
}

pub open spec fn au_sub_rect(x: int, y: int, w: int, h: int) -> Rect<i64> {
    Rect { origin: Point2D { x: x as i64, y: y as i64 }, size: Size2D { width: w as i64, height: h as i64 } }
}

/// The quad of a rectangle filled with one color.
pub open spec fn solid_color_quad(rect: Rect<Au>, color: Color) -> Quad {
    Quad {
        rect: au_rect(rect),
        depth: Depth::Near,
        color,
        buffer_gamma: dummy_buffer_gamma(),
        texture: None,
        winding: Winding::CounterClockwise,
    }
}

/// The quad of a glyph drawn from `texture`: the edge is drawn from the field, or,
/// for a blurred copy, the texels are taken as they are.
pub open spec fn text_quad(bounds: Rect<Au>, texture: Rect<u32>, blurred: bool) -> Quad {
    Quad {
        rect: au_rect(bounds),
        depth: Depth::Near,
        color: Color { r: 0, g: 0, b: 0, a: 0 },
        buffer_gamma: if blurred {
            dummy_buffer_gamma()
        } else {
            edge_buffer_gamma()
        },
        texture: Some(widen(texture)),
        winding: Winding::CounterClockwise,
    }
}

/// The five quads of a border's corner: the outer arc, the top edge, the band across
/// the middle, the left edge, and the inner arc, drawn from the arc fields at
/// `arc_rect` and `inverted_arc_rect`.
pub open spec fn border_quads(item: BorderDisplayItem, arc_rect: Rect<u32>, inverted_arc_rect: Rect<u32>) -> Seq<Quad> {
    let (x, y) = (item.base.bounds.origin.x.0 as int, item.base.bounds.origin.y.0 as int);
    let (w, r) = (item.width.0 as int, item.radius.0 as int);
    let solid = |rect: Rect<i64>|
        Quad {
            rect,
            depth: Depth::Near,
            color: item.color,
            buffer_gamma: dummy_buffer_gamma(),
            texture: None,
            winding: Winding::CounterClockwise,
        };
    let arc = |rect: Rect<i64>, texture: Rect<u32>|
        Quad {
            rect,
            depth: Depth::Near,
            color: Color { r: 0, g: 0, b: 0, a: 0 },
            buffer_gamma: edge_buffer_gamma(),
            texture: Some(arc_texture(widen(texture))),
            winding: Winding::CounterClockwise,
        };
    seq![
        arc(au_sub_rect(x, y, r, r), arc_rect),
        solid(au_sub_rect(x + r, y, w, r)),
        solid(au_sub_rect(x, y + r, w + r, w - r)),
        solid(au_sub_rect(x, y + w, w, r)),
        arc(au_sub_rect(x + w, y + w, r, r), inverted_arc_rect),
    ]
}

/// The quads that draw a display item, given where its assets lie in the atlas.
pub open spec fn item_quads(item: DisplayItem, assets: Seq<Asset>) -> Seq<Quad> {
    match item {
        DisplayItem::SolidColor(solid) => seq![solid_color_quad(solid.base.bounds, solid.color)],
        DisplayItem::Text(text) => match text.blurred_glyph_asset {
            None => seq![text_quad(text.base.bounds, atlas_rect(assets, text.glyph_asset), false)],
            Some(blurred) => seq![text_quad(text.base.bounds, atlas_rect(assets, blurred), true)],
        },
        DisplayItem::Border(border) => border_quads(
            *border,
            atlas_rect(assets, border.arc_asset),
            atlas_rect(assets, border.inverted_arc_asset),
        ),
    }
}

/// Every asset that the item is drawn from is in the atlas: the glyph, or its
/// blurred copy where it has one, or both arcs.
pub open spec fn item_ready(item: DisplayItem, assets: Seq<Asset>) -> bool {
    match item {
        DisplayItem::SolidColor(_) => true,
        DisplayItem::Text(text) => match text.blurred_glyph_asset {
            None => assets[text.glyph_asset.0 as int].rasterization_status is InAtlas,
            Some(blurred) => assets[blurred.0 as int].rasterization_status is InAtlas,
        },
        DisplayItem::Border(border) => {
            &&& assets[border.arc_asset.0 as int].rasterization_status is InAtlas
            &&& assets[border.inverted_arc_asset.0 as int].rasterization_status is InAtlas
        },
    }
}

/// Every asset that the item names exists.
pub open spec fn item_ids_valid(item: DisplayItem, n: nat) -> bool {
    forall|m: int| 0 <= m < item.spec_assets().len() ==> (#[trigger] item.spec_assets()[m]).0 < n
}

proof fn lemma_push_one_quad(b: BatchView, q: Quad)
    ensures
        push_quads(b, seq![q]) == push_quad(b, q),
{
    assert(seq![q].drop_last() =~= Seq::<Quad>::empty());
    assert(push_quads(b, Seq::<Quad>::empty()) == b);
}

proof fn lemma_push_quads_counts(b: BatchView, qs: Seq<Quad>)
    ensures
        push_quads(b, qs).0.len() == b.0.len() + 4 * qs.len(),
        push_quads(b, qs).4.len() == b.4.len() + 6 * qs.len(),
    decreases qs.len(),
{
    if qs.len() > 0 {
        lemma_push_quads_counts(b, qs.drop_last());
    }
}

/// A solid color or text item adds exactly four vertices and six indices to the
/// batch; a border adds twenty vertices and thirty indices.
pub proof fn lemma_item_emission_counts(b: BatchView, item: DisplayItem, assets: Seq<Asset>)
    ensures
        ({
            let after = push_quads(b, item_quads(item, assets));
            &&& (item is SolidColor || item is Text) ==> after.0.len() == b.0.len() + 4 && after.4.len() == b.4.len() + 6
            &&& item is Border ==> after.0.len() == b.0.len() + 20 && after.4.len() == b.4.len() + 30
        }),
{
    lemma_push_quads_counts(b, item_quads(item, assets));
}

/// Where asset `id` lies in the atlas.
fn atlas_rect_of(context: &Context, id: AssetId) -> (r: Rect<u32>)
    requires
        id.0 < context.asset_manager.assets@.len(),
        context.asset_manager.assets@[id.0 as int].rasterization_status is InAtlas,
    ensures
        r == atlas_rect(context.asset_manager.assets@, id),
{
    context.asset_manager.asset(id).get_atlas_handle().location.rect
}

fn au_rect_of(r: &Rect<Au>) -> (q: Rect<i64>)
    ensures
        q == au_rect(*r),
{
    Rect {
        origin: Point2D { x: r.origin.x.0 as i64, y: r.origin.y.0 as i64 },
        size: Size2D { width: r.size.width.0 as i64, height: r.size.height.0 as i64 },
    }
}

fn widen_of(r: &Rect<u32>) -> (q: Rect<i64>)
    ensures
        q == widen(*r),
{
    Rect {
        origin: Point2D { x: r.origin.x as i64, y: r.origin.y as i64 },
        size: Size2D { width: r.size.width as i64, height: r.size.height as i64 },
    }
}

fn arc_texture_of(r: &Rect<u32>) -> (t: Rect<i64>)
    ensures
        t == arc_texture(widen(*r)),
{
    let side = ARC_RADIUS as i64;
    Rect {
        origin: Point2D {
            x: r.origin.x as i64 + r.size.width as i64 - side,
            y: r.origin.y as i64 + r.size.height as i64 - side,
        },
        size: Size2D { width: side, height: side },
    }
}

fn sub_rect(x: i64, y: i64, w: i64, h: i64) -> (r: Rect<i64>)
    ensures
        r == au_sub_rect(x as int, y as int, w as int, h as int),
{
    Rect { origin: Point2D { x, y }, size: Size2D { width: w, height: h } }
}

fn border_quads_of(border: &BorderDisplayItem, arc_rect: &Rect<u32>, inverted_arc_rect: &Rect<u32>) -> (quads: Vec<Quad>)
    ensures
        quads@ == border_quads(*border, *arc_rect, *inverted_arc_rect),
        forall|i: int| 0 <= i < quads@.len() ==> quad_in_range(#[trigger] quads@[i]),
{
    let x = border.base.bounds.origin.x.0 as i64;
    let y = border.base.bounds.origin.y.0 as i64;
    let w = border.width.0 as i64;
    let r = border.radius.0 as i64;
    let solid = |rect: Rect<i64>| -> (q: Quad)
        ensures
            q == (Quad {
                rect,
                depth: Depth::Near,
                color: border.color,
                buffer_gamma: dummy_buffer_gamma(),
                texture: None,
                winding: Winding::CounterClockwise,
            }),
        {
            Quad {
                rect,
                depth: Depth::Near,
                color: border.color,
                buffer_gamma: BufferGamma { buffer: 0, gamma: 0 },
                texture: None,
                winding: Winding::CounterClockwise,
            }
        };
    let arc = |rect: Rect<i64>, texture: Rect<i64>| -> (q: Quad)
        ensures
            q == (Quad {
                rect,
                depth: Depth::Near,
                color: Color { r: 0, g: 0, b: 0, a: 0 },
                buffer_gamma: edge_buffer_gamma(),
                texture: Some(texture),
                winding: Winding::CounterClockwise,
            }),
        {
            Quad {
                rect,
                depth: Depth::Near,
                color: Color::transparent_black(),
                buffer_gamma: BufferGamma { buffer: BUFFER, gamma: GAMMA },
                texture: Some(texture),
                winding: Winding::CounterClockwise,
            }
        };
    let outer_corner = arc(sub_rect(x, y, r, r), arc_texture_of(arc_rect));
    let top_edge = solid(sub_rect(x + r, y, w, r));
    let center_band = solid(sub_rect(x, y + r, w + r, w - r));
    let left_edge = solid(sub_rect(x, y + w, w, r));
    let inner_corner = arc(sub_rect(x + w, y + w, r, r), arc_texture_of(inverted_arc_rect));
    let quads = vec![outer_corner, top_edge, center_band, left_edge, inner_corner];
    assert(quads@ =~= border_quads(*border, *arc_rect, *inverted_arc_rect));
    quads
}

impl Batch {
    /// The quad that clears the whole render target, far away.
    pub fn clear_clip(&mut self, context: &Context)
        requires
            old(self).wf(),
            old(self).vertices@.len() + 4 <= u32::MAX,
        ensures
            final(self).wf(),
            final(self).view() == push_quad(
                old(self).view(),
                Quad {
                    rect: au_sub_rect(
                        0,
                        0,
                        context.render_target_size.width * AU_PER_PX,
                        context.render_target_size.height * AU_PER_PX,
                    ),
                    depth: Depth::Far,
                    color: Color { r: 255, g: 255, b: 255, a: 255 },
                    buffer_gamma: dummy_buffer_gamma(),
                    texture: None,
                    winding: Winding::Clockwise,
                },
            ),
    {
        let per_px = AU_PER_PX as i64;
        let w = context.render_target_size.width as i64 * per_px;
        let h = context.render_target_size.height as i64 * per_px;
        let quad = Quad {
            rect: sub_rect(0, 0, w, h),
            depth: Depth::Far,
            color: Color::white(),
            buffer_gamma: BufferGamma { buffer: 0, gamma: 0 },
            texture: None,
            winding: Winding::Clockwise,
        };
        self.add_quad(&quad);
    }

    /// The quad that marks an item's clipping region.
    pub fn add_clip(&mut self, clipping_region: &ClippingRegion)
        requires
            old(self).wf(),
            old(self).vertices@.len() + 4 <= u32::MAX,
        ensures
            final(self).wf(),
            final(self).view() == push_quad(
                old(self).view(),
                Quad {
                    rect: au_rect(clipping_region.main),
                    depth: Depth::Near,
                    color: Color { r: 0, g: 255, b: 0, a: 0 },
                    buffer_gamma: dummy_buffer_gamma(),
                    texture: None,
                    winding: Winding::Clockwise,
                },
            ),
    {
        let quad = Quad {
            rect: au_rect_of(&clipping_region.main),
            depth: Depth::Near,
            color: Color::transparent_green(),
            buffer_gamma: BufferGamma { buffer: 0, gamma: 0 },
            texture: None,
            winding: Winding::Clockwise,
        };
        self.add_quad(&quad);
    }

    /// Appends the quads in order.
    pub fn add_quads(&mut self, quads: &Vec<Quad>)
        requires
            old(self).wf(),
            old(self).vertices@.len() + 4 * quads@.len() <= u32::MAX,
            forall|i: int| 0 <= i < quads@.len() ==> quad_in_range(#[trigger] quads@[i]),
        ensures
            final(self).wf(),
            final(self).view() == push_quads(old(self).view(), quads@),
    {
        let mut i: usize = 0;
        while i < quads.len()
            invariant
                i <= quads@.len(),
                self.wf(),
                self.view() == push_quads(old(self).view(), quads@.subrange(0, i as int)),
                self.vertices@.len() == old(self).vertices@.len() + 4 * i,
                old(self).vertices@.len() + 4 * quads@.len() <= u32::MAX,
                forall|j: int| 0 <= j < quads@.len() ==> quad_in_range(#[trigger] quads@[j]),
            decreases quads@.len() - i,
        {
            self.add_quad(&quads[i]);
            assert(quads@.subrange(0, i as int + 1).drop_last() =~= quads@.subrange(0, i as int));
            i = i + 1;
        }
        assert(quads@.subrange(0, quads@.len() as int) =~= quads@);
    }

    /// A rectangle filled with one color.
    pub fn add_solid_color_rect(&mut self, rect: &Rect<Au>, color: &Color)
        requires
            old(self).wf(),
            old(self).vertices@.len() + 4 <= u32::MAX,
        ensures
            final(self).wf(),
            final(self).view() == push_quad(old(self).view(), solid_color_quad(*rect, *color)),
    {
        let quad = Quad {
            rect: au_rect_of(rect),
            depth: Depth::Near,
            color: *color,
            buffer_gamma: BufferGamma { buffer: 0, gamma: 0 },
            texture: None,
            winding: Winding::CounterClockwise,
        };
        self.add_quad(&quad);
    }

    /// A glyph drawn from the atlas region `texture_rect`: from its field, with an
    /// anti-aliased edge, or, for a blurred copy, as its texels are.
    pub fn add_text(&mut self, bounds: &Rect<Au>, texture_rect: &Rect<u32>, blurred: bool)
        requires
            old(self).wf(),
            old(self).vertices@.len() + 4 <= u32::MAX,
        ensures
            final(self).wf(),
            final(self).view() == push_quad(old(self).view(), text_quad(*bounds, *texture_rect, blurred)),
    {
        let buffer_gamma = if blurred {
            BufferGamma { buffer: 0, gamma: 0 }
        } else {
            BufferGamma { buffer: BUFFER, gamma: GAMMA }
        };
        let quad = Quad {
            rect: au_rect_of(bounds),
            depth: Depth::Near,
            color: Color::transparent_black(),
            buffer_gamma,
            texture: Some(widen_of(texture_rect)),
            winding: Winding::CounterClockwise,
        };
        self.add_quad(&quad);
    }

    /// The rounded top-left corner of a border, in five quads, its arcs drawn from
    /// the fields at `arc_rect` and `inverted_arc_rect`.
    pub fn add_border(&mut self, border: &BorderDisplayItem, arc_rect: &Rect<u32>, inverted_arc_rect: &Rect<u32>)
        requires
            old(self).wf(),
            old(self).vertices@.len() + 20 <= u32::MAX,
        ensures
            final(self).wf(),
            final(self).view() == push_quads(old(self).view(), border_quads(*border, *arc_rect, *inverted_arc_rect)),
    {
        let quads = border_quads_of(border, arc_rect, inverted_arc_rect);
        self.add_quads(&quads);
    }
}

/// Collects display items into a batch.
pub struct Batcher {
    pub pending_batch: Batch,
}

impl Batcher {
    pub fn new() -> (b: Batcher)
        ensures
            b.pending_batch.wf(),
            b.pending_batch.view() == (
                Seq::<Vertex>::empty(),
                Seq::<Color>::empty(),
                Seq::<BufferGamma>::empty(),
                Seq::<TexCoord>::empty(),
                Seq::<u32>::empty(),
            ),
    {
        Batcher { pending_batch: Batch::new() }
    }

    /// Adds the quads that draw the item to the pending batch. The assets that the
    /// item is drawn from must already be in the atlas.
    pub fn add(&mut self, context: &Context, display_item: &DisplayItem)
        requires
            old(self).pending_batch.wf(),
            old(self).pending_batch.vertices@.len() + 20 <= u32::MAX,
            item_ids_valid(*display_item, context.asset_manager.assets@.len()),
            item_ready(*display_item, context.asset_manager.assets@),
        ensures
            final(self).pending_batch.wf(),
            final(self).pending_batch.view() == push_quads(
                old(self).pending_batch.view(),
                item_quads(*display_item, context.asset_manager.assets@),
            ),
    {
        match display_item {
            DisplayItem::SolidColor(solid) => {
                let ghost before = self.pending_batch.view();
                self.pending_batch.add_solid_color_rect(&solid.base.bounds, &solid.color);
                proof {
                    lemma_push_one_quad(before, solid_color_quad(solid.base.bounds, solid.color));
                }
            },
            DisplayItem::Text(text) => {
                proof {
                    assert(display_item.spec_assets()[0] == text.glyph_asset);
                    if let Some(b) = text.blurred_glyph_asset {
                        assert(display_item.spec_assets()[1] == b);
                    }
                }
                let (source, blurred) = match text.blurred_glyph_asset {
                    None => (text.glyph_asset, false),
                    Some(blurred_glyph_asset) => (blurred_glyph_asset, true),
                };
                let rect = atlas_rect_of(context, source);
                let ghost before = self.pending_batch.view();
                self.pending_batch.add_text(&text.base.bounds, &rect, blurred);
                proof {
                    lemma_push_one_quad(before, text_quad(text.base.bounds, rect, blurred));
                }
            },
            DisplayItem::Border(border) => {
                proof {
                    assert(display_item.spec_assets()[0] == border.arc_asset);
                    assert(display_item.spec_assets()[1] == border.inverted_arc_asset);
                }
                let arc_rect = atlas_rect_of(context, border.arc_asset);
                let inverted_arc_rect = atlas_rect_of(context, border.inverted_arc_asset);
                self.pending_batch.add_border(border, &arc_rect, &inverted_arc_rect);
            },
        }
    }

    /// The batches built: the pending one.
    pub fn finish(self) -> (r: Vec<Batch>)
        ensures
            r@.len() == 1,
            r@[0].view() == self.pending_batch.view(),
    {
        vec![self.pending_batch]
    }
}

} // verus!
