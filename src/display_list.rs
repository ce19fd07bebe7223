use vstd::prelude::*;
use crate::assets::AssetId;
use crate::geometry::Rect;

verus! {

/// Application units per device pixel.
pub const AU_PER_PX: i32 = 60;

/// A length in application units: sixtieths of a pixel.
#[derive(Clone, Copy, Debug, PartialEq, Eq, Structural)]
pub struct Au(pub i32);

/// Rust's division of integers, which rounds toward zero.
pub open spec fn trunc_div(a: int, b: int) -> int
    recommends
        b > 0,
{
    if a >= 0 {
        a / b
    } else {
        -((-a) / b)
    }
}

impl Au {
    pub fn from_px(pixels: i32) -> (r: Au)
        requires
            i32::MIN <= pixels * AU_PER_PX <= i32::MAX,
        ensures
            r.0 == pixels * AU_PER_PX,
    {
        Au(pixels * AU_PER_PX)
    }

    pub fn to_px(&self) -> (r: i32)
        ensures
            r == trunc_div(self.0 as int, AU_PER_PX as int),
    {
        self.0 / AU_PER_PX
    }
}

} // verus!

verus! {

/// An RGBA color with eight bits per channel.
#[derive(Clone, Copy, Debug, PartialEq, Eq, Structural)]
pub struct Color {
    pub r: u8,
    pub g: u8,
    pub b: u8,
    pub a: u8,
}

impl Color {
    pub fn new(r: u8, g: u8, b: u8, a: u8) -> (c: Color)
        ensures
            c.r == r,
            c.g == g,
            c.b == b,
            c.a == a,
    {
        Color { r, g, b, a }
    }

    /// Opaque black.
    pub fn black() -> (c: Color)
        ensures
            c == (Color { r: 0, g: 0, b: 0, a: 255 }),
    {
        Color { r: 0, g: 0, b: 0, a: 255 }
    }

    /// Fully transparent black. In a vertex it is the sentinel that takes the color
    /// from the sampled texel.
    pub fn transparent_black() -> (c: Color)
        ensures
            c == (Color { r: 0, g: 0, b: 0, a: 0 }),
    {
        Color { r: 0, g: 0, b: 0, a: 0 }
    }

    /// Transparent green, which the fragment stage never discards.
    pub fn transparent_green() -> (c: Color)
        ensures
            c == (Color { r: 0, g: 255, b: 0, a: 0 }),
    {
        Color { r: 0, g: 255, b: 0, a: 0 }
    }

    /// Transparent magenta.
    pub fn transparent_magenta() -> (c: Color)
        ensures
            c == (Color { r: 255, g: 0, b: 255, a: 0 }),
    {
        Color { r: 255, g: 0, b: 255, a: 0 }
    }

    /// Opaque white.
    pub fn white() -> (c: Color)
        ensures
            c == (Color { r: 255, g: 255, b: 255, a: 255 }),
    {
        Color { r: 255, g: 255, b: 255, a: 255 }
    }
}

/// Converting to whole pixels and back gives the value itself exactly when it is a
/// multiple of a pixel; otherwise it gives the nearest multiple of a pixel on the
/// side of zero.
pub proof fn lemma_px_round_trip(a: Au)
    ensures
        i32::MIN <= trunc_div(a.0 as int, AU_PER_PX as int) * AU_PER_PX <= i32::MAX,
        (trunc_div(a.0 as int, AU_PER_PX as int) * AU_PER_PX == a.0) <==> (a.0 % AU_PER_PX == 0),
        a.0 >= 0 ==> 0 <= a.0 - trunc_div(a.0 as int, AU_PER_PX as int) * AU_PER_PX < AU_PER_PX,
        a.0 < 0 ==> 0 <= trunc_div(a.0 as int, AU_PER_PX as int) * AU_PER_PX - a.0 < AU_PER_PX,
{
}

} // verus!

verus! {

/// The region that an item is clipped to.
#[derive(Clone, Copy, Debug, PartialEq, Eq, Structural)]
pub struct ClippingRegion {
    pub main: Rect<Au>,
}

/// What every display item has: where it is drawn and what it is clipped to.
#[derive(Clone, Copy, Debug, PartialEq, Eq, Structural)]
pub struct BaseDisplayItem {
    pub bounds: Rect<Au>,
    pub clip: ClippingRegion,
}

/// A rectangle filled with one color.
#[derive(Clone, Copy, Debug, PartialEq, Eq, Structural)]
pub struct SolidColorDisplayItem {
    pub base: BaseDisplayItem,
    pub color: Color,
}

/// One glyph, drawn from its field, or from the field of a blurred copy.
#[derive(Clone, Copy, Debug, PartialEq, Eq, Structural)]
pub struct TextDisplayItem {
    pub base: BaseDisplayItem,
    pub glyph_asset: AssetId,
    pub blurred_glyph_asset: Option<AssetId>,
}

/// The rounded top-left corner of a border.
#[derive(Clone, Copy, Debug, PartialEq, Eq, Structural)]
pub struct BorderDisplayItem {
    pub base: BaseDisplayItem,
    pub width: Au,
    pub color: Color,
    pub radius: Au,
    pub arc_asset: AssetId,
    pub inverted_arc_asset: AssetId,
}

#[derive(Clone, Debug)]
pub enum DisplayItem {
    SolidColor(Box<SolidColorDisplayItem>),
    Text(Box<TextDisplayItem>),
    Border(Box<BorderDisplayItem>),
}

impl DisplayItem {
    pub open spec fn spec_base(self) -> BaseDisplayItem {
        match self {
            DisplayItem::SolidColor(item) => item.base,
            DisplayItem::Text(item) => item.base,
            DisplayItem::Border(item) => item.base,
        }
    }

    /// The assets that the item is drawn from, in the order they are needed: a
    /// glyph before its blurred copy.
    pub open spec fn spec_assets(self) -> Seq<AssetId> {
        match self {
            DisplayItem::SolidColor(_) => seq![],
            DisplayItem::Text(item) => match item.blurred_glyph_asset {
                Some(blurred) => seq![item.glyph_asset, blurred],
                None => seq![item.glyph_asset],
            },
            DisplayItem::Border(item) => seq![item.arc_asset, item.inverted_arc_asset],
        }
    }

    pub fn base(&self) -> (r: &BaseDisplayItem)
        ensures
            *r == self.spec_base(),
    {
        match self {
            DisplayItem::SolidColor(item) => &item.base,
            DisplayItem::Text(item) => &item.base,
            DisplayItem::Border(item) => &item.base,
        }
    }

    /// The assets that the item is drawn from, in the order they are needed.
    pub fn assets(&self) -> (r: Vec<AssetId>)
        ensures
            r@ == self.spec_assets(),
    {
        match self {
            DisplayItem::SolidColor(_) => Vec::new(),
            DisplayItem::Text(item) => match item.blurred_glyph_asset {
                Some(blurred) => vec![item.glyph_asset, blurred],
                None => vec![item.glyph_asset],
            },
            DisplayItem::Border(item) => vec![item.arc_asset, item.inverted_arc_asset],
        }
    }
}

/// Items in painting order: later items are drawn over earlier ones.
#[derive(Clone, Debug)]
pub struct DisplayList {
    pub items: Vec<DisplayItem>,
}

} // verus!
