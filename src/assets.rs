//! Assets, their descriptions, and the state machine that carries each one from
//! pending, through a worker's rasterization, into the atlas.

use vstd::prelude::*;
use crate::atlas::{atlas_bounds, lemma_allocated_within, Atlas, AtlasHandle, AtlasLocation, Priority};
use crate::blur::{blur_distance_field_with_table, blurred_value};
use crate::display_list::{DisplayItem, DisplayList};
use crate::distance_field::{
    arc_field_texel, build_distance_field_for_filled_arc, build_distance_field_for_glyph,
    build_distance_field_for_inverted_filled_arc, glyph_field_texel, texel,
};
use crate::geometry::{contains_rect, disjoint, Rect, Size2D};

verus! {

/// Side of the quarter-circle field that an arc asset rasterizes to, in texels.
pub const ARC_RADIUS: u32 = 64;

/// Pixel size that glyphs are rendered at before they are turned into fields.
pub const FONT_SIZE_FOR_RASTERIZATION: i32 = 1024;

/// Side of the distance field that a glyph of the full rendering size maps to.
pub const DISTANCE_FIELD_SIZE: u32 = 96;

/// Names an asset within the asset manager that created it.
#[derive(Clone, Copy, Debug, PartialEq, Eq, Structural)]
pub struct AssetId(pub usize);

/// One character of one font file.
#[derive(Clone, Debug)]
pub struct Glyph {
    pub font_path: String,
    pub character: char,
}

impl Glyph {
    pub fn new(font_path: String, character: char) -> (g: Glyph)
        ensures
            g.font_path@ == font_path@,
            g.character == character,
    {
        Glyph { font_path, character }
    }

    /// The size of a rendered glyph: its bitmap's width, and its height measured
    /// from the bitmap's top to the bottom of the rendering size.
    pub open spec fn spec_glyph_size(bitmap_width: u32, bitmap_top: i32) -> Size2D<u32> {
        Size2D { width: bitmap_width, height: (FONT_SIZE_FOR_RASTERIZATION - bitmap_top) as u32 }
    }

    /// The glyph's size once scaled down by `DISTANCE_FIELD_SIZE / FONT_SIZE_FOR_RASTERIZATION`.
    pub open spec fn spec_size_in_field(glyph_size: Size2D<u32>) -> Size2D<u32> {
        Size2D {
            width: (glyph_size.width * DISTANCE_FIELD_SIZE / FONT_SIZE_FOR_RASTERIZATION as int) as u32,
            height: (glyph_size.height * DISTANCE_FIELD_SIZE / FONT_SIZE_FOR_RASTERIZATION as int) as u32,
        }
    }

    /// The field's size: the scaled glyph with half as much again for a margin.
    pub open spec fn spec_field_size(size_in_field: Size2D<u32>) -> Size2D<u32> {
        Size2D {
            width: (size_in_field.width + size_in_field.width / 2) as u32,
            height: (size_in_field.height + size_in_field.height / 2) as u32,
        }
    }

    /// Turns the glyph's bitmap, as rendered at `FONT_SIZE_FOR_RASTERIZATION` pixels
    /// (one byte a pixel, `bitmap_width` pixels a row, its top `bitmap_top` pixels
    /// above the baseline), into its distance field.
    pub fn rasterize(&self, buffer: &Vec<u8>, bitmap_width: u32, bitmap_top: i32) -> (r: AssetRasterization)
        requires
            bitmap_top <= FONT_SIZE_FOR_RASTERIZATION,
            buffer@.len() >= Self::spec_glyph_size(bitmap_width, bitmap_top).width * Self::spec_glyph_size(
                bitmap_width,
                bitmap_top,
            ).height,
            ({
                let field = Self::spec_field_size(Self::spec_size_in_field(Self::spec_glyph_size(bitmap_width, bitmap_top)));
                field.width * field.height * 4 <= usize::MAX
            }),
        ensures
            ({
                let glyph_size = Self::spec_glyph_size(bitmap_width, bitmap_top);
                let size_in_field = Self::spec_size_in_field(glyph_size);
                let field = Self::spec_field_size(size_in_field);
                &&& r.wf()
                &&& r.size == field
                &&& r.data@.len() == field.width * field.height * 4
                &&& forall|x: int, y: int|
                    0 <= x < field.width && 0 <= y < field.height ==> #[trigger] texel(r.data@, field.width as int, x, y)
                        == glyph_field_texel(buffer@, glyph_size, size_in_field, field, x, y)
            }),
    {
        let glyph_height = (FONT_SIZE_FOR_RASTERIZATION as i64 - bitmap_top as i64) as u32;
        let glyph_size = Size2D { width: bitmap_width, height: glyph_height };
        let scale = DISTANCE_FIELD_SIZE as u64;
        let full = FONT_SIZE_FOR_RASTERIZATION as u64;
        let size_in_field = Size2D {
            width: ((bitmap_width as u64) * scale / full) as u32,
            height: ((glyph_height as u64) * scale / full) as u32,
        };
        let field_size = Size2D {
            width: size_in_field.width + size_in_field.width / 2,
            height: size_in_field.height + size_in_field.height / 2,
        };
        assert(field_size.width * field_size.height > 0 ==> size_in_field.width > 0) by (nonlinear_arith)
            requires
                field_size.width == size_in_field.width + size_in_field.width / 2,
        ;
        let data = build_distance_field_for_glyph(buffer, &glyph_size, &size_in_field, &field_size);
        AssetRasterization { data, size: field_size }
    }
}

/// A blurred copy of a glyph's field. `sigma_hundredths` is the standard deviation
/// of the blur, in hundredths of a texel of the field.
#[derive(Clone, Copy, Debug, PartialEq, Eq, Structural)]
pub struct BlurredGlyph {
    pub sigma_hundredths: u32,
}

impl BlurredGlyph {
    pub fn new(sigma_hundredths: u32) -> (b: BlurredGlyph)
        ensures
            b.sigma_hundredths == sigma_hundredths,
    {
        BlurredGlyph { sigma_hundredths }
    }

    /// The kernel reaches three standard deviations to either side, rounded up to a
    /// whole texel.
    pub open spec fn spec_blur_radius(self) -> int {
        (3 * self.sigma_hundredths + 99) / 100
    }

    /// How many texels the blur kernel reaches to either side.
    pub fn blur_radius(&self) -> (r: u32)
        ensures
            r == self.spec_blur_radius(),
    {
        ((3 * (self.sigma_hundredths as u64) + 99) / 100) as u32
    }

    /// Blurs the field of the glyph it is derived from. `table` holds the running
    /// integral of the Gaussian kernel, scaled to a byte, one entry per pixel of
    /// distance from `-blur_radius` to `blur_radius`.
    pub fn rasterize(&self, dependency: &AssetRasterization, table: &Vec<u8>) -> (r: AssetRasterization)
        requires
            dependency.wf(),
            dependency.size.width * dependency.size.height * 4 <= usize::MAX,
            table@.len() == 2 * self.spec_blur_radius() + 1,
        ensures
            r.wf(),
            r.size == dependency.size,
            r.data@.len() == r.size.width * r.size.height * 4,
            forall|i: int, c: int|
                0 <= i < r.size.width * r.size.height && 0 <= c < 4 ==> #[trigger] r.data@[4 * i + c] == blurred_value(
                    dependency.data@[4 * i + 3] as int,
                    self.spec_blur_radius(),
                    table@,
                ),
    {
        let radius = self.blur_radius();
        let data = blur_distance_field_with_table(&dependency.data, &dependency.size, radius, table);
        AssetRasterization { data, size: dependency.size }
    }
}

/// Which side of the quarter circle is inside.
#[derive(Clone, Copy, Debug, PartialEq, Eq, Structural)]
pub enum ArcMode {
    FilledArc,
    InvertedFilledArc,
}

/// A quarter circle of radius `ARC_RADIUS`, for the rounded corners of borders.
#[derive(Clone, Copy, Debug, PartialEq, Eq, Structural)]
pub struct ArcAsset {
    pub mode: ArcMode,
}

impl ArcAsset {
    /// The arc's field: a quarter disc of radius `ARC_RADIUS` in a square of that side.
    pub fn rasterize(&self) -> (r: AssetRasterization)
        ensures
            r.wf(),
            r.size == (Size2D { width: ARC_RADIUS, height: ARC_RADIUS }),
            r.data@.len() == ARC_RADIUS * ARC_RADIUS * 4,
            forall|x: int, y: int|
                0 <= x < ARC_RADIUS && 0 <= y < ARC_RADIUS ==> #[trigger] texel(r.data@, ARC_RADIUS as int, x, y)
                    == arc_field_texel(ARC_RADIUS as int, ARC_RADIUS as int, self.mode == ArcMode::InvertedFilledArc, x, y),
    {
        let data = match self.mode {
            ArcMode::FilledArc => build_distance_field_for_filled_arc(ARC_RADIUS, ARC_RADIUS),
            ArcMode::InvertedFilledArc => build_distance_field_for_inverted_filled_arc(ARC_RADIUS, ARC_RADIUS),
        };
        AssetRasterization { data, size: Size2D { width: ARC_RADIUS, height: ARC_RADIUS } }
    }
}

/// What an asset is a rasterization of.
#[derive(Clone, Debug)]
pub enum AssetDescription {
    Glyph(Glyph),
    BlurredGlyph(BlurredGlyph),
    Arc(ArcAsset),
}

/// An RGBA image, four bytes a texel, row by row.
#[derive(Clone, Debug)]
pub struct AssetRasterization {
    pub data: Vec<u8>,
    pub size: Size2D<u32>,
}

impl AssetRasterization {
    /// The data holds every texel of the image.
    pub open spec fn wf(self) -> bool {
        self.data@.len() >= self.size.width * self.size.height * 4
    }

    /// A copy that owns its own data.
    pub fn duplicate(&self) -> (r: AssetRasterization)
        ensures
            r.data@ == self.data@,
            r.size == self.size,
    {
        let mut data: Vec<u8> = Vec::with_capacity(self.data.len());
        let mut i: usize = 0;
        while i < self.data.len()
            invariant
                i <= self.data@.len(),
                data@ == self.data@.subrange(0, i as int),
            decreases self.data@.len() - i,
        {
            data.push(self.data[i]);
            i = i + 1;
        }
        assert(data@ =~= self.data@);
        AssetRasterization { data, size: self.size }
    }
}

/// Where an asset stands on its way into the atlas.
#[derive(Debug)]
pub enum AssetRasterizationStatus {
    /// Nothing has been done yet.
    Pending,
    /// The asset it is derived from is still being rasterized.
    WaitingForDependency,
    /// A worker is rasterizing it; its result has not been received.
    Waiting,
    /// Its rasterization has been received.
    InMemory(AssetRasterization),
    /// Its rasterization has been placed in the atlas.
    InAtlas(AssetRasterization, AtlasHandle),
}

/// Why an operation on an asset was refused.
#[derive(Clone, Copy, Debug, PartialEq, Eq, Structural)]
pub enum AssetError {
    /// The operation is not allowed in the asset's present state.
    InvalidStateTransition,
    /// The asset is being rasterized and its result has not been received yet.
    NotYetReceived,
    /// The atlas has no free region large enough.
    AtlasOutOfSpace,
}

/// An asset: what it depicts, what it is derived from, and how far it has come.
#[derive(Debug)]
pub struct Asset {
    pub description: AssetDescription,
    pub derived_from: Option<AssetId>,
    pub rasterization_status: AssetRasterizationStatus,
}

impl Asset {
    /// A rasterization that the asset holds is complete.
    pub open spec fn wf(self) -> bool {
        match self.rasterization_status {
            AssetRasterizationStatus::InMemory(r) => r.wf(),
            AssetRasterizationStatus::InAtlas(r, _) => r.wf(),
            _ => true,
        }
    }

    /// The rasterization that the asset holds, if it holds one.
    pub open spec fn held_rasterization(self) -> Option<AssetRasterization> {
        match self.rasterization_status {
            AssetRasterizationStatus::InMemory(r) => Some(r),
            AssetRasterizationStatus::InAtlas(r, _) => Some(r),
            _ => None,
        }
    }

    /// The asset with another status.
    pub open spec fn with_status(self, status: AssetRasterizationStatus) -> Asset {
        Asset { rasterization_status: status, ..self }
    }

    pub fn is_pending_or_waiting_for_dependency(&self) -> (r: bool)
        ensures
            r == (self.rasterization_status is Pending || self.rasterization_status is WaitingForDependency),
    {
        match self.rasterization_status {
            AssetRasterizationStatus::Pending | AssetRasterizationStatus::WaitingForDependency => true,
            _ => false,
        }
    }

    pub fn is_in_atlas(&self) -> (r: bool)
        ensures
            r == self.rasterization_status is InAtlas,
    {
        match self.rasterization_status {
            AssetRasterizationStatus::InAtlas(..) => true,
            _ => false,
        }
    }

    /// The asset's rasterization, once it has been received. Asking for the
    /// rasterization of an asset that has not been scheduled, or that waits for its
    /// dependency, is a caller's error and is refused.
    pub fn get_rasterization(&self) -> (r: Result<&AssetRasterization, AssetError>)
        requires
            !(self.rasterization_status is Pending),
            !(self.rasterization_status is WaitingForDependency),
        ensures
            match r {
                Ok(raster) => self.held_rasterization() == Some(*raster),
                Err(e) => self.rasterization_status is Waiting && e == AssetError::NotYetReceived,
            },
            (r is Err) == (self.rasterization_status is Waiting),
    {
        match &self.rasterization_status {
            AssetRasterizationStatus::InMemory(r) => Ok(r),
            AssetRasterizationStatus::InAtlas(r, _) => Ok(r),
            _ => Err(AssetError::NotYetReceived),
        }
    }

    /// Takes the result of the worker that rasterized the asset.
    pub fn receive_rasterization(&mut self, rasterization: AssetRasterization)
        requires
            old(self).rasterization_status is Waiting,
        ensures
            *final(self) == old(self).with_status(AssetRasterizationStatus::InMemory(rasterization)),
    {
        self.rasterization_status = AssetRasterizationStatus::InMemory(rasterization);
    }

    /// Records where the asset's rasterization lies in the atlas, replacing any
    /// earlier place. Only an asset that holds its rasterization has one.
    pub fn set_atlas_handle(&mut self, handle: AtlasHandle)
        requires
            old(self).held_rasterization() is Some,
        ensures
            *final(self) == old(self).with_status(
                AssetRasterizationStatus::InAtlas(old(self).held_rasterization().unwrap(), handle),
            ),
    {
        let mut status = AssetRasterizationStatus::Pending;
        std::mem::swap(&mut self.rasterization_status, &mut status);
        match status {
            AssetRasterizationStatus::InMemory(r) | AssetRasterizationStatus::InAtlas(r, _) => {
                self.rasterization_status = AssetRasterizationStatus::InAtlas(r, handle);
            },
            _ => unreached(),
        }
    }

    /// Where the asset lies in the atlas. Only an asset in the atlas has a place there.
    pub fn get_atlas_handle(&self) -> (h: AtlasHandle)
        requires
            self.rasterization_status is InAtlas,
        ensures
            self.rasterization_status matches AssetRasterizationStatus::InAtlas(_, h0) && h == h0,
    {
        match &self.rasterization_status {
            AssetRasterizationStatus::InAtlas(_, handle) => *handle,
            _ => unreached(),
        }
    }
}

} // verus!

verus! {

/// Two optional rasterizations hold the same image.
pub open spec fn same_rasterization(a: Option<AssetRasterization>, b: Option<AssetRasterization>) -> bool {
    match (a, b) {
        (Some(x), Some(y)) => x.data@ == y.data@ && x.size == y.size,
        (None, None) => true,
        _ => false,
    }
}

/// Work for a worker: rasterize `asset` from its description, and from `input`, the
/// rasterization of the asset it is derived from, where it has one.
#[derive(Debug)]
pub struct RasterizationJob {
    pub asset: AssetId,
    pub input: Option<AssetRasterization>,
}

/// Asset `i` is well linked: only a blurred glyph is derived, from an earlier glyph;
/// an asset derived from nothing never waits for a dependency; and a rasterization
/// that it holds is complete.
pub open spec fn asset_links_ok(assets: Seq<Asset>, i: int) -> bool {
    let a = assets[i];
    &&& a.wf()
    &&& match a.derived_from {
        Some(d) => {
            &&& 0 <= d.0 < i
            &&& a.description is BlurredGlyph
            &&& assets[d.0 as int].description is Glyph
        },
        None => {
            &&& !(a.description is BlurredGlyph)
            &&& !(a.rasterization_status is WaitingForDependency)
        },
    }
}

/// The atlas region that an asset holds, where it is in the atlas.
pub open spec fn held_region(a: Asset) -> Option<Rect<u32>> {
    match a.rasterization_status {
        AssetRasterizationStatus::InAtlas(_, h) => Some(h.location.rect),
        _ => None,
    }
}

/// Every region that an asset holds was handed out by the atlas, and no two assets
/// hold overlapping regions.
pub open spec fn live_regions_ok(assets: Seq<Asset>, allocated: Set<Rect<u32>>) -> bool {
    &&& forall|i: int| 0 <= i < assets.len() && (#[trigger] held_region(assets[i])) is Some ==> allocated.contains(
        held_region(assets[i]).unwrap(),
    )
    &&& forall|i: int, j: int|
        0 <= i < assets.len() && 0 <= j < assets.len() && i != j && (#[trigger] held_region(assets[i])) is Some
            && (#[trigger] held_region(assets[j])) is Some ==> disjoint(
            held_region(assets[i]).unwrap(),
            held_region(assets[j]).unwrap(),
        )
}

/// Any two assets that are in the atlas at the same time hold regions that lie
/// inside the atlas texture and do not overlap.
pub proof fn lemma_live_handles_disjoint(manager: AssetManager, i: int, j: int)
    requires
        manager.wf(),
        0 <= i < manager.assets@.len(),
        0 <= j < manager.assets@.len(),
        i != j,
        manager.assets@[i].rasterization_status is InAtlas,
        manager.assets@[j].rasterization_status is InAtlas,
    ensures
        disjoint(held_region(manager.assets@[i]).unwrap(), held_region(manager.assets@[j]).unwrap()),
        contains_rect(atlas_bounds(), held_region(manager.assets@[i]).unwrap()),
{
    assert(held_region(manager.assets@[i]) is Some);
    assert(held_region(manager.assets@[j]) is Some);
    lemma_allocated_within(manager.atlas.root_bin);
    assert(manager.atlas.root_bin.allocated().contains(held_region(manager.assets@[i]).unwrap()));
}

/// Asset `i` is still to be scheduled.
pub open spec fn needs_scheduling(assets: Seq<Asset>, i: int) -> bool {
    assets[i].rasterization_status is Pending || assets[i].rasterization_status is WaitingForDependency
}

/// Scheduling asset `i` is refused: the asset it derives from has not been scheduled.
pub open spec fn scheduling_fails(assets: Seq<Asset>, i: int) -> bool {
    &&& needs_scheduling(assets, i)
    &&& assets[i].derived_from matches Some(d) && assets[d.0 as int].rasterization_status is Pending
}

/// Scheduling asset `i` starts a job: it depends on nothing, or on an asset whose
/// rasterization is at hand.
pub open spec fn scheduling_submits(assets: Seq<Asset>, i: int) -> bool {
    &&& needs_scheduling(assets, i)
    &&& match assets[i].derived_from {
        None => true,
        Some(d) => assets[d.0 as int].held_rasterization().is_some(),
    }
}

/// The input of the job that scheduling asset `i` starts.
pub open spec fn scheduling_input(assets: Seq<Asset>, i: int) -> Option<AssetRasterization> {
    match assets[i].derived_from {
        None => None,
        Some(d) => assets[d.0 as int].held_rasterization(),
    }
}

/// The assets after scheduling asset `i`.
pub open spec fn schedule_one(assets: Seq<Asset>, i: int) -> Seq<Asset> {
    assets.update(i, assets[i].with_status(status_after_scheduling(assets, i)))
}

/// The status of asset `i` after scheduling it.
pub open spec fn status_after_scheduling(assets: Seq<Asset>, i: int) -> AssetRasterizationStatus {
    if scheduling_submits(assets, i) {
        AssetRasterizationStatus::Waiting
    } else if needs_scheduling(assets, i) && (assets[i].derived_from matches Some(d)
        && assets[d.0 as int].rasterization_status is Waiting) {
        AssetRasterizationStatus::WaitingForDependency
    } else {
        assets[i].rasterization_status
    }
}

/// The two managers hold the same assets and the same atlas.
pub open spec fn same_state(a: AssetManager, b: AssetManager) -> bool {
    a.assets@ == b.assets@ && a.atlas == b.atlas
}

/// What the caller of `AssetManager::prepare_asset` is to do next.
#[derive(Debug)]
pub enum PreparationStep {
    /// Nothing: the asset is in the atlas.
    Ready,
    /// Hand the job to a worker.
    Submit(RasterizationJob),
    /// Wait for the result of the job that rasterizes this asset, then pass it to
    /// `AssetManager::receive_rasterization`.
    Await(AssetId),
    /// Upload the asset's rasterization into the atlas texture at this location.
    Upload(AtlasLocation),
}

/// Creates assets and schedules their rasterization, and owns the atlas that they
/// are placed in. Assets live in one arena and name each other by index.
pub struct AssetManager {
    pub assets: Vec<Asset>,
    pub atlas: Atlas,
}

impl AssetManager {
    pub open spec fn wf(self) -> bool {
        &&& self.atlas.wf()
        &&& forall|i: int| 0 <= i < self.assets@.len() ==> #[trigger] asset_links_ok(self.assets@, i)
        &&& live_regions_ok(self.assets@, self.atlas.root_bin.allocated())
    }

    pub fn new(atlas: Atlas) -> (m: AssetManager)
        requires
            atlas.wf(),
        ensures
            m.wf(),
            m.assets@ == Seq::<Asset>::empty(),
            m.atlas == atlas,
    {
        AssetManager { assets: Vec::new(), atlas }
    }

    /// Adds a pending asset. Only a blurred glyph is derived, and from a glyph.
    pub fn create_asset(&mut self, description: AssetDescription, derived_from: Option<AssetId>) -> (id: AssetId)
        requires
            old(self).wf(),
            match derived_from {
                Some(d) => {
                    &&& d.0 < old(self).assets@.len()
                    &&& description is BlurredGlyph
                    &&& old(self).assets@[d.0 as int].description is Glyph
                },
                None => !(description is BlurredGlyph),
            },
        ensures
            final(self).wf(),
            id.0 == old(self).assets@.len(),
            final(self).assets@ == old(self).assets@.push(
                Asset { description, derived_from, rasterization_status: AssetRasterizationStatus::Pending },
            ),
            final(self).atlas == old(self).atlas,
    {
        let id = AssetId(self.assets.len());
        self.assets.push(Asset { description, derived_from, rasterization_status: AssetRasterizationStatus::Pending });
        proof {
            assert forall|i: int| 0 <= i < self.assets@.len() implies #[trigger] asset_links_ok(self.assets@, i) by {
                if i < old(self).assets@.len() {
                    assert(asset_links_ok(old(self).assets@, i));
                }
            }
        }
        id
    }

    /// The asset named `id`.
    pub fn asset(&self, id: AssetId) -> (a: &Asset)
        requires
            id.0 < self.assets@.len(),
        ensures
            *a == self.assets@[id.0 as int],
    {
        &self.assets[id.0]
    }

    /// Whether scheduling asset `id` now would be refused: it is still to be
    /// scheduled, and the asset it derives from has not been scheduled.
    pub fn scheduling_would_fail(&self, id: AssetId) -> (r: bool)
        requires
            self.wf(),
            id.0 < self.assets@.len(),
        ensures
            r == scheduling_fails(self.assets@, id.0 as int),
    {
        proof {
            assert(asset_links_ok(self.assets@, id.0 as int));
        }
        if !self.assets[id.0].is_pending_or_waiting_for_dependency() {
            return false;
        }
        match self.assets[id.0].derived_from {
            None => false,
            Some(d) => match self.assets[d.0].rasterization_status {
                AssetRasterizationStatus::Pending => true,
                _ => false,
            },
        }
    }

    /// Starts rasterizing the asset where it is still to be scheduled, and returns the
    /// job that a worker is to run. An asset derived from one whose rasterization is
    /// still under way waits for it instead. Scheduling an asset whose dependency has
    /// not been scheduled is a caller's error and is refused.
    pub fn start_rasterizing_asset_if_necessary(&mut self, id: AssetId) -> (r: Option<RasterizationJob>)
        requires
            old(self).wf(),
            id.0 < old(self).assets@.len(),
            !scheduling_fails(old(self).assets@, id.0 as int),
        ensures
            final(self).wf(),
            final(self).atlas == old(self).atlas,
            final(self).assets@ == schedule_one(old(self).assets@, id.0 as int),
            r is Some == scheduling_submits(old(self).assets@, id.0 as int),
            r matches Some(job) ==> {
                &&& job.asset == id
                &&& same_rasterization(job.input, scheduling_input(old(self).assets@, id.0 as int))
            },
    {
        let i = id.0;
        let ghost old_assets = self.assets@;
        proof {
            assert(asset_links_ok(old_assets, i as int));
        }
        if !self.assets[i].is_pending_or_waiting_for_dependency() {
            proof {
                assert(old_assets =~= schedule_one(old_assets, i as int));
            }
            return None;
        }
        let new_status_and_input: (AssetRasterizationStatus, Option<Option<AssetRasterization>>) =
            match self.assets[i].derived_from {
                None => (AssetRasterizationStatus::Waiting, Some(None)),
                Some(d) => {
                    proof {
                        assert(asset_links_ok(old_assets, d.0 as int));
                    }
                    match &self.assets[d.0].rasterization_status {
                        AssetRasterizationStatus::Waiting => (AssetRasterizationStatus::WaitingForDependency, None),
                        AssetRasterizationStatus::InMemory(raster) | AssetRasterizationStatus::InAtlas(raster, _) => {
                            (AssetRasterizationStatus::Waiting, Some(Some(raster.duplicate())))
                        },
                        _ => unreached(),
                    }
                },
            };
        let (status, input) = new_status_and_input;
        self.assets[i].rasterization_status = status;
        proof {
            assert(self.assets@ =~= schedule_one(old_assets, i as int));
            assert forall|j: int| 0 <= j < self.assets@.len() implies #[trigger] asset_links_ok(self.assets@, j) by {
                assert(asset_links_ok(old_assets, j));
                if let Some(d) = old_assets[j].derived_from {
                    assert(old_assets[d.0 as int].description == self.assets@[d.0 as int].description);
                }
            }
        }
        match input {
            Some(input) => Some(RasterizationJob { asset: id, input }),
            None => None,
        }
    }

    /// Hands the asset the result of the worker that rasterized it.
    pub fn receive_rasterization(&mut self, id: AssetId, rasterization: AssetRasterization)
        requires
            old(self).wf(),
            id.0 < old(self).assets@.len(),
            old(self).assets@[id.0 as int].rasterization_status is Waiting,
            rasterization.wf(),
        ensures
            final(self).wf(),
            final(self).atlas == old(self).atlas,
            final(self).assets@ == old(self).assets@.update(
                id.0 as int,
                old(self).assets@[id.0 as int].with_status(AssetRasterizationStatus::InMemory(rasterization)),
            ),
    {
        let ghost old_assets = self.assets@;
        self.assets[id.0].receive_rasterization(rasterization);
        proof {
            assert(self.assets@ =~= old_assets.update(id.0 as int, self.assets@[id.0 as int]));
            assert forall|j: int| 0 <= j < self.assets@.len() implies #[trigger] asset_links_ok(self.assets@, j) by {
                assert(asset_links_ok(old_assets, j));
            }
        }
    }

    /// Makes sure that the asset has a place in the atlas; see `Atlas::require_asset`.
    /// An asset already in the atlas is left as it is.
    pub fn require_asset(&mut self, id: AssetId, priority: Priority) -> (r: Result<Option<AtlasLocation>, AssetError>)
        requires
            old(self).wf(),
            id.0 < old(self).assets@.len(),
            !needs_scheduling(old(self).assets@, id.0 as int),
        ensures
            final(self).wf(),
            final(self).atlas.texture == old(self).atlas.texture,
            final(self).assets@.len() == old(self).assets@.len(),
            old(self).assets@[id.0 as int].rasterization_status is InAtlas ==> {
                &&& r == Ok::<Option<AtlasLocation>, AssetError>(None)
                &&& same_state(*final(self), *old(self))
            },
            match r {
                Ok(Some(location)) => {
                    let raster = old(self).assets@[id.0 as int].held_rasterization().unwrap();
                    &&& old(self).assets@[id.0 as int].rasterization_status is InMemory
                    &&& old(self).atlas.root_bin.first_fit(raster.size) == Some(location.rect.origin)
                    &&& location.rect.size == raster.size
                    &&& final(self).atlas.root_bin == old(self).atlas.root_bin.inserted(raster.size)
                    &&& final(self).atlas.issued@ == old(self).atlas.issued@.push(location.rect)
                    &&& final(self).assets@ == old(self).assets@.update(
                        id.0 as int,
                        old(self).assets@[id.0 as int].with_status(
                            AssetRasterizationStatus::InAtlas(raster, AtlasHandle { location }),
                        ),
                    )
                },
                Ok(None) => {
                    &&& old(self).assets@[id.0 as int].rasterization_status is InAtlas
                    &&& same_state(*final(self), *old(self))
                },
                Err(e) => {
                    let status = old(self).assets@[id.0 as int].rasterization_status;
                    &&& same_state(*final(self), *old(self))
                    &&& e == AssetError::NotYetReceived <==> status is Waiting
                    &&& e != AssetError::InvalidStateTransition
                    &&& e == AssetError::AtlasOutOfSpace <==> (status is InMemory && old(self).atlas.root_bin.first_fit(
                        old(self).assets@[id.0 as int].held_rasterization().unwrap().size,
                    ).is_none())
                },
            },
    {
        let ghost old_assets = self.assets@;
        let r = self.atlas.require_asset(&mut self.assets[id.0], priority);
        proof {
            assert(self.assets@ =~= old_assets.update(id.0 as int, self.assets@[id.0 as int]));
            if r is Ok && !(r matches Ok(Some(_))) || r is Err {
                assert(self.assets@ =~= old_assets);
            }
            assert forall|j: int| 0 <= j < self.assets@.len() implies #[trigger] asset_links_ok(self.assets@, j) by {
                assert(asset_links_ok(old_assets, j));
            }
        }
        r
    }

    /// Takes asset `id` one step on its way into the atlas, and says what the caller
    /// is to do next: hand a job to a worker, wait for a rasterization, upload texels,
    /// or nothing, the asset being in the atlas. Called until it answers `Ready`.
    pub fn prepare_asset(&mut self, id: AssetId, priority: Priority) -> (r: Result<PreparationStep, AssetError>)
        requires
            old(self).wf(),
            id.0 < old(self).assets@.len(),
        ensures
            final(self).wf(),
            ({
                let status = old(self).assets@[id.0 as int].rasterization_status;
                let raster = old(self).assets@[id.0 as int].held_rasterization().unwrap();
                &&& status is InAtlas ==> r == Ok::<PreparationStep, AssetError>(PreparationStep::Ready) && same_state(
                    *final(self),
                    *old(self),
                )
                &&& status is Waiting ==> r == Ok::<PreparationStep, AssetError>(PreparationStep::Await(id)) && same_state(
                    *final(self),
                    *old(self),
                )
                &&& status is InMemory ==> match old(self).atlas.root_bin.first_fit(raster.size) {
                    None => r == Err::<PreparationStep, AssetError>(AssetError::AtlasOutOfSpace) && same_state(
                        *final(self),
                        *old(self),
                    ),
                    Some(origin) => {
                        let location = AtlasLocation { rect: Rect { origin, size: raster.size } };
                        &&& r == Ok::<PreparationStep, AssetError>(PreparationStep::Upload(location))
                        &&& final(self).atlas.texture == old(self).atlas.texture
                        &&& final(self).atlas.root_bin == old(self).atlas.root_bin.inserted(raster.size)
                        &&& final(self).atlas.issued@ == old(self).atlas.issued@.push(location.rect)
                        &&& final(self).assets@ == old(self).assets@.update(
                            id.0 as int,
                            old(self).assets@[id.0 as int].with_status(
                                AssetRasterizationStatus::InAtlas(raster, AtlasHandle { location }),
                            ),
                        )
                    },
                }
                &&& needs_scheduling(old(self).assets@, id.0 as int) && scheduling_fails(old(self).assets@, id.0 as int)
                    ==> r == Err::<PreparationStep, AssetError>(AssetError::InvalidStateTransition) && same_state(
                    *final(self),
                    *old(self),
                )
                &&& needs_scheduling(old(self).assets@, id.0 as int) && !scheduling_fails(old(self).assets@, id.0 as int)
                    ==> {
                    &&& final(self).atlas == old(self).atlas
                    &&& final(self).assets@ == schedule_one(old(self).assets@, id.0 as int)
                    &&& scheduling_submits(old(self).assets@, id.0 as int) ==> (r matches Ok(PreparationStep::Submit(job))
                        && job.asset == id && same_rasterization(
                        job.input,
                        scheduling_input(old(self).assets@, id.0 as int),
                    ))
                    &&& !scheduling_submits(old(self).assets@, id.0 as int) ==> (r matches Ok(PreparationStep::Await(d))
                        && old(self).assets@[id.0 as int].derived_from == Some(d)
                        && old(self).assets@[d.0 as int].rasterization_status is Waiting)
                }
            }),
    {
        proof {
            assert(asset_links_ok(self.assets@, id.0 as int));
        }
        let ghost old_assets = self.assets@;
        if self.assets[id.0].is_in_atlas() {
            return Ok(PreparationStep::Ready);
        }
        if let AssetRasterizationStatus::Waiting = self.assets[id.0].rasterization_status {
            return Ok(PreparationStep::Await(id));
        }
        if self.assets[id.0].is_pending_or_waiting_for_dependency() {
            if self.scheduling_would_fail(id) {
                return Err(AssetError::InvalidStateTransition);
            }
            let derived_from = self.assets[id.0].derived_from;
            return match self.start_rasterizing_asset_if_necessary(id) {
                Some(job) => Ok(PreparationStep::Submit(job)),
                None => match derived_from {
                    Some(d) => {
                        proof {
                            assert(asset_links_ok(old_assets, d.0 as int));
                        }
                        Ok(PreparationStep::Await(d))
                    },
                    None => unreached(),
                },
            };
        }
        match self.require_asset(id, priority) {
            Ok(Some(location)) => Ok(PreparationStep::Upload(location)),
            Ok(None) => unreached(),
            Err(e) => Err(e),
        }
    }

    /// Schedules the assets of every item of the display list, in order: a glyph
    /// before its blurred copy, an arc before its inverse. Returns the jobs started.
    pub fn start_rasterizing_assets_in_display_list_as_necessary(&mut self, display_list: &DisplayList) -> (r: Result<
        Vec<RasterizationJob>,
        AssetError,
    >)
        requires
            old(self).wf(),
            asset_ids_valid(display_list, old(self).assets@.len()),
        ensures
            final(self).wf(),
            final(self).atlas == old(self).atlas,
            final(self).assets@.len() == old(self).assets@.len(),
            forall|j: int| 0 <= j < old(self).assets@.len() ==> #[trigger] scheduling_step(old(self).assets@, final(self).assets@, j),
            dependencies_in_order(old(self).assets@, display_list) ==> r is Ok,
            r is Ok ==> forall|k: int, m: int|
                0 <= k < display_list.items@.len() && 0 <= m < display_list.items@[k].spec_assets().len()
                ==> !(final(self).assets@[(#[trigger] display_list.items@[k].spec_assets()[m]).0 as int].rasterization_status is Pending),
            r matches Ok(jobs) ==> forall|q: int| 0 <= q < jobs@.len() ==> {
                &&& (#[trigger] jobs@[q]).asset.0 < old(self).assets@.len()
                &&& needs_scheduling(old(self).assets@, jobs@[q].asset.0 as int)
                &&& final(self).assets@[jobs@[q].asset.0 as int].rasterization_status is Waiting
            },
            r matches Ok(jobs) ==> forall|j: int|
                0 <= j < old(self).assets@.len() && needs_scheduling(old(self).assets@, j)
                    && (#[trigger] final(self).assets@[j]).rasterization_status is Waiting ==> exists|q: int|
                    0 <= q < jobs@.len() && (#[trigger] jobs@[q]).asset.0 == j,
            r matches Err(e) ==> e == AssetError::InvalidStateTransition,
            match schedule_all(old(self).assets@, list_asset_ids(display_list, display_list.items@.len() as int)) {
                None => r is Err,
                Some((after, expected)) => r matches Ok(jobs) && final(self).assets@ == after && jobs_match(jobs@, expected),
            },
    {
        let mut jobs: Vec<RasterizationJob> = Vec::new();
        let ghost start = self.assets@;
        let ghost mut expected: Seq<(AssetId, Option<AssetRasterization>)> = seq![];
        proof {
            assert(list_asset_ids(display_list, 0) == Seq::<AssetId>::empty());
        }
        let mut k: usize = 0;
        while k < display_list.items.len()
            invariant
                self.wf(),
                self.atlas == old(self).atlas,
                start == old(self).assets@,
                self.assets@.len() == start.len(),
                asset_ids_valid(display_list, start.len()),
                k <= display_list.items@.len(),
                forall|j: int| 0 <= j < start.len() ==> #[trigger] scheduling_step(start, self.assets@, j),
                forall|k0: int, m: int|
                    0 <= k0 < k && 0 <= m < display_list.items@[k0].spec_assets().len()
                    ==> !(self.assets@[(#[trigger] display_list.items@[k0].spec_assets()[m]).0 as int].rasterization_status is Pending),
                forall|q: int| 0 <= q < jobs@.len() ==> {
                    &&& (#[trigger] jobs@[q]).asset.0 < start.len()
                    &&& needs_scheduling(start, jobs@[q].asset.0 as int)
                    &&& self.assets@[jobs@[q].asset.0 as int].rasterization_status is Waiting
                },
                forall|j: int|
                    0 <= j < start.len() && needs_scheduling(start, j)
                        && (#[trigger] self.assets@[j]).rasterization_status is Waiting ==> exists|q: int|
                        0 <= q < jobs@.len() && (#[trigger] jobs@[q]).asset.0 == j,
                schedule_all(start, list_asset_ids(display_list, k as int)) == Some((self.assets@, expected)),
                jobs_match(jobs@, expected),
            decreases display_list.items@.len() - k,
        {
            let ids = display_list.items[k].assets();
            let ghost before_item = self.assets@;
            let mut m: usize = 0;
            while m < ids.len()
                invariant
                    self.wf(),
                    self.atlas == old(self).atlas,
                    start == old(self).assets@,
                    self.assets@.len() == start.len(),
                    asset_ids_valid(display_list, start.len()),
                    k < display_list.items@.len(),
                    ids@ == display_list.items@[k as int].spec_assets(),
                    m <= ids@.len(),
                    before_item.len() == start.len(),
                    forall|j: int| 0 <= j < start.len() ==> #[trigger] scheduling_step(start, self.assets@, j),
                    forall|j: int| 0 <= j < start.len() ==> #[trigger] scheduling_step(before_item, self.assets@, j),
                    forall|k0: int, m0: int|
                        0 <= k0 < k && 0 <= m0 < display_list.items@[k0].spec_assets().len()
                        ==> !(before_item[(#[trigger] display_list.items@[k0].spec_assets()[m0]).0 as int].rasterization_status is Pending),
                    forall|m0: int| 0 <= m0 < m ==> !(self.assets@[(#[trigger] ids@[m0]).0 as int].rasterization_status is Pending),
                    dependencies_in_order(start, display_list) ==> item_dependencies_in_order(start, ids@),
                    forall|q: int| 0 <= q < jobs@.len() ==> {
                        &&& (#[trigger] jobs@[q]).asset.0 < start.len()
                        &&& needs_scheduling(start, jobs@[q].asset.0 as int)
                        &&& self.assets@[jobs@[q].asset.0 as int].rasterization_status is Waiting
                    },
                    forall|j: int|
                        0 <= j < start.len() && needs_scheduling(start, j)
                            && (#[trigger] self.assets@[j]).rasterization_status is Waiting ==> exists|q: int|
                            0 <= q < jobs@.len() && (#[trigger] jobs@[q]).asset.0 == j,
                    schedule_all(start, list_asset_ids(display_list, k as int) + ids@.subrange(0, m as int)) == Some(
                        (self.assets@, expected),
                    ),
                    jobs_match(jobs@, expected),
                decreases ids@.len() - m,
            {
                let id = ids[m];
                proof {
                    assert(display_list.items@[k as int].spec_assets()[m as int] == id);
                    if dependencies_in_order(start, display_list) {
                        assert(item_dependencies_in_order(start, ids@));
                        let dep = start[id.0 as int].derived_from;
                        assert(self.assets@[id.0 as int].derived_from == dep) by {
                            assert(scheduling_step(start, self.assets@, id.0 as int));
                        }
                        if let Some(d) = dep {
                            assert(ids@[m - 1] == d);
                            assert(!(self.assets@[d.0 as int].rasterization_status is Pending));
                        }
                    }
                }
                let ghost before_call = self.assets@;
                let ghost jobs_before = jobs@;
                let ghost prefix = list_asset_ids(display_list, k as int) + ids@.subrange(0, m as int);
                proof {
                    assert(prefix.push(id).drop_last() =~= prefix);
                    assert(list_asset_ids(display_list, k as int) + ids@.subrange(0, m as int + 1) =~= prefix.push(id));
                }
                if self.scheduling_would_fail(id) {
                    proof {
                        let n = display_list.items@.len() as int;
                        let full = list_asset_ids(display_list, n);
                        let base = list_asset_ids(display_list, k as int);
                        lemma_ids_prefix(display_list, k as int + 1, n);
                        assert(list_asset_ids(display_list, k as int + 1) == base + ids@);
                        assert(full.subrange(0, base.len() + m + 1) =~= prefix.push(id));
                        lemma_schedule_all_none_extends(start, full, base.len() + m + 1);
                    }
                    return Err(AssetError::InvalidStateTransition);
                }
                match self.start_rasterizing_asset_if_necessary(id) {
                    Some(job) => {
                        jobs.push(job);
                        proof {
                            expected = expected.push((id, scheduling_input(before_call, id.0 as int)));
                        }
                    },
                    None => {},
                }
                proof {
                    assert forall|j: int| 0 <= j < start.len() implies #[trigger] scheduling_step(start, self.assets@, j) by {
                        assert(scheduling_step(start, before_call, j));
                        assert(asset_links_ok(before_call, j));
                    }
                    assert forall|j: int| 0 <= j < start.len() implies #[trigger] scheduling_step(before_item, self.assets@, j) by {
                        assert(scheduling_step(before_item, before_call, j));
                        assert(asset_links_ok(before_call, j));
                    }
                    assert forall|k0: int, m0: int|
                        0 <= k0 < k && 0 <= m0 < display_list.items@[k0].spec_assets().len()
                        implies !(before_item[(#[trigger] display_list.items@[k0].spec_assets()[m0]).0 as int].rasterization_status is Pending) by {
                    }
                    assert(asset_links_ok(before_call, id.0 as int));
                    if let Some(d) = before_call[id.0 as int].derived_from {
                        assert(asset_links_ok(before_call, d.0 as int));
                    }
                    assert(!(self.assets@[id.0 as int].rasterization_status is Pending));
                    assert forall|m0: int| 0 <= m0 < m + 1 implies !(self.assets@[(#[trigger] ids@[m0]).0 as int].rasterization_status is Pending) by {
                        assert(display_list.items@[k as int].spec_assets()[m0] == ids@[m0]);
                        if m0 < m {
                            assert(!(before_call[ids@[m0].0 as int].rasterization_status is Pending));
                        }
                    }
                    assert forall|j: int|
                        0 <= j < start.len() && needs_scheduling(start, j)
                            && (#[trigger] self.assets@[j]).rasterization_status is Waiting implies exists|q: int|
                        0 <= q < jobs@.len() && (#[trigger] jobs@[q]).asset.0 == j by {
                        if j == id.0 as int && !(before_call[j].rasterization_status is Waiting) {
                            assert(scheduling_submits(before_call, j));
                            assert(jobs@[jobs@.len() - 1].asset.0 == j);
                        } else {
                            assert(scheduling_step(before_call, self.assets@, j));
                            assert(before_call[j].rasterization_status is Waiting);
                            let q = choose|q: int| 0 <= q < jobs_before.len() && (#[trigger] jobs_before[q]).asset.0 == j;
                            assert(jobs@[q] == jobs_before[q]);
                        }
                    }
                    assert forall|q: int| 0 <= q < jobs@.len() implies {
                        &&& (#[trigger] jobs@[q]).asset.0 < start.len()
                        &&& needs_scheduling(start, jobs@[q].asset.0 as int)
                        &&& self.assets@[jobs@[q].asset.0 as int].rasterization_status is Waiting
                    } by {
                        let j = jobs@[q].asset.0 as int;
                        assert(scheduling_step(start, before_call, j));
                        assert(scheduling_step(start, self.assets@, j));
                    }
                }
                m = m + 1;
            }
            proof {
                assert forall|k0: int, m0: int|
                    0 <= k0 < k + 1 && 0 <= m0 < display_list.items@[k0].spec_assets().len()
                    implies !(self.assets@[(#[trigger] display_list.items@[k0].spec_assets()[m0]).0 as int].rasterization_status is Pending) by {
                    let j = display_list.items@[k0].spec_assets()[m0].0 as int;
                    assert(scheduling_step(before_item, self.assets@, j));
                    if k0 == k {
                        assert(ids@[m0] == display_list.items@[k0].spec_assets()[m0]);
                    }
                }
            }
            proof {
                assert(list_asset_ids(display_list, k as int) + ids@.subrange(0, ids@.len() as int) =~= list_asset_ids(
                    display_list,
                    k as int + 1,
                ));
            }
            k = k + 1;
        }
        Ok(jobs)
    }
}

/// The assets that the display list names, item by item (the first `k` items), each
/// item's in the order they are needed.
pub open spec fn list_asset_ids(display_list: &DisplayList, k: int) -> Seq<AssetId>
    decreases k,
{
    if k <= 0 {
        seq![]
    } else {
        list_asset_ids(display_list, k - 1) + display_list.items@[k - 1].spec_assets()
    }
}

/// Scheduling the assets `ids` one after another: `None` where one of them is refused,
/// else the assets afterwards and, in order, the asset and input of each job started.
pub open spec fn schedule_all(assets: Seq<Asset>, ids: Seq<AssetId>) -> Option<
    (Seq<Asset>, Seq<(AssetId, Option<AssetRasterization>)>),
>
    decreases ids.len(),
{
    if ids.len() == 0 {
        Some((assets, seq![]))
    } else {
        match schedule_all(assets, ids.drop_last()) {
            None => None,
            Some((before, jobs)) => {
                let i = ids.last().0 as int;
                if scheduling_fails(before, i) {
                    None
                } else if scheduling_submits(before, i) {
                    Some((schedule_one(before, i), jobs.push((ids.last(), scheduling_input(before, i)))))
                } else {
                    Some((schedule_one(before, i), jobs))
                }
            },
        }
    }
}

/// The jobs are, in order, for the expected assets with the expected inputs.
pub open spec fn jobs_match(jobs: Seq<RasterizationJob>, expected: Seq<(AssetId, Option<AssetRasterization>)>) -> bool {
    &&& jobs.len() == expected.len()
    &&& forall|q: int|
        0 <= q < jobs.len() ==> (#[trigger] jobs[q]).asset == expected[q].0 && same_rasterization(
            jobs[q].input,
            expected[q].1,
        )
}

proof fn lemma_ids_prefix(display_list: &DisplayList, k: int, n: int)
    requires
        0 <= k <= n,
    ensures
        list_asset_ids(display_list, k).len() <= list_asset_ids(display_list, n).len(),
        list_asset_ids(display_list, n).subrange(0, list_asset_ids(display_list, k).len() as int) == list_asset_ids(
            display_list,
            k,
        ),
    decreases n - k,
{
    if k == n {
        assert(list_asset_ids(display_list, n).subrange(0, list_asset_ids(display_list, n).len() as int)
            =~= list_asset_ids(display_list, n));
    } else {
        lemma_ids_prefix(display_list, k, n - 1);
        assert(list_asset_ids(display_list, n).subrange(0, list_asset_ids(display_list, k).len() as int)
            =~= list_asset_ids(display_list, n - 1).subrange(0, list_asset_ids(display_list, k).len() as int));
    }
}

proof fn lemma_schedule_all_none_extends(assets: Seq<Asset>, ids: Seq<AssetId>, j: int)
    requires
        0 <= j <= ids.len(),
        schedule_all(assets, ids.subrange(0, j)) is None,
    ensures
        schedule_all(assets, ids) is None,
    decreases ids.len() - j,
{
    if j == ids.len() {
        assert(ids.subrange(0, j) =~= ids);
    } else {
        assert(ids.drop_last().subrange(0, j) =~= ids.subrange(0, j));
        lemma_schedule_all_none_extends(assets, ids.drop_last(), j);
    }
}

/// Where every asset that the ids name is already in the atlas, scheduling them
/// changes nothing and starts no job.
pub proof fn lemma_schedule_all_in_atlas_is_no_op(assets: Seq<Asset>, ids: Seq<AssetId>)
    requires
        forall|m: int| 0 <= m < ids.len() ==> 0 <= (#[trigger] ids[m]).0 < assets.len()
            && assets[ids[m].0 as int].rasterization_status is InAtlas,
    ensures
        schedule_all(assets, ids) == Some((assets, Seq::<(AssetId, Option<AssetRasterization>)>::empty())),
    decreases ids.len(),
{
    if ids.len() > 0 {
        let rest = ids.drop_last();
        assert forall|m: int| 0 <= m < rest.len() implies 0 <= (#[trigger] rest[m]).0 < assets.len()
            && assets[rest[m].0 as int].rasterization_status is InAtlas by {
            assert(rest[m] == ids[m]);
        }
        lemma_schedule_all_in_atlas_is_no_op(assets, rest);
        let i = ids.last().0 as int;
        assert(ids.last() == ids[ids.len() - 1]);
        assert(schedule_one(assets, i) =~= assets);
    }
}

/// Every asset that the display list names exists.
pub open spec fn asset_ids_valid(display_list: &DisplayList, n: nat) -> bool {
    forall|k: int, m: int|
        0 <= k < display_list.items@.len() && 0 <= m < display_list.items@[k].spec_assets().len()
        ==> (#[trigger] display_list.items@[k].spec_assets()[m]).0 < n
}

/// Within one item, each asset is derived from nothing or from the asset just before it.
pub open spec fn item_dependencies_in_order(assets: Seq<Asset>, ids: Seq<AssetId>) -> bool {
    forall|m: int| 0 <= m < ids.len() ==> {
        ||| assets[(#[trigger] ids[m]).0 as int].derived_from is None
        ||| (m > 0 && assets[ids[m].0 as int].derived_from == Some(ids[m - 1]))
    }
}

/// Every item's assets are in dependency order: a blurred glyph follows the glyph it blurs.
pub open spec fn dependencies_in_order(assets: Seq<Asset>, display_list: &DisplayList) -> bool {
    forall|k: int| 0 <= k < display_list.items@.len() ==> item_dependencies_in_order(
        assets,
        #[trigger] display_list.items@[k].spec_assets(),
    )
}

/// From `before` to `after`, asset `j` kept its description and links, and either
/// kept its status or, being still to schedule, moved to waiting.
pub open spec fn scheduling_step(before: Seq<Asset>, after: Seq<Asset>, j: int) -> bool {
    &&& after[j].description == before[j].description
    &&& after[j].derived_from == before[j].derived_from
    &&& {
        ||| after[j].rasterization_status == before[j].rasterization_status
        ||| needs_scheduling(before, j) && (after[j].rasterization_status is Waiting
            || after[j].rasterization_status is WaitingForDependency)
    }
}

} // verus!
