use webrast::assets::{
    ArcAsset, ArcMode, Asset, AssetDescription, AssetError, AssetId, AssetManager, AssetRasterization,
    AssetRasterizationStatus, BlurredGlyph, Glyph, PreparationStep,
};
use webrast::atlas::{Atlas, AtlasHandle, AtlasLocation, Priority};
use webrast::display_list::{
    Au, BaseDisplayItem, ClippingRegion, DisplayItem, DisplayList, TextDisplayItem,
};
use webrast::geometry::{Point2D, Rect, Size2D};

fn raster(w: u32, h: u32) -> AssetRasterization {
    AssetRasterization { data: vec![7; (w * h * 4) as usize], size: Size2D::new(w, h) }
}

fn bounds() -> BaseDisplayItem {
    let r = Rect::new(Point2D::new(Au(0), Au(0)), Size2D::new(Au::from_px(100), Au::from_px(100)));
    BaseDisplayItem { bounds: r, clip: ClippingRegion { main: r } }
}

fn glyph_description() -> AssetDescription {
    AssetDescription::Glyph(Glyph::new("font.ttf".to_string(), 'S'))
}

fn status_name(a: &Asset) -> &'static str {
    match a.rasterization_status {
        AssetRasterizationStatus::Pending => "pending",
        AssetRasterizationStatus::WaitingForDependency => "waiting-for-dependency",
        AssetRasterizationStatus::Waiting => "waiting",
        AssetRasterizationStatus::InMemory(_) => "in-memory",
        AssetRasterizationStatus::InAtlas(..) => "in-atlas",
    }
}

#[test]
fn glyph_status_path() {
    let mut manager = AssetManager::new(Atlas::new(1));
    let id = manager.create_asset(glyph_description(), None);
    assert_eq!(id, AssetId(0));
    assert_eq!(status_name(manager.asset(id)), "pending");
    let job = manager.start_rasterizing_asset_if_necessary(id).unwrap();
    assert_eq!(job.asset, id);
    assert!(job.input.is_none());
    assert_eq!(status_name(manager.asset(id)), "waiting");
    manager.receive_rasterization(id, raster(8, 8));
    assert_eq!(status_name(manager.asset(id)), "in-memory");
    let location = manager.require_asset(id, Priority::Retained).unwrap().unwrap();
    assert_eq!(location.rect, Rect::new(Point2D::new(0, 0), Size2D::new(8, 8)));
    assert_eq!(status_name(manager.asset(id)), "in-atlas");
    assert_eq!(manager.asset(id).get_atlas_handle(), AtlasHandle { location });
}

#[test]
fn require_asset_twice_is_a_no_op() {
    let mut manager = AssetManager::new(Atlas::new(1));
    let id = manager.create_asset(glyph_description(), None);
    manager.start_rasterizing_asset_if_necessary(id);
    manager.receive_rasterization(id, raster(4, 4));
    let first = manager.require_asset(id, Priority::Retained).unwrap();
    assert!(first.is_some());
    assert_eq!(manager.require_asset(id, Priority::Retained), Ok(None));
    assert_eq!(manager.start_rasterizing_asset_if_necessary(id).is_none(), true);
    assert_eq!(manager.prepare_asset(id, Priority::Retained).unwrap_matches_ready(), true);
    let second = manager.create_asset(glyph_description(), None);
    manager.start_rasterizing_asset_if_necessary(second);
    manager.receive_rasterization(second, raster(4, 4));
    let placed = manager.require_asset(second, Priority::Retained).unwrap().unwrap();
    assert_eq!(placed.rect.origin, Point2D::new(4, 0));
}

trait ReadyCheck {
    fn unwrap_matches_ready(self) -> bool;
}

impl ReadyCheck for Result<PreparationStep, AssetError> {
    fn unwrap_matches_ready(self) -> bool {
        matches!(self, Ok(PreparationStep::Ready))
    }
}

#[test]
fn legal_transitions_of_one_asset() {
    let mut asset = Asset {
        description: glyph_description(),
        derived_from: None,
        rasterization_status: AssetRasterizationStatus::Waiting,
    };
    assert!(!asset.is_pending_or_waiting_for_dependency());
    assert_eq!(asset.get_rasterization().err(), Some(AssetError::NotYetReceived));
    asset.receive_rasterization(raster(1, 1));
    assert_eq!(asset.get_rasterization().unwrap().size, Size2D::new(1, 1));
    let first = AtlasHandle { location: AtlasLocation { rect: Rect::new(Point2D::new(0, 0), Size2D::new(1, 1)) } };
    asset.set_atlas_handle(first);
    assert!(asset.is_in_atlas());
    assert_eq!(asset.get_atlas_handle(), first);
    let second = AtlasHandle { location: AtlasLocation { rect: Rect::new(Point2D::new(5, 5), Size2D::new(1, 1)) } };
    asset.set_atlas_handle(second);
    assert_eq!(asset.get_atlas_handle(), second);
    assert_eq!(asset.get_rasterization().unwrap().data, vec![7; 4]);
}

#[test]
fn dependency_must_be_scheduled_first() {
    let mut manager = AssetManager::new(Atlas::new(1));
    let glyph = manager.create_asset(glyph_description(), None);
    let blurred = manager.create_asset(AssetDescription::BlurredGlyph(BlurredGlyph::new(2000)), Some(glyph));
    assert!(manager.scheduling_would_fail(blurred));
    assert!(!manager.scheduling_would_fail(glyph));
    assert_eq!(manager.prepare_asset(blurred, Priority::Retained).err(), Some(AssetError::InvalidStateTransition));
    assert_eq!(status_name(manager.asset(blurred)), "pending");
    // A list that names the blurred glyph without its glyph is refused.
    let list = DisplayList {
        items: vec![DisplayItem::Text(Box::new(TextDisplayItem {
            base: bounds(),
            glyph_asset: blurred,
            blurred_glyph_asset: None,
        }))],
    };
    assert_eq!(
        manager.start_rasterizing_assets_in_display_list_as_necessary(&list).err(),
        Some(AssetError::InvalidStateTransition)
    );
}

#[test]
fn text_with_blur_waits_for_its_glyph() {
    let mut manager = AssetManager::new(Atlas::new(1));
    let glyph = manager.create_asset(glyph_description(), None);
    let blurred = manager.create_asset(AssetDescription::BlurredGlyph(BlurredGlyph::new(2000)), Some(glyph));
    let list = DisplayList {
        items: vec![DisplayItem::Text(Box::new(TextDisplayItem {
            base: bounds(),
            glyph_asset: glyph,
            blurred_glyph_asset: Some(blurred),
        }))],
    };
    let jobs = manager.start_rasterizing_assets_in_display_list_as_necessary(&list).unwrap();
    assert_eq!(jobs.len(), 1);
    assert_eq!(jobs[0].asset, glyph);
    assert_eq!(status_name(manager.asset(glyph)), "waiting");
    assert_eq!(status_name(manager.asset(blurred)), "waiting-for-dependency");

    match manager.prepare_asset(blurred, Priority::Retained) {
        Ok(PreparationStep::Await(id)) => assert_eq!(id, glyph),
        other => panic!("unexpected step {:?}", other),
    }
    manager.receive_rasterization(glyph, raster(6, 6));
    match manager.prepare_asset(glyph, Priority::Retained) {
        Ok(PreparationStep::Upload(location)) => assert_eq!(location.rect.size, Size2D::new(6, 6)),
        other => panic!("unexpected step {:?}", other),
    }
    match manager.prepare_asset(blurred, Priority::Retained) {
        Ok(PreparationStep::Submit(job)) => {
            assert_eq!(job.asset, blurred);
            assert_eq!(job.input.unwrap().data, vec![7; 6 * 6 * 4]);
        }
        other => panic!("unexpected step {:?}", other),
    }
    assert_eq!(status_name(manager.asset(blurred)), "waiting");
    manager.receive_rasterization(blurred, raster(6, 6));
    let second = manager.require_asset(blurred, Priority::Retained).unwrap().unwrap();
    let first = manager.asset(glyph).get_atlas_handle().location.rect;
    assert_ne!(first, second.rect);
    assert_eq!(second.rect.origin, Point2D::new(6, 0));
}

#[test]
fn out_of_space_leaves_the_asset_in_memory() {
    let mut manager = AssetManager::new(Atlas::new(1));
    let id = manager.create_asset(glyph_description(), None);
    manager.start_rasterizing_asset_if_necessary(id);
    manager.receive_rasterization(id, raster(2048, 4));
    assert_eq!(manager.require_asset(id, Priority::Retained), Err(AssetError::AtlasOutOfSpace));
    assert_eq!(status_name(manager.asset(id)), "in-memory");
    assert_eq!(manager.require_asset(AssetId(0), Priority::Retained).err(), Some(AssetError::AtlasOutOfSpace));
}

#[test]
fn waiting_asset_cannot_be_placed_yet() {
    let mut manager = AssetManager::new(Atlas::new(1));
    let id = manager.create_asset(AssetDescription::Arc(ArcAsset { mode: ArcMode::FilledArc }), None);
    manager.start_rasterizing_asset_if_necessary(id).unwrap();
    assert_eq!(manager.require_asset(id, Priority::Retained), Err(AssetError::NotYetReceived));
    assert!(matches!(manager.prepare_asset(id, Priority::Retained), Ok(PreparationStep::Await(x)) if x == id));
}

#[test]
fn live_handles_do_not_overlap() {
    let mut manager = AssetManager::new(Atlas::new(1));
    let sizes = [(30u32, 40u32), (500, 20), (20, 500), (64, 64), (200, 200)];
    let mut ids = Vec::new();
    for (w, h) in sizes.iter() {
        let id = manager.create_asset(glyph_description(), None);
        manager.start_rasterizing_asset_if_necessary(id);
        manager.receive_rasterization(id, raster(*w, *h));
        manager.require_asset(id, Priority::Retained).unwrap();
        ids.push(id);
    }
    let rects: Vec<Rect<u32>> = ids.iter().map(|id| manager.asset(*id).get_atlas_handle().location.rect).collect();
    for (i, a) in rects.iter().enumerate() {
        assert!(a.origin.x + a.size.width <= 1024 && a.origin.y + a.size.height <= 1024);
        for b in rects.iter().skip(i + 1) {
            let apart = a.origin.x + a.size.width <= b.origin.x
                || b.origin.x + b.size.width <= a.origin.x
                || a.origin.y + a.size.height <= b.origin.y
                || b.origin.y + b.size.height <= a.origin.y;
            assert!(apart, "{:?} overlaps {:?}", a, b);
        }
    }
}

#[test]
fn arc_is_prepared_step_by_step() {
    let mut manager = AssetManager::new(Atlas::new(1));
    let id = manager.create_asset(AssetDescription::Arc(ArcAsset { mode: ArcMode::InvertedFilledArc }), None);
    let job = match manager.prepare_asset(id, Priority::Retained) {
        Ok(PreparationStep::Submit(job)) => job,
        other => panic!("unexpected step {:?}", other),
    };
    assert_eq!(job.asset, id);
    assert!(matches!(manager.prepare_asset(id, Priority::Retained), Ok(PreparationStep::Await(x)) if x == id));
    let rasterization = ArcAsset { mode: ArcMode::InvertedFilledArc }.rasterize();
    manager.receive_rasterization(id, rasterization);
    match manager.prepare_asset(id, Priority::Retained) {
        Ok(PreparationStep::Upload(location)) => assert_eq!(location.rect.size, Size2D::new(64, 64)),
        other => panic!("unexpected step {:?}", other),
    }
    assert!(matches!(manager.prepare_asset(id, Priority::Retained), Ok(PreparationStep::Ready)));
    assert!(manager.asset(id).get_rasterization().is_ok());
}

#[test]
fn display_items_list_their_assets() {
    let item = DisplayItem::Text(Box::new(TextDisplayItem {
        base: bounds(),
        glyph_asset: AssetId(3),
        blurred_glyph_asset: Some(AssetId(4)),
    }));
    assert_eq!(item.assets(), vec![AssetId(3), AssetId(4)]);
    assert_eq!(item.base().bounds, bounds().bounds);
}

#[test]
fn glyph_before_blur_is_scheduled_once() {
    let mut manager = AssetManager::new(Atlas::new(1));
    let glyph = manager.create_asset(glyph_description(), None);
    let list = DisplayList {
        items: vec![
            DisplayItem::Text(Box::new(TextDisplayItem { base: bounds(), glyph_asset: glyph, blurred_glyph_asset: None })),
            DisplayItem::Text(Box::new(TextDisplayItem { base: bounds(), glyph_asset: glyph, blurred_glyph_asset: None })),
        ],
    };
    let jobs = manager.start_rasterizing_assets_in_display_list_as_necessary(&list).unwrap();
    assert_eq!(jobs.len(), 1);
    let again = manager.start_rasterizing_assets_in_display_list_as_necessary(&list).unwrap();
    assert!(again.is_empty());
}
