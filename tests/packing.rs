use webrast::atlas::{Atlas, AtlasError, Bin, Priority, HEIGHT, WIDTH};
use webrast::geometry::{Point2D, Rect, Size2D};

fn rect(x: u32, y: u32, w: u32, h: u32) -> Rect<u32> {
    Rect::new(Point2D::new(x, y), Size2D::new(w, h))
}

fn overlap(a: &Rect<u32>, b: &Rect<u32>) -> bool {
    a.origin.x < b.origin.x + b.size.width
        && b.origin.x < a.origin.x + a.size.width
        && a.origin.y < b.origin.y + b.size.height
        && b.origin.y < a.origin.y + a.size.height
}

fn leaves(bin: &Bin, out: &mut Vec<(Rect<u32>, bool)>) {
    match &bin.children {
        Some((l, r)) => {
            leaves(l, out);
            leaves(r, out);
        }
        None => out.push((bin.rect, bin.full)),
    }
}

#[test]
fn bsp_packing_order() {
    let mut bin = Bin::new(&rect(0, 0, 128, 128));
    assert_eq!(bin.insert(&Size2D::new(64, 64)), Some(Point2D::new(0, 0)));
    assert_eq!(bin.insert(&Size2D::new(64, 32)), Some(Point2D::new(64, 0)));
    assert_eq!(bin.insert(&Size2D::new(32, 32)), Some(Point2D::new(64, 32)));
}

#[test]
fn bin_refuses_what_does_not_fit() {
    let mut bin = Bin::new(&rect(0, 0, 16, 16));
    assert_eq!(bin.insert(&Size2D::new(17, 4)), None);
    assert_eq!(bin.insert(&Size2D::new(16, 16)), Some(Point2D::new(0, 0)));
    assert_eq!(bin.insert(&Size2D::new(1, 1)), None);
}

#[test]
fn atlas_exhaustion() {
    let mut atlas = Atlas::new(7);
    let size = Size2D::new(32, 32);
    let mut last = None;
    for _ in 0..1024 {
        let location = atlas.allocate(Priority::Retained, &size).unwrap();
        last = Some(location);
    }
    let last = last.unwrap();
    assert_eq!(last.rect.origin.x, 992);
    assert_eq!(last.rect.origin, Point2D::new(992, 992));
    assert_eq!(atlas.allocate(Priority::Retained, &size), Err(AtlasError::AtlasOutOfSpace));
    assert_eq!(atlas.texture, 7);
}

#[test]
fn issued_regions_are_disjoint_and_inside() {
    let mut atlas = Atlas::new(0);
    let sizes = [(100, 30), (7, 300), (512, 512), (64, 64), (1, 1), (300, 7), (1024, 1), (90, 90)];
    let mut issued = Vec::new();
    for (w, h) in sizes.iter() {
        if let Ok(location) = atlas.allocate(Priority::Retained, &Size2D::new(*w, *h)) {
            issued.push(location.rect);
        }
    }
    assert!(issued.len() >= 6);
    for (i, a) in issued.iter().enumerate() {
        assert!(a.origin.x + a.size.width <= WIDTH);
        assert!(a.origin.y + a.size.height <= HEIGHT);
        for b in issued.iter().skip(i + 1) {
            assert!(!overlap(a, b));
        }
    }
}

#[test]
fn leaves_conserve_area() {
    let mut bin = Bin::new(&rect(0, 0, 256, 128));
    for (w, h) in [(50, 20), (20, 50), (128, 64), (3, 3), (200, 10)].iter() {
        let _ = bin.insert(&Size2D::new(*w, *h));
    }
    let mut all = Vec::new();
    leaves(&bin, &mut all);
    let total: u64 = all.iter().map(|(r, _)| r.size.width as u64 * r.size.height as u64).sum();
    assert_eq!(total, 256 * 128);
    assert!(all.len() > 5);
}

#[test]
fn initial_atlas_is_opaque_blue() {
    let texels = Atlas::initial_texels();
    assert_eq!(texels.len(), (WIDTH * HEIGHT * 4) as usize);
    assert_eq!(&texels[0..4], &[0, 0, 255, 255]);
    assert_eq!(&texels[texels.len() - 4..], &[0, 0, 255, 255]);
}
