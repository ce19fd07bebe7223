use webrast::display_list::{Au, Color};
use webrast::job_server::WorkerRotation;

#[test]
fn px_round_trip_exact_on_whole_pixels() {
    let a = Au(120);
    assert_eq!(a.to_px(), 2);
    assert_eq!(Au::from_px(a.to_px()), Au(120));
}

#[test]
fn px_round_trip_truncates_toward_zero() {
    assert_eq!(Au::from_px(Au(125).to_px()), Au(120));
    assert_eq!(Au::from_px(Au(59).to_px()), Au(0));
    assert_eq!(Au::from_px(Au(-125).to_px()), Au(-120));
    assert_eq!(Au(-59).to_px(), 0);
}

#[test]
fn from_px_scales_by_sixty() {
    assert_eq!(Au::from_px(5), Au(300));
    assert_eq!(Au::from_px(-3), Au(-180));
}

#[test]
fn named_colors() {
    assert_eq!(Color::new(1, 2, 3, 4), Color { r: 1, g: 2, b: 3, a: 4 });
    assert_eq!(Color::black(), Color::new(0, 0, 0, 255));
    assert_eq!(Color::white(), Color::new(255, 255, 255, 255));
    assert_eq!(Color::transparent_black(), Color::new(0, 0, 0, 0));
    assert_eq!(Color::transparent_green(), Color::new(0, 255, 0, 0));
    assert_eq!(Color::transparent_magenta(), Color::new(255, 0, 255, 0));
}

#[test]
fn workers_are_picked_in_turn() {
    let mut rotation = WorkerRotation::new(3);
    let picks: Vec<u32> = (0..7).map(|_| rotation.select()).collect();
    assert_eq!(picks, vec![0, 1, 2, 0, 1, 2, 0]);
}

#[test]
fn a_single_worker_takes_every_job() {
    let mut rotation = WorkerRotation::new(1);
    assert_eq!(rotation.select(), 0);
    assert_eq!(rotation.select(), 0);
}
