use ie_r::canvas::{kwin_capture_targets, scale_floor_div, scale_round_div, scale_round_mul, MonitorTile, PhysicalCanvas, Scale};
use ie_r::capture::{ScreenCapture, Transform};

fn solid(width: u32, height: u32, base: u32) -> ScreenCapture {
    ScreenCapture { xrgb_buffer: (0..width * height).map(|i| base + i).collect(), width, height }
}

fn tile(capture: ScreenCapture, output: u64, pos: (i32, i32), scale: Scale) -> MonitorTile {
    MonitorTile { capture, output: Some(output), scale, logical_pos: pos, transform: Transform::Normal }
}

fn one_to_one() -> Scale {
    Scale { physical: 1, logical: 1 }
}

#[test]
fn from_capture_scale_is_width_over_logical_width() {
    let t = MonitorTile::from_capture(solid(300, 200, 0), 7, (10, 20), 200, Transform::Normal);
    assert_eq!(t.scale, Scale { physical: 300, logical: 200 });
    assert_eq!(t.output, Some(7));
    assert_eq!(t.logical_pos, (10, 20));
}

#[test]
fn from_capture_nonpositive_logical_width_is_one_to_one() {
    let t = MonitorTile::from_capture(solid(4, 4, 0), 1, (0, 0), 0, Transform::Normal);
    assert_eq!(t.scale, one_to_one());
    let t = MonitorTile::from_capture(solid(4, 4, 0), 1, (0, 0), -5, Transform::Normal);
    assert_eq!(t.scale, one_to_one());
}

#[test]
fn from_capture_rotates_before_scaling() {
    let t = MonitorTile::from_capture(solid(4, 2, 0), 1, (0, 0), 1, Transform::Rotate90);
    assert_eq!((t.capture.width, t.capture.height), (2, 4));
    assert_eq!(t.scale, Scale { physical: 2, logical: 1 });
}

#[test]
fn scale_conversions() {
    let s = Scale { physical: 3, logical: 2 }; // 1.5
    assert_eq!(scale_floor_div(4, s), 2); // 4 / 1.5 = 2.67
    assert_eq!(scale_floor_div(-1, s), -1); // -0.67
    assert_eq!(scale_floor_div(-3, s), -2); // exactly -2
    assert_eq!(scale_round_div(3, s), 2); // 2.0
    assert_eq!(scale_round_div(5, s), 3); // 3.33
    assert_eq!(scale_round_mul(1, s), 2); // 1.5 rounds up
    assert_eq!(scale_round_mul(2, s), 3); // 3.0
}

#[test]
fn scale_conversions_degenerate_ratios() {
    let zero = Scale { physical: 0, logical: 5 };
    assert_eq!(scale_floor_div(3, zero), i32::MAX);
    assert_eq!(scale_floor_div(-3, zero), i32::MIN);
    assert_eq!(scale_floor_div(0, zero), 0);
    assert_eq!(scale_round_div(4, zero), i32::MAX);
    let infinite = Scale { physical: 5, logical: 0 };
    assert_eq!(scale_round_mul(2, infinite), i32::MAX);
    assert_eq!(scale_round_mul(0, infinite), 0);
    assert_eq!(scale_floor_div(7, infinite), 0);
}

#[test]
fn sample_inside_active_tile() {
    let c = PhysicalCanvas::from_single(solid(4, 3, 100), None);
    assert_eq!(c.sample(2, 1), Some(106));
    assert_eq!(c.sample(0, 0), Some(100));
}

#[test]
fn sample_outside_single_tile_is_none() {
    let c = PhysicalCanvas::from_single(solid(4, 3, 100), None);
    assert_eq!(c.sample(4, 0), None);
    assert_eq!(c.sample(-1, 0), None);
    assert_eq!(c.sample(0, 3), None);
}

#[test]
fn sample_crosses_into_neighbour_tile() {
    // Left monitor 4x2 at (0,0); right monitor 4x2 at (4,0), both 1:1.
    let c = PhysicalCanvas::build(vec![
        tile(solid(4, 2, 0), 1, (0, 0), one_to_one()),
        tile(solid(4, 2, 1000), 2, (4, 0), one_to_one()),
    ]);
    assert_eq!(c.sample(5, 1), Some(1000 + 1 * 4 + 1));
    assert_eq!(c.sample(9, 0), None);
}

#[test]
fn sample_crosses_into_scaled_tile() {
    // Right monitor is a 2x-scaled 8x4 capture covering logical 4..8 x 0..2.
    let c = PhysicalCanvas::build(vec![
        tile(solid(4, 2, 0), 1, (0, 0), one_to_one()),
        tile(solid(8, 4, 1000), 2, (4, 0), Scale { physical: 8, logical: 4 }),
    ]);
    // Local x 5 on the left monitor is logical 5: one logical unit into the
    // right one, physical column 2, row 2 for logical row 1.
    assert_eq!(c.sample(5, 1), Some(1000 + 2 * 8 + 2));
}

#[test]
fn sample_from_scaled_active_tile() {
    // Active tile is 2x scaled; point (-2, 0) is logical -1 on it.
    let mut c = PhysicalCanvas::build(vec![
        tile(solid(2, 2, 500), 1, (-2, 0), one_to_one()),
        tile(solid(8, 4, 0), 2, (0, 0), Scale { physical: 8, logical: 4 }),
    ]);
    c.active_idx = 1;
    assert_eq!(c.sample(-2, 0), Some(501));
}

#[test]
fn average_radius_zero_is_the_pixel() {
    let mut cap = solid(3, 3, 0);
    cap.xrgb_buffer[4] = 0x10_20_30;
    let c = PhysicalCanvas::from_single(cap, None);
    assert_eq!(c.sample_average(1, 1, 0), (0x10, 0x20, 0x30));
}

#[test]
fn average_over_square() {
    let cap = ScreenCapture {
        xrgb_buffer: vec![0x0A0000, 0x000A00, 0x00000A, 0x0B0B0B],
        width: 2,
        height: 2,
    };
    let c = PhysicalCanvas::from_single(cap, None);
    // The 3x3 square around (0, 0) has 4 pixels in the capture.
    assert_eq!(c.sample_average(0, 0, 1), ((10 + 11) / 4, (10 + 11) / 4, (10 + 11) / 4));
}

#[test]
fn average_with_no_samples_is_black() {
    let c = PhysicalCanvas::from_single(solid(2, 2, 0xFFFFFF), None);
    assert_eq!(c.sample_average(100, 100, 1), (0, 0, 0));
    assert_eq!(c.sample_average(0, 0, -1), (0, 0, 0));
}

#[test]
fn find_tile_by_output() {
    let c = PhysicalCanvas::build(vec![
        tile(solid(1, 1, 0), 11, (0, 0), one_to_one()),
        tile(solid(1, 1, 0), 22, (1, 0), one_to_one()),
        tile(solid(1, 1, 0), 22, (2, 0), one_to_one()),
    ]);
    assert_eq!(c.find_tile(22), Some(1));
    assert_eq!(c.find_tile(33), None);
    assert_eq!(c.tile_index_for(22), 1);
    assert_eq!(c.tile_index_for(33), 0);
}

#[test]
fn from_single_and_active() {
    let c = PhysicalCanvas::from_single(solid(2, 2, 0), Some(5));
    assert_eq!(c.tiles.len(), 1);
    assert_eq!(c.active_idx, 0);
    let a = c.active();
    assert_eq!(a.output, Some(5));
    assert_eq!(a.scale, one_to_one());
    assert_eq!(a.logical_pos, (0, 0));
}

#[test]
fn from_tier_needs_tiles() {
    assert!(PhysicalCanvas::from_tier(Vec::new()).is_none());
    let c = PhysicalCanvas::from_tier(vec![tile(solid(1, 1, 0), 1, (0, 0), one_to_one())]).unwrap();
    assert_eq!(c.tiles.len(), 1);
    assert_eq!(c.active_idx, 0);
}

#[test]
fn unit_scale_sampling_takes_first_covering_tile() {
    // Active tile 2x2 at (0, 0); two overlapping tiles to its right.
    let tiles = vec![
        tile(solid(2, 2, 0), 1, (0, 0), one_to_one()),
        tile(solid(3, 2, 100), 2, (2, 0), one_to_one()),
        tile(solid(3, 2, 200), 3, (3, 0), one_to_one()),
    ];
    let canvas = PhysicalCanvas { tiles, active_idx: 0 };
    // (3, 1) lies in both the second and the third box: the second wins.
    assert_eq!(canvas.sample(3, 1), Some(100 + 1 * 3 + 1));
    // (5, 0) lies only in the third box.
    assert_eq!(canvas.sample(5, 0), Some(200 + 2));
    // (6, 0) and (1, 2) lie in no box.
    assert_eq!(canvas.sample(6, 0), None);
    assert_eq!(canvas.sample(1, 2), None);
}

#[test]
fn average_of_uniform_window_is_its_colour() {
    let c = ScreenCapture { xrgb_buffer: vec![0x00123456; 25], width: 5, height: 5 };
    let canvas = PhysicalCanvas { tiles: vec![tile(c, 1, (0, 0), one_to_one())], active_idx: 0 };
    assert_eq!(canvas.sample_average(2, 2, 2), (0x12, 0x34, 0x56));
    // At a corner only part of the window is sampled; the colour is the same.
    assert_eq!(canvas.sample_average(0, 0, 2), (0x12, 0x34, 0x56));
}

#[test]
fn average_lies_between_least_and_greatest_sample() {
    let c = ScreenCapture { xrgb_buffer: vec![0x000A0000, 0x00140000, 0x001E0000, 0x00280000], width: 2, height: 2 };
    let canvas = PhysicalCanvas { tiles: vec![tile(c, 1, (0, 0), one_to_one())], active_idx: 0 };
    let (r, g, b) = canvas.sample_average(0, 0, 1);
    assert_eq!((r, g, b), (25, 0, 0));
    assert!(10 <= r && r <= 40);
    assert_eq!(canvas.sample_average(0, 0, -1), (0, 0, 0));
}

#[test]
fn kwin_targets_skip_unnamed_outputs() {
    let names = vec!["DP-1".to_string(), String::new(), "HDMI-A-1".to_string(), String::new()];
    assert_eq!(kwin_capture_targets(&names), vec![0, 2]);
    assert_eq!(kwin_capture_targets(&vec![]), Vec::<usize>::new());
}

#[test]
fn sampling_reads_only_the_tiles_it_needs() {
    let short = ScreenCapture { xrgb_buffer: vec![], width: 4, height: 4 };
    let tiles = vec![tile(solid(2, 2, 0), 1, (0, 0), one_to_one()), tile(short, 2, (10, 10), one_to_one())];
    let canvas = PhysicalCanvas { tiles, active_idx: 0 };
    assert_eq!(canvas.sample(1, 1), Some(3));
    assert_eq!(canvas.sample(5, 0), None);
}
