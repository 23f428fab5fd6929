use ie_r::capture::{
    apply_transform, rgba_bytes_to_capture, xrgb_from_rgba_bytes, ScreenCapture, Transform,
};

fn grid(width: u32, height: u32) -> ScreenCapture {
    ScreenCapture { xrgb_buffer: (0..width * height).collect(), width, height }
}

// 3 x 2 source:
//   0 1 2
//   3 4 5

#[test]
fn normal_transform_keeps_capture() {
    let mut c = grid(3, 2);
    c.xrgb_buffer.push(99);
    let r = apply_transform(c, Transform::Normal);
    assert_eq!((r.width, r.height), (3, 2));
    assert_eq!(r.xrgb_buffer, vec![0, 1, 2, 3, 4, 5, 99]);
}

#[test]
fn rotate90_turns_rows_into_columns() {
    let r = apply_transform(grid(3, 2), Transform::Rotate90);
    assert_eq!((r.width, r.height), (2, 3));
    assert_eq!(r.xrgb_buffer, vec![3, 0, 4, 1, 5, 2]);
}

#[test]
fn rotate180_reverses() {
    let r = apply_transform(grid(3, 2), Transform::Rotate180);
    assert_eq!((r.width, r.height), (3, 2));
    assert_eq!(r.xrgb_buffer, vec![5, 4, 3, 2, 1, 0]);
}

#[test]
fn rotate270_turns_columns_into_rows() {
    let r = apply_transform(grid(3, 2), Transform::Rotate270);
    assert_eq!((r.width, r.height), (2, 3));
    assert_eq!(r.xrgb_buffer, vec![2, 5, 1, 4, 0, 3]);
}

#[test]
fn flipped_mirrors_each_row() {
    let r = apply_transform(grid(3, 2), Transform::Flipped);
    assert_eq!(r.xrgb_buffer, vec![2, 1, 0, 5, 4, 3]);
}

#[test]
fn flipped90_transform() {
    let r = apply_transform(grid(3, 2), Transform::Flipped90);
    assert_eq!((r.width, r.height), (2, 3));
    assert_eq!(r.xrgb_buffer, vec![5, 2, 4, 1, 3, 0]);
}

#[test]
fn flipped180_mirrors_rows_order() {
    let r = apply_transform(grid(3, 2), Transform::Flipped180);
    assert_eq!(r.xrgb_buffer, vec![3, 4, 5, 0, 1, 2]);
}

#[test]
fn flipped270_transposes() {
    let r = apply_transform(grid(3, 2), Transform::Flipped270);
    assert_eq!((r.width, r.height), (2, 3));
    assert_eq!(r.xrgb_buffer, vec![0, 3, 1, 4, 2, 5]);
}

#[test]
fn extra_pixels_dropped_by_rotation() {
    let mut c = grid(2, 1);
    c.xrgb_buffer.push(7);
    let r = apply_transform(c, Transform::Rotate180);
    assert_eq!(r.xrgb_buffer, vec![1, 0]);
}

#[test]
fn empty_capture_rotates_to_empty() {
    let r = apply_transform(grid(0, 4), Transform::Rotate90);
    assert_eq!((r.width, r.height), (4, 0));
    assert!(r.xrgb_buffer.is_empty());
}

#[test]
fn rotate_then_inverse_restores() {
    let pairs = [
        (Transform::Rotate90, Transform::Rotate270),
        (Transform::Rotate270, Transform::Rotate90),
        (Transform::Rotate180, Transform::Rotate180),
        (Transform::Flipped, Transform::Flipped),
        (Transform::Flipped90, Transform::Flipped90),
        (Transform::Flipped180, Transform::Flipped180),
        (Transform::Flipped270, Transform::Flipped270),
    ];
    for (t, u) in pairs {
        let r = apply_transform(apply_transform(grid(4, 3), t), u);
        assert_eq!((r.width, r.height), (4, 3));
        assert_eq!(r.xrgb_buffer, grid(4, 3).xrgb_buffer);
    }
}

#[test]
fn source_pixel_lands_at_rotated_position() {
    // Pixel (x=2, y=0) of a 3 x 2 image lands at (h - 1 - y, x) = (1, 2) after a 90-degree turn.
    let r = apply_transform(grid(3, 2), Transform::Rotate90);
    assert_eq!(r.xrgb_buffer[(2 * r.width + 1) as usize], 2);
}

#[test]
fn rgba_bytes_become_xrgb() {
    let raw = vec![0x12, 0x34, 0x56, 0xFF, 0xAB, 0xCD, 0xEF, 0x00, 9, 9];
    assert_eq!(xrgb_from_rgba_bytes(&raw), vec![0x123456, 0xABCDEF]);
}

#[test]
fn rgba_image_to_capture() {
    let c = rgba_bytes_to_capture(2, 1, vec![1, 2, 3, 4, 250, 251, 252, 253]).unwrap();
    assert_eq!((c.width, c.height), (2, 1));
    assert_eq!(c.xrgb_buffer, vec![0x010203, 0xFAFBFC]);
    assert!(rgba_bytes_to_capture(2, 2, vec![0; 15]).is_none());
    let c = rgba_bytes_to_capture(1, 1, vec![7, 8, 9, 10, 11]).unwrap();
    assert_eq!(c.xrgb_buffer, vec![0x070809]);
}

#[test]
fn four_quarter_turns_restore_capture() {
    let mut c = grid(3, 2);
    for _ in 0..4 {
        c = apply_transform(c, Transform::Rotate90);
    }
    assert_eq!((c.width, c.height), (3, 2));
    assert_eq!(c.xrgb_buffer, vec![0, 1, 2, 3, 4, 5]);
}

#[test]
fn every_transform_permutes_the_pixels() {
    let all = [
        Transform::Rotate90,
        Transform::Rotate180,
        Transform::Rotate270,
        Transform::Flipped,
        Transform::Flipped90,
        Transform::Flipped180,
        Transform::Flipped270,
    ];
    for t in all {
        let mut c = grid(4, 3);
        c.xrgb_buffer.push(77);
        let mut px = apply_transform(c, t).xrgb_buffer;
        px.sort();
        assert_eq!(px, (0..12).collect::<Vec<u32>>());
    }
}
