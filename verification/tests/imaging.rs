use recto::imaging::{crop_region, overlay_image_dims, pack_rgb, pixbuf_to_dynamic_image};
use recto::project::CropBox;

#[test]
fn pixbuf_to_image_roundtrip() {
    // A 10 x 10 RGB buffer whose rows are padded to 32 bytes.
    let src = vec![0u8; 32 * 10];
    let img = pixbuf_to_dynamic_image(&src, 10, 10, 32, false);
    assert_eq!(img.width(), 10);
    assert_eq!(img.height(), 10);
}

#[test]
fn pixbuf_to_image_keeps_pixels_and_drops_alpha() {
    // 2 x 1 RGBA, stride 8.
    let src = vec![1u8, 2, 3, 255, 4, 5, 6, 128];
    let img = pixbuf_to_dynamic_image(&src, 2, 1, 8, true);
    let rgb = img.as_rgb8().expect("rgb image");
    assert_eq!(rgb.as_raw(), &vec![1u8, 2, 3, 4, 5, 6]);
}

#[test]
fn pack_rgb_skips_row_padding() {
    // 2 x 2 RGB with stride 8 (two padding bytes per row).
    let src = vec![1u8, 2, 3, 4, 5, 6, 99, 99, 7, 8, 9, 10, 11, 12, 99, 99];
    let out = pack_rgb(&src, 2, 2, 8, false);
    assert_eq!(out, vec![1u8, 2, 3, 4, 5, 6, 7, 8, 9, 10, 11, 12]);
}

#[test]
fn pack_rgb_drops_alpha_bytes() {
    let src = vec![1u8, 2, 3, 0, 4, 5, 6, 0];
    assert_eq!(pack_rgb(&src, 2, 1, 8, true), vec![1u8, 2, 3, 4, 5, 6]);
}

#[test]
fn pack_rgb_empty_image() {
    assert_eq!(pack_rgb(&[], 0, 0, 0, false), Vec::<u8>::new());
}

#[test]
fn crop_region_inside_image() {
    let c = CropBox { x: 10, y: 20, w: 30, h: 40 };
    assert_eq!(crop_region(c, 100, 100), (10, 20, 30, 40));
}

#[test]
fn crop_region_clamped_to_image() {
    let c = CropBox { x: 90, y: 150, w: 30, h: 40 };
    // x stays, width cut to 10; y moves to the last row, height cut to 1.
    assert_eq!(crop_region(c, 100, 100), (90, 99, 10, 1));
}

#[test]
fn overlay_dims_use_base_size_turned() {
    let c = CropBox { x: 0, y: 0, w: 5, h: 5 };
    assert_eq!(overlay_image_dims(300, 200, 0, c), (300, 200));
    assert_eq!(overlay_image_dims(300, 200, 90, c), (200, 300));
    assert_eq!(overlay_image_dims(300, 200, 450, c), (200, 300));
    assert_eq!(overlay_image_dims(300, 200, 180, c), (300, 200));
}

#[test]
fn overlay_dims_fall_back_to_crop_extent() {
    let c = CropBox { x: 10, y: 20, w: 30, h: 40 };
    assert_eq!(overlay_image_dims(0, 200, 0, c), (40, 60));
    let empty = CropBox { x: 0, y: 0, w: 0, h: 0 };
    assert_eq!(overlay_image_dims(0, 0, 0, empty), (1, 1));
}
