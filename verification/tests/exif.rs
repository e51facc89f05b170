use recto::imaging::exif_corrected_dims;

#[test]
fn exif_orientation_portrait() {
    let dims = exif_corrected_dims((6000, 4000), 256, 384);
    assert_eq!(dims, (4000, 6000));
}

#[test]
fn exif_orientation_landscape() {
    let dims = exif_corrected_dims((6000, 4000), 384, 256);
    assert_eq!(dims, (6000, 4000));
}

#[test]
fn exif_zero_dims_fallback() {
    let dims = exif_corrected_dims((0, 0), 256, 256);
    assert_eq!(dims, (0, 0));
}

#[test]
fn exif_square_image() {
    let dims = exif_corrected_dims((4000, 4000), 256, 256);
    assert_eq!(dims, (4000, 4000));
}

#[test]
fn exif_zero_thumbnail_keeps_header_size() {
    assert_eq!(exif_corrected_dims((3000, 2000), 0, 200), (3000, 2000));
    assert_eq!(exif_corrected_dims((3000, 2000), 200, 0), (3000, 2000));
}

#[test]
fn exif_tie_keeps_header_orientation() {
    // A square thumbnail matches both orientations equally well.
    assert_eq!(exif_corrected_dims((3000, 2000), 100, 100), (3000, 2000));
}

#[test]
fn exif_negative_thumbnail_sizes_compare_by_magnitude() {
    assert_eq!(exif_corrected_dims((6000, 4000), -256, -384), (4000, 6000));
}
