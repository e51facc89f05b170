use recto::text::{
    added_images_message, decimal_string, deleted_pages_message, detected_presets_message,
    image_count_label, opened_project_message, progress_text, selected_count_label,
};
use recto::types::{AppError, PageId, PageIdSource, RequestId};

#[test]
fn decimal_strings() {
    assert_eq!(decimal_string(0), "0");
    assert_eq!(decimal_string(7), "7");
    assert_eq!(decimal_string(1234), "1234");
    assert_eq!(decimal_string(u64::MAX), "18446744073709551615");
}

#[test]
fn counted_messages_pluralise() {
    assert_eq!(added_images_message(1), "Added 1 image");
    assert_eq!(added_images_message(3), "Added 3 images");
    assert_eq!(added_images_message(0), "Added 0 images");
    assert_eq!(deleted_pages_message(1), "Deleted 1 page");
    assert_eq!(deleted_pages_message(12), "Deleted 12 pages");
    assert_eq!(opened_project_message(2), "Opened project with 2 pages");
    assert_eq!(opened_project_message(1), "Opened project with 1 page");
}

#[test]
fn detection_message() {
    assert_eq!(detected_presets_message(2, 9), "Detected 2 presets across 9 pages");
    assert_eq!(detected_presets_message(1, 1), "Detected 1 preset across 1 page");
}

#[test]
fn counters() {
    assert_eq!(image_count_label(1), "1 images");
    assert_eq!(image_count_label(42), "42 images");
    assert_eq!(selected_count_label(2), "2 selected");
    assert_eq!(progress_text(3, 10), "3/10");
}

#[test]
fn page_ids_are_fresh_and_increasing() {
    let mut src = PageIdSource::new();
    let a = PageId::new(&mut src);
    let b = PageId::new(&mut src);
    assert_eq!(a.as_u64(), 1);
    assert_eq!(b.as_u64(), 2);
    assert_ne!(a, b);
    assert_eq!(u64::from(b), 2);
    assert_eq!(b.to_string(), "2");
}

#[test]
fn request_ids_add_wrapping() {
    let r = RequestId::from_u64(5) + 3;
    assert_eq!(r.as_u64(), 8);
    let w = RequestId::from_u64(u64::MAX) + 2;
    assert_eq!(w.as_u64(), 1);
}

#[test]
fn app_error_messages() {
    assert_eq!(AppError::ProjectLoad(anyhow::Error::msg("x")).message(), "Failed to load project");
    assert_eq!(AppError::ProjectSave(anyhow::Error::msg("x")).message(), "Failed to save project");
    assert_eq!(AppError::Export(anyhow::Error::msg("x")).message(), "Failed to export");
}
