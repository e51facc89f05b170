use recto::types::{PageId, PageIdSource};
use recto::chips::{clears_editor_after_delete, crop_view_page, lock_button_look, preset_chips, preset_color_rgb};
use recto::detect::{apply_detected_clusters, detection_or_default, place_detected_crop, placement_in_range, DetectedCluster};
use recto::export::{
    chosen_prefix, export_precheck, export_report, export_rows, file_suffix, format_of,
    format_selected, pdf_encoding_selected, pdf_file_name, png_compression_changed, quality_changed,
    ExportFormat, ExportRefusal, ExportRows, ExportSettings, PdfEncoding,
};
use recto::handles::{drag_on_press, hover_handle, Corner, Edge, Handle};
use recto::latest::{arrange_preview_page, preview_target, PreviewTarget, RequestDedup};
use recto::panes::{decrement_pending, DividerUpdate, PanedSync, MIN_GRID_W};
use recto::project::{CropBox, CropPreset, Page, Project};
use recto::session::{
    after_choice, close_decision, event_marks_dirty, project_file_name, title_subtitle, window_title, AfterChoice,
    CloseDecision, DiscardChoice, ProjectEvent,
};

#[test]
fn latest_request_wins() {
    let (tx, rx) = async_channel::unbounded::<(u64, &str)>();
    let mut d = RequestDedup::new(tx);
    let a = d.send("first");
    let b = d.send("second");
    assert_eq!((a, b), (1, 2));
    assert!(!d.is_current(a));
    assert!(d.is_current(b));
    d.send_dummy();
    assert!(!d.is_current(b));
    assert!(d.is_current(3));
    assert_eq!(rx.try_recv().unwrap(), (1, "first"));
    assert_eq!(rx.try_recv().unwrap(), (2, "second"));
    assert!(rx.try_recv().is_err());
}

#[test]
fn send_to_closed_channel_still_numbers() {
    let (tx, rx) = async_channel::unbounded::<(u64, u8)>();
    drop(rx);
    let mut d = RequestDedup::new(tx);
    assert_eq!(d.send(7), 1);
    assert!(d.is_current(1));
}

#[test]
fn preview_targets() {
    assert_eq!(preview_target(None, 3), PreviewTarget::Nothing);
    assert_eq!(preview_target(Some(1), 3), PreviewTarget::Page(1));
    assert_eq!(preview_target(Some(3), 3), PreviewTarget::Unchanged);
}

#[test]
fn divider_is_clamped_and_shared() {
    let mut s = PanedSync::new();
    assert_eq!(s.position(), 560);
    assert_eq!(
        s.divider_moved(900, 1000),
        DividerUpdate::Propagate { position: 1000 - MIN_GRID_W, correct_moved: true }
    );
    // Moves caused by the update itself are ignored.
    assert_eq!(s.divider_moved(10, 1000), DividerUpdate::Ignore);
    s.finish_update();
    assert_eq!(s.position(), 825);
    assert_eq!(s.divider_moved(300, 1000), DividerUpdate::Propagate { position: 300, correct_moved: false });
    s.finish_update();
    // A paned too narrow for the grid is not clamped.
    assert_eq!(s.divider_moved(150, 100), DividerUpdate::Propagate { position: 150, correct_moved: false });
    s.finish_update();
    assert_eq!(s.on_map(150), None);
    assert_eq!(s.on_map(400), Some(150));
}

#[test]
fn pending_counter_never_underflows() {
    let mut c: usize = 2;
    assert!(!decrement_pending(&mut c));
    assert!(decrement_pending(&mut c));
    assert_eq!(c, 0);
    assert!(decrement_pending(&mut c));
    assert_eq!(c, 0);
}

#[test]
fn handle_cursors() {
    assert_eq!(Handle::Corner(Corner::NW).cursor_name(), "nwse-resize");
    assert_eq!(Handle::Corner(Corner::SE).cursor_name(), "nwse-resize");
    assert_eq!(Handle::Corner(Corner::NE).cursor_name(), "nesw-resize");
    assert_eq!(Handle::Corner(Corner::SW).cursor_name(), "nesw-resize");
    assert_eq!(Handle::Edge(Edge::N).cursor_name(), "ns-resize");
    assert_eq!(Handle::Edge(Edge::W).cursor_name(), "ew-resize");
    assert_eq!(Handle::Move.cursor_name(), "move");
    assert_eq!(Handle::NewBox.cursor_name(), "crosshair");
}

#[test]
fn press_picks_handle() {
    let corner = Some(Handle::Corner(Corner::NE));
    assert_eq!(drag_on_press(corner, true, false, false), corner);
    assert_eq!(drag_on_press(None, true, true, false), Some(Handle::Move));
    assert_eq!(drag_on_press(None, true, false, false), Some(Handle::NewBox));
    assert_eq!(drag_on_press(corner, false, true, false), Some(Handle::NewBox));
}

#[test]
fn locked_box_only_moves() {
    let corner = Some(Handle::Corner(Corner::NE));
    assert_eq!(drag_on_press(corner, true, true, true), None);
    assert_eq!(drag_on_press(None, true, true, true), Some(Handle::Move));
    assert_eq!(drag_on_press(None, true, false, true), None);
    assert_eq!(hover_handle(corner, false, true), None);
    assert_eq!(hover_handle(corner, true, true), Some(Handle::Move));
    assert_eq!(hover_handle(corner, false, false), corner);
    assert_eq!(hover_handle(None, true, false), Some(Handle::Move));
    assert_eq!(hover_handle(None, false, false), None);
}

#[test]
fn dirty_tracking_and_titles() {
    assert!(event_marks_dirty(ProjectEvent::PagesAdded));
    assert!(event_marks_dirty(ProjectEvent::PresetsChanged));
    assert!(!event_marks_dirty(ProjectEvent::ProjectLoaded));
    assert!(!event_marks_dirty(ProjectEvent::ProjectCleared));
    assert_eq!(title_subtitle(true), "Unsaved changes");
    assert_eq!(title_subtitle(false), "");
    assert_eq!(window_title("book.recto"), "book.recto \u{2014} Recto");
}

#[test]
fn closing_asks_only_with_unsaved_changes() {
    assert_eq!(close_decision(false, false), CloseDecision::Proceed);
    assert_eq!(close_decision(false, true), CloseDecision::AskFirst);
    assert_eq!(close_decision(true, true), CloseDecision::Proceed);
    assert_eq!(after_choice(DiscardChoice::Discard), AfterChoice::Continue);
    assert_eq!(after_choice(DiscardChoice::Save), AfterChoice::SaveThenContinue);
    assert_eq!(after_choice(DiscardChoice::Cancel), AfterChoice::Stay);
}

#[test]
fn export_rows_per_format() {
    let jpeg = export_rows(ExportFormat::Jpeg, PdfEncoding::Flate);
    assert_eq!(
        jpeg,
        ExportRows { pdf_encoding: false, prefix: true, pdf_name: false, pdf_metadata: false, quality: true, png_compression: false }
    );
    let pdf_flate = export_rows(ExportFormat::Pdf, PdfEncoding::Flate);
    assert_eq!(
        pdf_flate,
        ExportRows { pdf_encoding: true, prefix: false, pdf_name: true, pdf_metadata: true, quality: false, png_compression: false }
    );
    assert!(export_rows(ExportFormat::Pdf, PdfEncoding::Jpeg).quality);
    assert!(export_rows(ExportFormat::Png, PdfEncoding::Jpeg).png_compression);
    assert!(!export_rows(ExportFormat::Tiff, PdfEncoding::Jpeg).quality);
}

#[test]
fn export_suffixes_and_names() {
    assert_eq!(file_suffix(ExportFormat::Jpeg), Some("_01.jpg"));
    assert_eq!(file_suffix(ExportFormat::Png), Some("_01.png"));
    assert_eq!(file_suffix(ExportFormat::Tiff), Some("_01.tiff"));
    assert_eq!(file_suffix(ExportFormat::Pdf), None);
    assert_eq!(pdf_file_name("my_book"), "my_book.pdf");
    assert_eq!(chosen_prefix(ExportFormat::Pdf, "p".to_string(), "book".to_string()), "book");
    assert_eq!(chosen_prefix(ExportFormat::Png, "p".to_string(), "book".to_string()), "p");
}

#[test]
fn export_settings_edits() {
    assert_eq!(format_of(ExportSettings::Tiff), ExportFormat::Tiff);
    assert_eq!(format_of(ExportSettings::Pdf { encoding: PdfEncoding::Ccitt, quality: 3 }), ExportFormat::Pdf);
    assert_eq!(format_selected(ExportFormat::Jpeg, false, 85, 3), ExportSettings::Jpeg { quality: 85 });
    assert_eq!(format_selected(ExportFormat::Png, false, 85, 3), ExportSettings::Png { compression: 3 });
    assert_eq!(format_selected(ExportFormat::Tiff, true, 85, 3), ExportSettings::Tiff);
    assert_eq!(
        format_selected(ExportFormat::Pdf, false, 70, 3),
        ExportSettings::Pdf { encoding: PdfEncoding::Flate, quality: 70 }
    );
    assert_eq!(
        format_selected(ExportFormat::Pdf, true, 70, 3),
        ExportSettings::Pdf { encoding: PdfEncoding::Jpeg, quality: 70 }
    );
    assert_eq!(
        pdf_encoding_selected(PdfEncoding::Ccitt, 50),
        ExportSettings::Pdf { encoding: PdfEncoding::Ccitt, quality: 50 }
    );
    assert_eq!(quality_changed(ExportFormat::Jpeg, PdfEncoding::Flate, 60), Some(ExportSettings::Jpeg { quality: 60 }));
    assert_eq!(
        quality_changed(ExportFormat::Pdf, PdfEncoding::Jpeg, 60),
        Some(ExportSettings::Pdf { encoding: PdfEncoding::Jpeg, quality: 60 })
    );
    assert_eq!(quality_changed(ExportFormat::Pdf, PdfEncoding::Flate, 60), None);
    assert_eq!(quality_changed(ExportFormat::Png, PdfEncoding::Jpeg, 60), None);
    assert_eq!(png_compression_changed(ExportFormat::Png, 9), Some(ExportSettings::Png { compression: 9 }));
    assert_eq!(png_compression_changed(ExportFormat::Jpeg, 9), None);
}

#[test]
fn export_prechecks() {
    assert_eq!(export_precheck(0, "/out"), Err(ExportRefusal::NoPages));
    assert_eq!(export_precheck(0, ""), Err(ExportRefusal::NoPages));
    assert_eq!(export_precheck(3, ""), Err(ExportRefusal::NoOutputDir));
    assert_eq!(export_precheck(3, "/out"), Ok(()));
    assert_eq!(ExportRefusal::NoPages.message(), "No pages to export.\n");
    assert_eq!(ExportRefusal::NoOutputDir.message(), "Choose an output directory first.\n");
}

#[test]
fn export_report_lines() {
    let items = vec![(true, "p_01.jpg".to_string()), (false, "disk full".to_string()), (true, "p_03.jpg".to_string())];
    assert_eq!(
        export_report(&items),
        "\u{2713} p_01.jpg\n\u{2717} disk full\n\u{2713} p_03.jpg\n\nDone: 2/3 succeeded.\n"
    );
    assert_eq!(export_report(&vec![]), "\nDone: 0/0 succeeded.\n");
}

fn chip_project() -> Project {
    Project {
        pages: vec![
            Page { path: "a".to_string(), rotation: 0, crop: None, crop_preset: Some(1) },
            Page { path: "b".to_string(), rotation: 0, crop: None, crop_preset: None },
        ],
        crop_presets: (0..9)
            .map(|k| CropPreset { name: format!("Preset {}", k + 1), w: 10 + k, h: 20, locked: k == 1 })
            .collect(),
    }
}

#[test]
fn chips_for_presets() {
    let p = chip_project();
    let chips = preset_chips(&p, Some(0));
    assert_eq!(chips.len(), 9);
    assert_eq!(chips[0].label, "Preset 1");
    assert_eq!(chips[0].tooltip, "Preset 1 (10\u{d7}20)");
    assert!(!chips[0].active);
    assert!(chips[0].deletable);
    assert_eq!(chips[1].tooltip, "Preset 2 (11\u{d7}20)");
    assert!(chips[1].active);
    assert!(chips[1].locked);
    assert!(!chips[1].deletable);
    assert_eq!(chips[8].color_class, 0);
    assert_eq!(chips[3].color_class, 3);
    assert!(preset_chips(&p, Some(1)).iter().all(|c| !c.active));
    assert!(preset_chips(&p, None).iter().all(|c| !c.active));
}

#[test]
fn chip_lock_and_delete_effects() {
    assert_eq!(
        lock_button_look(true),
        ("changes-prevent-symbolic", "Locked \u{2014} drag won't change the preset size")
    );
    assert_eq!(
        lock_button_look(false),
        ("changes-allow-symbolic", "Unlocked \u{2014} drag updates the preset for all pages in this group")
    );
    let p = chip_project();
    assert!(!clears_editor_after_delete(&p, Some(0)));
    assert!(clears_editor_after_delete(&p, Some(1)));
    assert!(!clears_editor_after_delete(&p, Some(5)));
    assert!(!clears_editor_after_delete(&p, None));
}

#[test]
fn crop_view_entry_page() {
    assert_eq!(crop_view_page(Some(4), 10), (Some(4), false));
    assert_eq!(crop_view_page(None, 10), (Some(0), true));
    assert_eq!(crop_view_page(None, 0), (None, false));
}

#[test]
fn detected_crops_are_centred_and_kept_inside() {
    let d = CropBox { x: 100, y: 100, w: 200, h: 100 };
    // Centre (200, 150); a 100 x 50 preset starts at (150, 125).
    assert_eq!(place_detected_crop(d, 1000, 1000, 100, 50), CropBox { x: 150, y: 125, w: 100, h: 50 });
    // Near the border the crop is pushed back inside.
    let edge = CropBox { x: 950, y: 0, w: 50, h: 10 };
    assert_eq!(place_detected_crop(edge, 1000, 1000, 300, 300), CropBox { x: 700, y: 0, w: 300, h: 300 });
    // Sizes are cut to the image and never drop below one pixel; an axis of
    // unknown length (0) is not moved.
    assert_eq!(place_detected_crop(edge, 200, 0, 0, 5), CropBox { x: 200, y: 3, w: 1, h: 1 });
    assert_eq!(
        detection_or_default(None, 40, 0),
        (CropBox { x: 0, y: 0, w: 40, h: 0 }, 40, 1)
    );
    let found = (CropBox { x: 1, y: 2, w: 3, h: 4 }, 5, 6);
    assert_eq!(detection_or_default(Some(found), 40, 0), found);
}

#[test]
fn arrange_preview_pages() {
    assert_eq!(arrange_preview_page(Some(2), 3), Some(2));
    assert_eq!(arrange_preview_page(Some(3), 3), None);
    assert_eq!(arrange_preview_page(None, 3), None);
}

#[test]
fn preset_colours_cycle() {
    assert_eq!(preset_color_rgb(0), (0x35, 0x84, 0xe4));
    assert_eq!(preset_color_rgb(4), (0xed, 0x33, 0x3b));
    assert_eq!(preset_color_rgb(7), (0x98, 0x6a, 0x44));
    assert_eq!(preset_color_rgb(8), preset_color_rgb(0));
    assert_eq!(preset_color_rgb(13), preset_color_rgb(5));
}

#[test]
fn save_names_get_the_project_extension() {
    assert_eq!(project_file_name("book"), "book.recto");
    assert_eq!(project_file_name("book.recto"), "book.recto");
    assert_eq!(project_file_name("book.old"), "book.old");
    assert_eq!(project_file_name(".hidden"), ".hidden.recto");
    assert_eq!(project_file_name("book."), "book.");
}

#[test]
fn placement_range_check() {
    let d = CropBox { x: 100, y: 100, w: 200, h: 100 };
    assert!(placement_in_range(d, 1000, 1000, 100, 50));
    let far = CropBox { x: 0x7fff_fff0, y: 0, w: 0x100, h: 0 };
    assert!(!placement_in_range(far, 0, 0, 10, 10));
}

#[test]
fn detected_clusters_add_presets_and_assign_pages() {
    let mut p = Project {
        pages: (0..4)
            .map(|k| Page { path: format!("p{k}"), rotation: 0, crop: None, crop_preset: None })
            .collect(),
        crop_presets: vec![CropPreset { name: "Preset 1".to_string(), w: 1, h: 1, locked: false }],
    };
    let a = CropBox { x: 1, y: 2, w: 3, h: 4 };
    let b = CropBox { x: 5, y: 6, w: 7, h: 8 };
    let c = CropBox { x: 9, y: 9, w: 9, h: 9 };
    let clusters = vec![
        DetectedCluster {
            preset: CropPreset { name: "Preset 2".to_string(), w: 3, h: 4, locked: false },
            pages: vec![(0, a), (9, a), (2, a)],
        },
        DetectedCluster {
            preset: CropPreset { name: "Preset 3".to_string(), w: 7, h: 8, locked: false },
            pages: vec![(3, b), (2, c)],
        },
    ];
    apply_detected_clusters(&mut p, &clusters);
    let names: Vec<String> = p.crop_presets.iter().map(|c| c.name.clone()).collect();
    assert_eq!(names, vec!["Preset 1", "Preset 2", "Preset 3"]);
    let got: Vec<(Option<usize>, Option<CropBox>)> = p.pages.iter().map(|pg| (pg.crop_preset, pg.crop)).collect();
    assert_eq!(got, vec![(Some(1), Some(a)), (None, None), (Some(2), Some(c)), (Some(2), Some(b))]);
}

#[test]
fn page_ids_compare_by_number() {
    let mut s1 = PageIdSource::new();
    let mut s2 = PageIdSource::new();
    let a = PageId::new(&mut s1);
    let b = PageId::new(&mut s2);
    assert_eq!(a, b);
    assert_ne!(a, PageId::new(&mut s1));
    assert_ne!(a, PageId::default());
}
