use recto::presets::{
    apply_margin, apply_preset, auto_detect_presets, delete_preset, fit_crop_to_image,
    margin_control_enabled, new_preset_from_page, oriented_size, preset_locked, preset_ref_counts,
    set_page_crop, set_preset_locked, status_label, sync_preset_from_drag,
};
use recto::project::{make_preset_name, CropBox, CropPreset, Page, Project};

fn page(path: &str, rotation: u16, crop: Option<CropBox>, preset: Option<usize>) -> Page {
    Page { path: path.to_string(), rotation, crop, crop_preset: preset }
}

fn preset(name: &str, w: u32, h: u32, locked: bool) -> CropPreset {
    CropPreset { name: name.to_string(), w, h, locked }
}

fn cb(x: u32, y: u32, w: u32, h: u32) -> CropBox {
    CropBox { x, y, w, h }
}

fn sizes(p: &Project) -> Vec<(String, u32, u32, bool)> {
    p.crop_presets.iter().map(|c| (c.name.clone(), c.w, c.h, c.locked)).collect()
}

fn refs(p: &Project) -> Vec<(Option<usize>, Option<CropBox>)> {
    p.pages.iter().map(|pg| (pg.crop_preset, pg.crop)).collect()
}

#[test]
fn preset_names() {
    assert_eq!(make_preset_name(0), "Preset 1");
    assert_eq!(make_preset_name(9), "Preset 10");
}

#[test]
fn oriented_size_turns_quarter_rotations() {
    assert_eq!(oriented_size((300, 200), 0), (300, 200));
    assert_eq!(oriented_size((300, 200), 90), (200, 300));
    assert_eq!(oriented_size((300, 200), 180), (300, 200));
    assert_eq!(oriented_size((300, 200), 270), (200, 300));
    assert_eq!(oriented_size((300, 200), 450), (200, 300));
}

#[test]
fn auto_detect_groups_by_size_most_used_first() {
    let mut p = Project {
        pages: vec![
            page("a", 0, None, None),
            page("b", 0, None, None),
            page("c", 90, None, None),
            page("d", 0, None, None),
            page("e", 0, None, None),
        ],
        crop_presets: vec![],
    };
    // a: 100x200, b: 300x400, c: 400x300 turned to 300x400, d: unknown, e: 300x400.
    let dims = vec![(100, 200), (300, 400), (400, 300), (0, 50), (300, 400)];
    auto_detect_presets(&mut p, &dims);
    assert_eq!(
        sizes(&p),
        vec![("Preset 1".to_string(), 300, 400, false), ("Preset 2".to_string(), 100, 200, false)]
    );
    assert_eq!(
        refs(&p),
        vec![
            (Some(1), Some(cb(0, 0, 100, 200))),
            (Some(0), Some(cb(0, 0, 300, 400))),
            (Some(0), Some(cb(0, 0, 300, 400))),
            (None, None),
            (Some(0), Some(cb(0, 0, 300, 400))),
        ]
    );
}

#[test]
fn auto_detect_ties_keep_first_seen_size_first() {
    let mut p = Project {
        pages: vec![page("a", 0, None, None), page("b", 0, None, None)],
        crop_presets: vec![],
    };
    auto_detect_presets(&mut p, &vec![(50, 60), (70, 80)]);
    assert_eq!(
        sizes(&p),
        vec![("Preset 1".to_string(), 50, 60, false), ("Preset 2".to_string(), 70, 80, false)]
    );
}

#[test]
fn auto_detect_does_nothing_when_presets_exist() {
    let mut p = Project {
        pages: vec![page("a", 0, None, None)],
        crop_presets: vec![preset("Preset 1", 10, 10, false)],
    };
    auto_detect_presets(&mut p, &vec![(100, 100)]);
    assert_eq!(sizes(&p), vec![("Preset 1".to_string(), 10, 10, false)]);
    assert_eq!(refs(&p), vec![(None, None)]);
}

#[test]
fn auto_detect_missing_dims_leaves_pages_alone() {
    let mut p = Project { pages: vec![page("a", 0, None, None), page("b", 0, None, None)], crop_presets: vec![] };
    auto_detect_presets(&mut p, &vec![(100, 100)]);
    assert_eq!(sizes(&p), vec![("Preset 1".to_string(), 100, 100, false)]);
    assert_eq!(refs(&p), vec![(Some(0), Some(cb(0, 0, 100, 100))), (None, None)]);
}

#[test]
fn ref_counts_and_locks() {
    let p = Project {
        pages: vec![
            page("a", 0, None, Some(0)),
            page("b", 0, None, Some(0)),
            page("c", 0, None, Some(2)),
            page("d", 0, None, Some(7)),
        ],
        crop_presets: vec![preset("Preset 1", 1, 1, true), preset("Preset 2", 1, 1, false), preset("Preset 3", 1, 1, false)],
    };
    assert_eq!(preset_ref_counts(&p), vec![2, 0, 1]);
    assert!(preset_locked(&p, 0));
    assert!(!preset_locked(&p, 2));
    assert!(!preset_locked(&p, 3)); // refers to a missing preset
    assert!(!preset_locked(&p, 9)); // no such page
}

#[test]
fn delete_preset_fixes_references_and_renames() {
    let mut p = Project {
        pages: vec![
            page("a", 0, Some(cb(1, 1, 5, 5)), Some(0)),
            page("b", 0, Some(cb(2, 2, 6, 6)), Some(1)),
            page("c", 0, Some(cb(3, 3, 7, 7)), Some(2)),
            page("d", 0, Some(cb(4, 4, 8, 8)), None),
        ],
        crop_presets: vec![preset("Preset 1", 5, 5, false), preset("Preset 2", 6, 6, true), preset("Preset 3", 7, 7, false)],
    };
    delete_preset(&mut p, 1);
    assert_eq!(
        sizes(&p),
        vec![("Preset 1".to_string(), 5, 5, false), ("Preset 2".to_string(), 7, 7, false)]
    );
    assert_eq!(
        refs(&p),
        vec![
            (Some(0), Some(cb(1, 1, 5, 5))),
            (None, None),
            (Some(1), Some(cb(3, 3, 7, 7))),
            (None, Some(cb(4, 4, 8, 8))),
        ]
    );
}

#[test]
fn delete_missing_preset_changes_nothing() {
    let mut p = Project { pages: vec![page("a", 0, None, Some(0))], crop_presets: vec![preset("Preset 1", 5, 5, false)] };
    delete_preset(&mut p, 4);
    assert_eq!(sizes(&p), vec![("Preset 1".to_string(), 5, 5, false)]);
    assert_eq!(refs(&p), vec![(Some(0), None)]);
}

#[test]
fn fit_crop_moves_back_inside() {
    assert_eq!(fit_crop_to_image(cb(90, 10, 20, 20), 100, 100), cb(80, 10, 20, 20));
    assert_eq!(fit_crop_to_image(cb(5, 5, 200, 20), 100, 100), cb(0, 5, 200, 20));
    assert_eq!(fit_crop_to_image(cb(500, 500, 20, 20), 0, 0), cb(500, 500, 20, 20));
    // Fitting twice is fitting once.
    let once = fit_crop_to_image(cb(95, 97, 30, 10), 100, 100);
    assert_eq!(fit_crop_to_image(once, 100, 100), once);
}

#[test]
fn apply_preset_to_selection() {
    let mut p = Project {
        pages: vec![
            page("a", 0, Some(cb(90, 5, 10, 10)), None),
            page("b", 0, None, None),
            page("c", 0, Some(cb(1, 1, 1, 1)), None),
        ],
        crop_presets: vec![preset("Preset 1", 30, 20, false)],
    };
    let first = apply_preset(&mut p, &vec![7, 0, 1], 0, 30, 20, 100, 100);
    assert_eq!(first, Some(cb(70, 5, 30, 20)));
    assert_eq!(
        refs(&p),
        vec![
            (Some(0), Some(cb(70, 5, 30, 20))),
            (Some(0), Some(cb(0, 0, 30, 20))),
            (None, Some(cb(1, 1, 1, 1))),
        ]
    );
    // Applying again changes nothing.
    let again = apply_preset(&mut p, &vec![7, 0, 1], 0, 30, 20, 100, 100);
    assert_eq!(again, first);
    assert_eq!(p.pages[0].crop, Some(cb(70, 5, 30, 20)));
}

#[test]
fn apply_preset_without_targets_does_nothing() {
    let mut p = Project { pages: vec![page("a", 0, None, None)], crop_presets: vec![preset("Preset 1", 3, 3, false)] };
    assert_eq!(apply_preset(&mut p, &vec![], 0, 3, 3, 10, 10), None);
    assert_eq!(refs(&p), vec![(None, None)]);
}

#[test]
fn set_crop_of_a_page() {
    let mut p = Project { pages: vec![page("a", 0, None, Some(0))], crop_presets: vec![] };
    set_page_crop(&mut p, 0, Some(cb(1, 2, 3, 4)));
    assert_eq!(refs(&p), vec![(Some(0), Some(cb(1, 2, 3, 4)))]);
    set_page_crop(&mut p, 5, None);
    assert_eq!(refs(&p), vec![(Some(0), Some(cb(1, 2, 3, 4)))]);
}

#[test]
fn drag_resizes_unlocked_preset_group() {
    let mut p = Project {
        pages: vec![
            page("a", 0, Some(cb(1, 1, 10, 10)), Some(0)),
            page("b", 0, Some(cb(5, 6, 10, 10)), Some(0)),
            page("c", 0, None, Some(0)),
            page("d", 0, Some(cb(0, 0, 3, 3)), Some(1)),
        ],
        crop_presets: vec![preset("Preset 1", 10, 10, false), preset("Preset 2", 3, 3, false)],
    };
    sync_preset_from_drag(&mut p, 0, 40, 30);
    assert_eq!(sizes(&p)[0], ("Preset 1".to_string(), 40, 30, false));
    assert_eq!(
        refs(&p),
        vec![
            (Some(0), Some(cb(1, 1, 40, 30))),
            (Some(0), Some(cb(5, 6, 40, 30))),
            (Some(0), None),
            (Some(1), Some(cb(0, 0, 3, 3))),
        ]
    );
}

#[test]
fn drag_leaves_locked_preset_alone() {
    let mut p = Project {
        pages: vec![page("a", 0, Some(cb(1, 1, 50, 50)), Some(0)), page("b", 0, Some(cb(5, 6, 10, 10)), Some(0))],
        crop_presets: vec![preset("Preset 1", 10, 10, true)],
    };
    sync_preset_from_drag(&mut p, 0, 50, 50);
    assert_eq!(sizes(&p), vec![("Preset 1".to_string(), 10, 10, true)]);
    assert_eq!(p.pages[1].crop, Some(cb(5, 6, 10, 10)));
}

#[test]
fn new_preset_from_cropped_and_uncropped_pages() {
    let mut p = Project {
        pages: vec![page("a", 0, Some(cb(7, 8, 40, 30)), None), page("b", 0, None, None)],
        crop_presets: vec![],
    };
    assert_eq!(new_preset_from_page(&mut p, 0, 500, 500), Some(cb(0, 0, 40, 30)));
    assert_eq!(new_preset_from_page(&mut p, 1, 0, 600), Some(cb(0, 0, 1, 600)));
    assert_eq!(new_preset_from_page(&mut p, 9, 10, 10), None);
    assert_eq!(
        sizes(&p),
        vec![("Preset 1".to_string(), 40, 30, false), ("Preset 2".to_string(), 1, 600, false)]
    );
    assert_eq!(refs(&p), vec![(Some(0), Some(cb(0, 0, 40, 30))), (Some(1), Some(cb(0, 0, 1, 600)))]);
}

#[test]
fn margin_grows_preset_and_recentres_crops() {
    let mut p = Project {
        pages: vec![
            page("a", 0, Some(cb(10, 10, 20, 20)), Some(0)),
            page("b", 0, Some(cb(2, 90, 20, 20)), Some(0)),
            page("c", 0, Some(cb(3, 3, 5, 5)), None),
        ],
        crop_presets: vec![preset("Preset 1", 20, 20, false)],
    };
    let r = apply_margin(&mut p, Some(0), 5, 100, 100);
    assert_eq!(sizes(&p), vec![("Preset 1".to_string(), 30, 30, false)]);
    assert_eq!(r, Some(cb(5, 5, 30, 30)));
    assert_eq!(p.pages[1].crop, Some(cb(0, 70, 30, 30)));
    assert_eq!(p.pages[2].crop, Some(cb(3, 3, 5, 5)));
    // Shrinking never goes below one pixel.
    let r = apply_margin(&mut p, Some(0), -100, 100, 100);
    assert_eq!(sizes(&p), vec![("Preset 1".to_string(), 1, 1, false)]);
    assert_eq!(r, Some(cb(99, 99, 1, 1)));
}

#[test]
fn margin_ignored_for_locked_or_missing_preset() {
    let mut p = Project {
        pages: vec![page("a", 0, Some(cb(10, 10, 20, 20)), Some(0)), page("b", 0, None, None)],
        crop_presets: vec![preset("Preset 1", 20, 20, true)],
    };
    assert_eq!(apply_margin(&mut p, Some(0), 5, 100, 100), None);
    assert_eq!(apply_margin(&mut p, Some(1), 5, 100, 100), None);
    assert_eq!(apply_margin(&mut p, None, 5, 100, 100), None);
    assert_eq!(sizes(&p), vec![("Preset 1".to_string(), 20, 20, true)]);
    assert_eq!(margin_control_enabled(&p, Some(0)), Some(false));
    assert_eq!(margin_control_enabled(&p, Some(1)), Some(false));
    assert_eq!(margin_control_enabled(&p, None), None);
    p.crop_presets[0].locked = false;
    assert_eq!(margin_control_enabled(&p, Some(0)), Some(true));
}

#[test]
fn status_line_texts() {
    let p = Project {
        pages: vec![
            page("a", 0, Some(cb(4, 5, 120, 80)), Some(0)),
            page("b", 0, None, None),
            page("c", 0, Some(cb(0, 0, 1, 2)), Some(1)),
        ],
        crop_presets: vec![preset("Preset 1", 120, 80, true), preset("Preset 2", 1, 2, false)],
    };
    assert_eq!(
        status_label(&p, Some(0)),
        "Page 1/3 | Preset: Preset 1 (120\u{d7}80 \u{1f512}) | Crop: 120\u{d7}80 @ (4, 5)"
    );
    assert_eq!(status_label(&p, Some(1)), "Page 2/3");
    assert_eq!(
        status_label(&p, Some(2)),
        "Page 3/3 | Preset: Preset 2 (1\u{d7}2 \u{1f513}) | Crop: 1\u{d7}2 @ (0, 0)"
    );
    assert_eq!(status_label(&p, None), "No page selected");
    assert_eq!(status_label(&p, Some(3)), "No page selected");
}

#[test]
fn lock_toggle_changes_only_the_flag() {
    let mut p = Project {
        pages: vec![page("a", 0, Some(cb(1, 1, 5, 5)), Some(0))],
        crop_presets: vec![preset("Preset 1", 5, 5, false), preset("Preset 2", 6, 6, false)],
    };
    set_preset_locked(&mut p, 1, true);
    assert_eq!(
        sizes(&p),
        vec![("Preset 1".to_string(), 5, 5, false), ("Preset 2".to_string(), 6, 6, true)]
    );
    set_preset_locked(&mut p, 1, false);
    set_preset_locked(&mut p, 7, true);
    assert_eq!(
        sizes(&p),
        vec![("Preset 1".to_string(), 5, 5, false), ("Preset 2".to_string(), 6, 6, false)]
    );
    assert_eq!(refs(&p), vec![(Some(0), Some(cb(1, 1, 5, 5)))]);
}
