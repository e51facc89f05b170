use recto::arrange::{
    can_move, drag_set, drop_insertion, drop_move, move_selection, reconcile_items, remove_pages,
    reorder_action_enabled, rotate_selected, rotated_degrees, rotation_after_delta, rotation_step,
    MoveTarget, RotationStep, INVALID_POSITION,
};
use recto::project::{CropPreset, Page, Project};

fn project(paths: &[&str]) -> Project {
    Project {
        pages: paths
            .iter()
            .map(|p| Page { path: p.to_string(), rotation: 0, crop: None, crop_preset: None })
            .collect(),
        crop_presets: vec![CropPreset { name: "Preset 1".to_string(), w: 1, h: 1, locked: false }],
    }
}

fn paths(p: &Project) -> Vec<String> {
    p.pages.iter().map(|pg| pg.path.clone()).collect()
}

#[test]
fn rotations_stay_in_range() {
    assert_eq!(rotation_after_delta(0, 90), 90);
    assert_eq!(rotation_after_delta(270, 90), 0);
    assert_eq!(rotation_after_delta(0, -90), 270);
    assert_eq!(rotation_after_delta(90, -450), 0);
    assert_eq!(rotated_degrees(180, 180), 0);
    assert_eq!(rotated_degrees(90, -180), 270);
}

#[test]
fn rotation_undone_by_opposite_turn() {
    for deg in [0u16, 90, 180, 270, 45] {
        for delta in [90i32, -90, 180, 270, 720] {
            assert_eq!(rotated_degrees(rotated_degrees(deg, delta), -delta), deg);
        }
    }
}

#[test]
fn rotation_steps() {
    assert_eq!(rotation_step(0), RotationStep::Keep);
    assert_eq!(rotation_step(90), RotationStep::Clockwise);
    assert_eq!(rotation_step(180), RotationStep::UpsideDown);
    assert_eq!(rotation_step(270), RotationStep::CounterClockwise);
    assert_eq!(rotation_step(450), RotationStep::Clockwise);
    assert_eq!(rotation_step(45), RotationStep::Keep);
}

#[test]
fn rotate_only_selected_pages() {
    let mut p = project(&["a", "b", "c"]);
    rotate_selected(&mut p, &vec![0, 2, 9], 90);
    rotate_selected(&mut p, &vec![2], 180);
    let r: Vec<u16> = p.pages.iter().map(|pg| pg.rotation).collect();
    assert_eq!(r, vec![90, 0, 270]);
    assert_eq!(p.crop_presets.len(), 1);
}

#[test]
fn remove_keeps_order_of_the_rest() {
    let mut p = project(&["a", "b", "c", "d", "e"]);
    remove_pages(&mut p, &vec![3, 1, 17]);
    assert_eq!(paths(&p), vec!["a", "c", "e"]);
    assert_eq!(p.crop_presets.len(), 1);
}

#[test]
fn remove_nothing() {
    let mut p = project(&["a", "b"]);
    remove_pages(&mut p, &vec![]);
    assert_eq!(paths(&p), vec!["a", "b"]);
}

#[test]
fn reorder_buttons() {
    let sel = vec![2u32, 3];
    let m = move_selection(&sel, 6, MoveTarget::Start).unwrap();
    assert_eq!((m.indices.clone(), m.before), (vec![2usize, 3], 0));
    assert_eq!(move_selection(&sel, 6, MoveTarget::Back).unwrap().before, 1);
    assert_eq!(move_selection(&sel, 6, MoveTarget::Forward).unwrap().before, 5);
    assert_eq!(move_selection(&sel, 6, MoveTarget::End).unwrap().before, 6);
    assert_eq!(move_selection(&vec![4u32, 5], 6, MoveTarget::Forward).unwrap().before, 6);
    assert_eq!(move_selection(&vec![0u32], 6, MoveTarget::Back).unwrap().before, 0);
    assert!(move_selection(&vec![], 6, MoveTarget::End).is_none());
}

#[test]
fn reorder_availability() {
    assert_eq!(can_move(&vec![0, 1], 3), (false, true));
    assert_eq!(can_move(&vec![1, 2], 3), (true, false));
    assert_eq!(can_move(&vec![], 3), (false, false));
    assert!(reorder_action_enabled(MoveTarget::Start, true, false));
    assert!(!reorder_action_enabled(MoveTarget::End, true, false));
    assert!(reorder_action_enabled(MoveTarget::Forward, false, true));
    assert!(!reorder_action_enabled(MoveTarget::Back, false, true));
}

#[test]
fn drag_carries_selection_or_single_page() {
    assert_eq!(drag_set(&vec![1, 4], 4), (vec![1usize, 4], false));
    assert_eq!(drag_set(&vec![1, 4], 2), (vec![2usize], true));
}

#[test]
fn drop_positions() {
    assert_eq!(drop_insertion(3, false), Some(3));
    assert_eq!(drop_insertion(3, true), Some(4));
    assert_eq!(drop_insertion(INVALID_POSITION, true), None);
    let m = drop_move(&vec![0, 2], 5).unwrap();
    assert_eq!((m.indices.clone(), m.before), (vec![0usize, 2], 5));
    assert!(drop_move(&vec![], 5).is_none());
}

#[test]
fn drops_that_change_nothing_are_discarded() {
    // A block at 2..=3 dropped in front of 2, 3 or 4 stays where it is.
    assert!(drop_move(&vec![2, 3], 2).is_none());
    assert!(drop_move(&vec![2, 3], 3).is_none());
    assert!(drop_move(&vec![2, 3], 4).is_none());
    // Elsewhere it moves.
    assert_eq!(drop_move(&vec![2, 3], 1).unwrap().before, 1);
    assert_eq!(drop_move(&vec![2, 3], 5).unwrap().before, 5);
    // A selection with a gap always moves.
    assert_eq!(drop_move(&vec![2, 4], 3).unwrap().indices, vec![2usize, 4]);
}

#[test]
fn reconcile_reuses_each_item_once() {
    let items: Vec<String> = ["a", "b", "a", "c"].iter().map(|s| s.to_string()).collect();
    let pages: Vec<String> = ["a", "a", "a", "c", "d"].iter().map(|s| s.to_string()).collect();
    assert_eq!(reconcile_items(&items, &pages), vec![Some(0), Some(2), None, Some(3), None]);
}
