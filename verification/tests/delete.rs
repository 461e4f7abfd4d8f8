use kitty_graphics::command::{DeleteTarget, KittyCommand};
use kitty_graphics::delete::handle_delete;
use kitty_graphics::store::{ImageFormat, KittyImageStore, KittyPlacement};

use std::collections::HashSet;

fn make_placement(id: u32, z_index: i32) -> KittyPlacement {
    KittyPlacement {
        placement_id: id,
        columns: None,
        rows: None,
        source_x: None,
        source_y: None,
        source_width: None,
        source_height: None,
        cell_offset_x: 0,
        cell_offset_y: 0,
        z_index,
        virtual_placement: false,
    }
}

fn make_delete_cmd(
    target: Option<DeleteTarget>,
    image_id: Option<u32>,
    placement_id: Option<u32>,
    z_index: Option<i32>,
) -> KittyCommand {
    KittyCommand {
        delete_target: target,
        image_id,
        placement_id,
        z_index,
        ..KittyCommand::default()
    }
}

#[test]
fn kitty_delete_all_clears_store() {
    let mut store = KittyImageStore::new();
    store.store(Some(1), ImageFormat::Png, vec![0; 10]);
    store.store(Some(2), ImageFormat::Png, vec![0; 20]);
    store.store(Some(3), ImageFormat::Png, vec![0; 30]);

    let cmd = make_delete_cmd(Some(DeleteTarget::All), None, None, None);
    let result = handle_delete(&cmd, &mut store, 0, 0);

    assert_eq!(store.image_count(), 0);
    let ids: HashSet<u32> = result.removed_image_ids.into_iter().collect();
    assert_eq!(ids, [1, 2, 3].iter().copied().collect::<HashSet<u32>>());
}

#[test]
fn kitty_delete_all_empty_store_no_panic() {
    let mut store = KittyImageStore::new();
    let cmd = make_delete_cmd(Some(DeleteTarget::All), None, None, None);
    let result = handle_delete(&cmd, &mut store, 0, 0);

    assert!(result.removed_image_ids.is_empty());
    assert!(result.removed_placement_ids.is_empty());
    assert_eq!(store.image_count(), 0);
}

#[test]
fn kitty_delete_none_target_deletes_all() {
    let mut store = KittyImageStore::new();
    store.store(Some(5), ImageFormat::Png, vec![0; 10]);

    let cmd = make_delete_cmd(None, None, None, None);
    let result = handle_delete(&cmd, &mut store, 0, 0);

    assert_eq!(store.image_count(), 0);
    assert_eq!(result.removed_image_ids, vec![5]);
}

#[test]
fn kitty_delete_by_id_removes_specific_image() {
    let mut store = KittyImageStore::new();
    store.store(Some(10), ImageFormat::Png, vec![0; 10]);
    store.store(Some(42), ImageFormat::Png, vec![0; 20]);
    store.store(Some(99), ImageFormat::Png, vec![0; 30]);

    let cmd = make_delete_cmd(Some(DeleteTarget::ById), Some(42), None, None);
    let result = handle_delete(&cmd, &mut store, 0, 0);

    assert_eq!(result.removed_image_ids, vec![42]);
    assert_eq!(store.image_count(), 2);
    assert!(store.get(42).is_none());
    assert!(store.get(10).is_some());
    assert!(store.get(99).is_some());
}

#[test]
fn kitty_delete_by_id_no_image_id_returns_empty() {
    let mut store = KittyImageStore::new();
    store.store(Some(1), ImageFormat::Png, vec![0; 10]);

    let cmd = make_delete_cmd(Some(DeleteTarget::ById), None, None, None);
    let result = handle_delete(&cmd, &mut store, 0, 0);

    assert!(result.removed_image_ids.is_empty());
    assert_eq!(store.image_count(), 1);
}

#[test]
fn kitty_delete_by_id_nonexistent_returns_empty() {
    let mut store = KittyImageStore::new();
    store.store(Some(1), ImageFormat::Png, vec![0; 10]);

    let cmd = make_delete_cmd(Some(DeleteTarget::ById), Some(999), None, None);
    let result = handle_delete(&cmd, &mut store, 0, 0);

    assert!(result.removed_image_ids.is_empty());
    assert_eq!(store.image_count(), 1);
}

#[test]
fn kitty_delete_placement_keeps_image_with_other_placements() {
    let mut store = KittyImageStore::new();
    store.store(Some(5), ImageFormat::Png, vec![0; 10]);
    store.add_placement(5, make_placement(1, 0));
    store.add_placement(5, make_placement(2, 0));

    let cmd = make_delete_cmd(Some(DeleteTarget::ByPlacement), Some(5), Some(1), None);
    let result = handle_delete(&cmd, &mut store, 0, 0);

    assert!(result.removed_image_ids.is_empty()); // Image kept
    assert_eq!(result.removed_placement_ids, vec![(5, 1)]);
    assert_eq!(store.image_count(), 1);
    let img = store.get(5).unwrap();
    assert_eq!(img.placements.len(), 1);
    assert!(img.placements.contains_key(&2));
}

#[test]
fn kitty_delete_placement_removes_image_if_last() {
    let mut store = KittyImageStore::new();
    store.store(Some(5), ImageFormat::Png, vec![0; 10]);
    store.add_placement(5, make_placement(1, 0));

    let cmd = make_delete_cmd(Some(DeleteTarget::ByPlacement), Some(5), Some(1), None);
    let result = handle_delete(&cmd, &mut store, 0, 0);

    assert_eq!(result.removed_image_ids, vec![5]);
    assert_eq!(result.removed_placement_ids, vec![(5, 1)]);
    assert_eq!(store.image_count(), 0);
}

#[test]
fn kitty_delete_by_z_index_removes_matching_placements() {
    let mut store = KittyImageStore::new();
    store.store(Some(1), ImageFormat::Png, vec![0; 10]);
    store.add_placement(1, make_placement(10, 5)); // z=5
    store.add_placement(1, make_placement(11, 0)); // z=0
    store.add_placement(1, make_placement(12, 5)); // z=5

    store.store(Some(2), ImageFormat::Png, vec![0; 10]);
    store.add_placement(2, make_placement(20, 5)); // z=5 (only placement)

    let cmd = make_delete_cmd(Some(DeleteTarget::ByZIndex), None, None, Some(5));
    let result = handle_delete(&cmd, &mut store, 0, 0);

    // Image 1 should still exist (has placement 11 with z=0)
    assert!(store.get(1).is_some());
    let img1 = store.get(1).unwrap();
    assert_eq!(img1.placements.len(), 1);
    assert!(img1.placements.contains_key(&11));

    // Image 2 should be removed (all placements had z=5)
    assert!(store.get(2).is_none());
    assert!(result.removed_image_ids.contains(&2));
    assert!(!result.removed_image_ids.contains(&1));

    // Verify removed placements
    let removed_set: HashSet<(u32, u32)> = result.removed_placement_ids.into_iter().collect();
    assert!(removed_set.contains(&(1, 10)));
    assert!(removed_set.contains(&(1, 12)));
    assert!(removed_set.contains(&(2, 20)));
}

#[test]
fn kitty_delete_by_z_index_default_zero() {
    let mut store = KittyImageStore::new();
    store.store(Some(1), ImageFormat::Png, vec![0; 10]);
    store.add_placement(1, make_placement(1, 0)); // z=0
    store.add_placement(1, make_placement(2, 3)); // z=3

    // No z_index in cmd → defaults to 0
    let cmd = make_delete_cmd(Some(DeleteTarget::ByZIndex), None, None, None);
    let result = handle_delete(&cmd, &mut store, 0, 0);

    assert_eq!(result.removed_placement_ids, vec![(1, 1)]);
    assert!(result.removed_image_ids.is_empty()); // placement 2 still exists
    let img = store.get(1).unwrap();
    assert_eq!(img.placements.len(), 1);
    assert!(img.placements.contains_key(&2));
}

#[test]
fn kitty_delete_placement_missing_ids_returns_empty() {
    let mut store = KittyImageStore::new();
    store.store(Some(1), ImageFormat::Png, vec![0; 10]);

    // No image_id
    let cmd1 = make_delete_cmd(Some(DeleteTarget::ByPlacement), None, Some(1), None);
    let r1 = handle_delete(&cmd1, &mut store, 0, 0);
    assert!(r1.removed_placement_ids.is_empty());

    // No placement_id
    let cmd2 = make_delete_cmd(Some(DeleteTarget::ByPlacement), Some(1), None, None);
    let r2 = handle_delete(&cmd2, &mut store, 0, 0);
    assert!(r2.removed_placement_ids.is_empty());

    assert_eq!(store.image_count(), 1);
}

#[test]
fn kitty_delete_at_cursor_with_image_id() {
    let mut store = KittyImageStore::new();
    store.store(Some(1), ImageFormat::Png, vec![0; 10]);
    store.store(Some(2), ImageFormat::Png, vec![0; 20]);

    let cmd = make_delete_cmd(Some(DeleteTarget::AtCursor), Some(1), None, None);
    let result = handle_delete(&cmd, &mut store, 5, 10);

    assert_eq!(result.removed_image_ids, vec![1]);
    assert_eq!(store.image_count(), 1);
    assert!(store.get(2).is_some());
}

#[test]
fn kitty_delete_at_cursor_without_image_id_removes_all() {
    let mut store = KittyImageStore::new();
    store.store(Some(1), ImageFormat::Png, vec![0; 10]);
    store.store(Some(2), ImageFormat::Png, vec![0; 20]);

    let cmd = make_delete_cmd(Some(DeleteTarget::AtCursor), None, None, None);
    let result = handle_delete(&cmd, &mut store, 5, 10);

    assert_eq!(store.image_count(), 0);
    let ids: HashSet<u32> = result.removed_image_ids.into_iter().collect();
    assert!(ids.contains(&1));
    assert!(ids.contains(&2));
}
