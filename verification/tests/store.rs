use kitty_graphics::store::{ImageFormat, KittyImageStore, KittyPlacement};

fn make_placement(id: u32) -> KittyPlacement {
    KittyPlacement {
        placement_id: id,
        columns: None,
        rows: None,
        source_x: None,
        source_y: None,
        source_width: None,
        source_height: None,
        cell_offset_x: 0,
        cell_offset_y: 0,
        z_index: 0,
        virtual_placement: false,
    }
}

#[test]
fn test_store_and_get() {
    let mut store = KittyImageStore::new();
    let data = vec![1, 2, 3, 4];
    let id = store.store(Some(42), ImageFormat::Png, data.clone());
    assert_eq!(id, 42);
    let image = store.get(42).unwrap();
    assert_eq!(image.id, 42);
    assert_eq!(image.data, data);
    assert_eq!(image.format, ImageFormat::Png);
}

#[test]
fn test_auto_id_assignment() {
    let mut store = KittyImageStore::new();
    let id1 = store.store(None, ImageFormat::Rgba, vec![10, 20]);
    assert!(id1 > 0);
    let id2 = store.store(Some(0), ImageFormat::Rgb, vec![30, 40]);
    assert!(id2 > 0);
    assert_ne!(id1, id2);
    assert!(store.get(id1).is_some());
    assert!(store.get(id2).is_some());
}

#[test]
fn test_remove_clears_memory() {
    let mut store = KittyImageStore::new();
    store.store(Some(1), ImageFormat::Png, vec![0; 50]);
    assert_eq!(store.total_memory_bytes(), 50);
    assert!(store.remove(1));
    assert_eq!(store.total_memory_bytes(), 0);
    assert!(store.get(1).is_none());
}

#[test]
fn test_remove_all() {
    let mut store = KittyImageStore::new();
    store.store(Some(1), ImageFormat::Png, vec![0; 10]);
    store.store(Some(2), ImageFormat::Rgb, vec![0; 20]);
    store.store(Some(3), ImageFormat::Rgba, vec![0; 30]);
    assert_eq!(store.image_count(), 3);
    store.remove_all();
    assert_eq!(store.image_count(), 0);
    assert_eq!(store.total_memory_bytes(), 0);
}

#[test]
fn test_add_placement() {
    let mut store = KittyImageStore::new();
    store.store(Some(5), ImageFormat::Png, vec![0; 10]);
    let placement = make_placement(1);
    assert!(store.add_placement(5, placement));
    let image = store.get(5).unwrap();
    assert_eq!(image.placements.len(), 1);
    assert!(image.placements.contains_key(&1));

    // Adding to nonexistent image returns false
    assert!(!store.add_placement(999, make_placement(2)));
}

#[test]
fn test_memory_tracking() {
    let mut store = KittyImageStore::new();
    store.store(Some(1), ImageFormat::Rgba, vec![0; 100]);
    assert_eq!(store.total_memory_bytes(), 100);
}
