use kitty_graphics::lifecycle::{build_delete_all_passthrough, cleanup_on_close, should_render_images};
use kitty_graphics::store::{ImageFormat, KittyImageStore};

fn make_store_with_images(ids: &[u32]) -> KittyImageStore {
    let mut store = KittyImageStore::new();
    for &id in ids {
        store.store(Some(id), ImageFormat::Png, vec![0; 10]);
    }
    store
}

#[test]
fn test_cleanup_on_close_empties_store() {
    let mut store = make_store_with_images(&[1, 2, 3]);
    assert_eq!(store.image_count(), 3);
    cleanup_on_close(&mut store);
    assert_eq!(store.image_count(), 0);
    assert_eq!(store.total_memory_bytes(), 0);
}

#[test]
fn test_cleanup_on_close_returns_correct_ids() {
    let mut store = make_store_with_images(&[10, 20, 30]);
    let mut removed = cleanup_on_close(&mut store);
    removed.sort();
    assert_eq!(removed, vec![10, 20, 30]);
}

#[test]
fn test_cleanup_on_close_empty_store() {
    let mut store = KittyImageStore::new();
    let removed = cleanup_on_close(&mut store);
    assert!(removed.is_empty());
    assert_eq!(store.image_count(), 0);
}

#[test]
fn test_build_delete_all_passthrough_format() {
    let data = build_delete_all_passthrough();
    // Must start with ESC _ G (APC graphics)
    assert!(data.starts_with(b"\x1b_G"));
    // Must end with ESC \ (ST)
    assert!(data.ends_with(b"\x1b\\"));
    // Must contain action=delete, delete=All
    let middle = &data[3..data.len() - 2];
    let middle_str = std::str::from_utf8(middle).unwrap();
    assert!(middle_str.contains("a=d"));
    assert!(middle_str.contains("d=A"));
}

#[test]
fn test_should_render_images_visible() {
    assert!(should_render_images(true));
}

#[test]
fn test_should_render_images_hidden() {
    assert!(!should_render_images(false));
}
