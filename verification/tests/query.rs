use kitty_graphics::command::KittyCommand;
use kitty_graphics::query::{build_kitty_response, handle_query};
use kitty_graphics::store::{ImageFormat, KittyImageStore};

#[test]
fn test_build_kitty_response_format() {
    let response = build_kitty_response(31, "OK");

    // Check starts with ESC + _G
    assert_eq!(response[0], 0x1B);
    assert_eq!(response[1], b'_');
    assert_eq!(response[2], b'G');

    // Check ends with ESC + \
    assert_eq!(response[response.len() - 2], 0x1B);
    assert_eq!(response[response.len() - 1], 0x5C);

    // Check contains the message
    let response_str = String::from_utf8_lossy(&response);
    assert!(response_str.contains("i=31"));
    assert!(response_str.contains("OK"));
}

#[test]
fn test_query_existing_image() {
    let mut store = KittyImageStore::new();
    store.store(Some(42), ImageFormat::Png, vec![1, 2, 3]);

    let mut cmd = KittyCommand::default();
    cmd.image_id = Some(42);
    cmd.quiet = 0;

    let response = handle_query(&cmd, &store);

    assert!(!response.is_empty());
    let response_str = String::from_utf8_lossy(&response);
    assert!(response_str.contains("OK"));
    assert!(response_str.contains("i=42"));
}

#[test]
fn test_query_nonexistent_image() {
    let store = KittyImageStore::new();

    let mut cmd = KittyCommand::default();
    cmd.image_id = Some(999);
    cmd.quiet = 0;

    let response = handle_query(&cmd, &store);

    assert!(!response.is_empty());
    let response_str = String::from_utf8_lossy(&response);
    assert!(response_str.contains("ENOENT"));
    assert!(response_str.contains("i=999"));
}

#[test]
fn test_capability_query_no_image_id() {
    let store = KittyImageStore::new();

    let mut cmd = KittyCommand::default();
    cmd.image_id = None;
    cmd.quiet = 0;

    let response = handle_query(&cmd, &store);

    assert!(!response.is_empty());
    let response_str = String::from_utf8_lossy(&response);
    assert!(response_str.contains("OK"));
    assert!(response_str.contains("i=0"));
}

#[test]
fn query_test_quiet_2_suppresses_all() {
    let mut store = KittyImageStore::new();
    store.store(Some(1), ImageFormat::Png, vec![1, 2, 3]);

    let mut cmd = KittyCommand::default();
    cmd.image_id = Some(1);
    cmd.quiet = 2;

    let response = handle_query(&cmd, &store);

    assert!(response.is_empty());
}

#[test]
fn test_quiet_1_suppresses_ok_for_existing() {
    let mut store = KittyImageStore::new();
    store.store(Some(5), ImageFormat::Png, vec![1, 2, 3]);

    let mut cmd = KittyCommand::default();
    cmd.image_id = Some(5);
    cmd.quiet = 1;

    let response = handle_query(&cmd, &store);

    // Should suppress OK for existing image
    assert!(response.is_empty());
}

#[test]
fn test_quiet_1_sends_error_for_missing() {
    let store = KittyImageStore::new();

    let mut cmd = KittyCommand::default();
    cmd.image_id = Some(999);
    cmd.quiet = 1;

    let response = handle_query(&cmd, &store);

    // Should send error even with q=1
    assert!(!response.is_empty());
    let response_str = String::from_utf8_lossy(&response);
    assert!(response_str.contains("ENOENT"));
}

#[test]
fn test_response_format_with_different_ids() {
    for id in &[0, 1, 42, 999, 4294967295u32] {
        let response = build_kitty_response(*id, "OK");
        let response_str = String::from_utf8_lossy(&response);
        assert!(response_str.contains(&format!("i={}", id)));
    }
}

#[test]
fn test_response_format_with_different_messages() {
    for msg in &["OK", "ENOENT:image not found", "ERROR:test"] {
        let response = build_kitty_response(1, msg);
        let response_str = String::from_utf8_lossy(&response);
        assert!(response_str.contains(msg));
    }
}
