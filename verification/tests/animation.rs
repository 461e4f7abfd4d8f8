use kitty_graphics::animation::{handle_animate, handle_frame};
use kitty_graphics::command::{KittyAction, KittyCommand};
use kitty_graphics::store::{ImageFormat, KittyImageStore};
use kitty_graphics::transmit::build_kitty_response;

/// Helper: base64-encode test data.
fn b64(data: &[u8]) -> Vec<u8> {
    base64::encode(data).into_bytes()
}

/// Helper: create a store with one image pre-loaded.
fn store_with_image(id: u32) -> KittyImageStore {
    let mut store = KittyImageStore::new();
    store.store(Some(id), ImageFormat::Png, vec![0xDE, 0xAD]);
    store
}

/// Helper: create a frame command for the given image ID.
fn frame_cmd(image_id: u32, payload: &[u8]) -> KittyCommand {
    let mut cmd = KittyCommand::default();
    cmd.action = Some(KittyAction::Frame);
    cmd.image_id = Some(image_id);
    cmd.payload = b64(payload);
    cmd
}

// ---- handle_frame tests ----

#[test]
fn frame_added_to_existing_image() {
    let mut store = store_with_image(42);
    let cmd = frame_cmd(42, b"frame pixel data");

    let response = handle_frame(&cmd, &mut store);

    assert_eq!(response, build_kitty_response(42, "OK"));
    let image = store.get(42).unwrap();
    assert_eq!(image.frames.len(), 1);
    assert_eq!(image.frames[0].data, b"frame pixel data");
}

#[test]
fn frame_on_nonexistent_image_returns_enoent() {
    let mut store = KittyImageStore::new();
    let cmd = frame_cmd(999, b"data");

    let response = handle_frame(&cmd, &mut store);

    let resp_str = String::from_utf8_lossy(&response);
    assert!(resp_str.contains("ENOENT"));
    assert!(resp_str.contains("i=999"));
}

#[test]
fn multiple_frames_stored_in_order() {
    let mut store = store_with_image(10);

    for i in 0..3u8 {
        let cmd = frame_cmd(10, &[i; 4]);
        handle_frame(&cmd, &mut store);
    }

    let image = store.get(10).unwrap();
    assert_eq!(image.frames.len(), 3);
    // Auto-assigned frame numbers: 1, 2, 3
    assert_eq!(image.frames[0].frame_number, 1);
    assert_eq!(image.frames[1].frame_number, 2);
    assert_eq!(image.frames[2].frame_number, 3);
    // Data matches
    assert_eq!(image.frames[0].data, vec![0u8; 4]);
    assert_eq!(image.frames[1].data, vec![1u8; 4]);
    assert_eq!(image.frames[2].data, vec![2u8; 4]);
}

#[test]
fn frame_with_explicit_frame_number_and_gap() {
    let mut store = store_with_image(20);
    let mut cmd = frame_cmd(20, b"px");
    cmd.rows = Some(5); // r=5 → frame_number
    cmd.z_index = Some(100); // z=100 → gap_ms

    handle_frame(&cmd, &mut store);

    let image = store.get(20).unwrap();
    assert_eq!(image.frames[0].frame_number, 5);
    assert_eq!(image.frames[0].gap_ms, 100);
}

#[test]
fn frame_payload_base64_decoded_correctly() {
    let mut store = store_with_image(30);
    let original = b"\x00\x01\x02\xFF\xFE\xFD";
    let cmd = frame_cmd(30, original);

    handle_frame(&cmd, &mut store);

    let image = store.get(30).unwrap();
    assert_eq!(image.frames[0].data, original.to_vec());
}

#[test]
fn frame_invalid_base64_returns_ebadf() {
    let mut store = store_with_image(40);
    let mut cmd = KittyCommand::default();
    cmd.action = Some(KittyAction::Frame);
    cmd.image_id = Some(40);
    cmd.payload = b"!!!invalid-base64!!!".to_vec(); // raw, not b64-encoded

    let response = handle_frame(&cmd, &mut store);

    let resp_str = String::from_utf8_lossy(&response);
    assert!(resp_str.contains("EBADF"));
}

#[test]
fn frame_quiet_1_suppresses_ok() {
    let mut store = store_with_image(50);
    let mut cmd = frame_cmd(50, b"data");
    cmd.quiet = 1;

    let response = handle_frame(&cmd, &mut store);

    assert!(response.is_empty());
    // Frame should still be stored
    assert_eq!(store.get(50).unwrap().frames.len(), 1);
}

#[test]
fn frame_quiet_2_suppresses_all() {
    let mut store = store_with_image(51);

    // Suppress OK
    let mut cmd = frame_cmd(51, b"data");
    cmd.quiet = 2;
    let response = handle_frame(&cmd, &mut store);
    assert!(response.is_empty());

    // Suppress error too
    let mut store2 = KittyImageStore::new();
    let mut cmd2 = frame_cmd(999, b"data");
    cmd2.quiet = 2;
    let response2 = handle_frame(&cmd2, &mut store2);
    assert!(response2.is_empty());
}

#[test]
fn frame_missing_image_id_returns_einval() {
    let mut store = store_with_image(1);
    let mut cmd = KittyCommand::default();
    cmd.action = Some(KittyAction::Frame);
    cmd.payload = b64(b"data");
    // image_id is None

    let response = handle_frame(&cmd, &mut store);

    let resp_str = String::from_utf8_lossy(&response);
    assert!(resp_str.contains("EINVAL"));
}

#[test]
fn frame_negative_gap_clamped_to_zero() {
    let mut store = store_with_image(60);
    let mut cmd = frame_cmd(60, b"px");
    cmd.z_index = Some(-50); // Negative gap → clamped to 0

    handle_frame(&cmd, &mut store);

    let image = store.get(60).unwrap();
    assert_eq!(image.frames[0].gap_ms, 0);
}

// ---- handle_animate tests ----

#[test]
fn animate_existing_image_returns_ok() {
    let mut store = store_with_image(70);
    let mut cmd = KittyCommand::default();
    cmd.action = Some(KittyAction::Animate);
    cmd.image_id = Some(70);

    let response = handle_animate(&cmd, &mut store);

    assert_eq!(response, build_kitty_response(70, "OK"));
}

#[test]
fn animate_nonexistent_image_returns_enoent() {
    let mut store = KittyImageStore::new();
    let mut cmd = KittyCommand::default();
    cmd.action = Some(KittyAction::Animate);
    cmd.image_id = Some(999);

    let response = handle_animate(&cmd, &mut store);

    let resp_str = String::from_utf8_lossy(&response);
    assert!(resp_str.contains("ENOENT"));
}

#[test]
fn animate_missing_image_id_returns_einval() {
    let mut store = KittyImageStore::new();
    let mut cmd = KittyCommand::default();
    cmd.action = Some(KittyAction::Animate);

    let response = handle_animate(&cmd, &mut store);

    let resp_str = String::from_utf8_lossy(&response);
    assert!(resp_str.contains("EINVAL"));
}

#[test]
fn animate_quiet_1_suppresses_ok() {
    let mut store = store_with_image(80);
    let mut cmd = KittyCommand::default();
    cmd.action = Some(KittyAction::Animate);
    cmd.image_id = Some(80);
    cmd.quiet = 1;

    let response = handle_animate(&cmd, &mut store);

    assert!(response.is_empty());
}
