use kitty_graphics::response::{build_pane_response, parse_kitty_response};

#[test]
fn parse_kitty_response_valid_ok() {
    let payload = b"i=42;OK";
    let result = parse_kitty_response(payload);
    assert_eq!(result, Some((42, "OK".to_string())));
}

#[test]
fn parse_kitty_response_valid_enoent() {
    let payload = b"i=99;ENOENT:image not found";
    let result = parse_kitty_response(payload);
    assert_eq!(result, Some((99, "ENOENT:image not found".to_string())));
}

#[test]
fn parse_kitty_response_non_kitty_data() {
    let payload = b"this is not kitty data";
    let result = parse_kitty_response(payload);
    assert_eq!(result, None);
}

#[test]
fn parse_kitty_response_missing_image_id() {
    // Has semicolon but no i= key
    let payload = b"a=T;some data";
    let result = parse_kitty_response(payload);
    assert_eq!(result, None);
}

#[test]
fn parse_kitty_response_invalid_image_id() {
    let payload = b"i=notanumber;OK";
    let result = parse_kitty_response(payload);
    assert_eq!(result, None);
}

#[test]
fn parse_kitty_response_multiple_control_keys() {
    // Response with extra keys besides i=
    let payload = b"i=7,q=1;OK";
    let result = parse_kitty_response(payload);
    assert_eq!(result, Some((7, "OK".to_string())));
}

#[test]
fn build_pane_response_wraps_correctly() {
    let payload = b"i=42;OK";
    let result = build_pane_response(payload);
    // Should be: ESC _ G i=42;OK ESC \
    assert_eq!(result[0], 0x1B);
    assert_eq!(result[1], b'_');
    assert_eq!(result[2], b'G');
    assert_eq!(&result[3..10], b"i=42;OK");
    assert_eq!(result[10], 0x1B);
    assert_eq!(result[11], b'\\');
}

#[test]
fn build_pane_response_preserves_payload() {
    let payload = b"i=99;ENOENT:image not found";
    let result = build_pane_response(payload);
    // Verify the payload is preserved between ESC_G and ESC\
    assert_eq!(&result[3..result.len() - 2], payload);
}
