use kitty_graphics::cell_size::{build_cell_size_response, build_xtsmgraphics_cell_size_response, pixels_to_cells};

#[test]
fn test_build_cell_size_response_format() {
    let response = build_cell_size_response(8, 16);
    let response_str = String::from_utf8(response).unwrap();

    // Verify format: \x1b[6;<height>;<width>t
    assert!(response_str.starts_with("\x1b[6;"));
    assert!(response_str.ends_with("t"));
    assert!(response_str.contains("16;8"));
}

#[test]
fn test_pixels_to_cells_exact() {
    // 160px / 8px = 20 cells exactly
    let cells = pixels_to_cells(160, 8);
    assert_eq!(cells, 20);
}

#[test]
fn test_pixels_to_cells_ceiling() {
    // 161px / 8px = 20.125 → 21 cells (ceiling)
    let cells = pixels_to_cells(161, 8);
    assert_eq!(cells, 21);
}

#[test]
fn test_pixels_to_cells_zero_cell_size() {
    // Avoid divide by zero
    let cells = pixels_to_cells(160, 0);
    assert_eq!(cells, 0);
}

#[test]
fn test_pixels_to_cells_small_pixel_dim() {
    // 1px / 8px = 0.125 → 1 cell (ceiling)
    let cells = pixels_to_cells(1, 8);
    assert_eq!(cells, 1);
}

#[test]
fn test_build_xtsmgraphics_response_format() {
    let response = build_xtsmgraphics_cell_size_response(8, 16);
    let response_str = String::from_utf8(response).unwrap();

    // Verify format contains both width and height responses
    assert!(response_str.contains("\x1b[?2;0;8S"));
    assert!(response_str.contains("\x1b[?3;0;16S"));
}

#[test]
fn test_build_xtsmgraphics_response_different_dimensions() {
    let response = build_xtsmgraphics_cell_size_response(10, 20);
    let response_str = String::from_utf8(response).unwrap();

    assert!(response_str.contains("10"));
    assert!(response_str.contains("20"));
}

#[test]
fn test_pixels_to_cells_large_dimensions() {
    // 1920px / 8px = 240 cells
    let cells = pixels_to_cells(1920, 8);
    assert_eq!(cells, 240);
}

#[test]
fn test_pixels_to_cells_height_calculation() {
    // 384px / 16px = 24 cells
    let cells = pixels_to_cells(384, 16);
    assert_eq!(cells, 24);
}
