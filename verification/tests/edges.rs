use std::io::Write;

use flate2::write::ZlibEncoder;
use kitty_graphics::animation::handle_frame;
use kitty_graphics::apc_parser::{ApcParser, ApcParserResult, DEFAULT_MAX_SIZE};
use kitty_graphics::cell_size::{build_cell_size_response, build_xtsmgraphics_cell_size_response, pixels_to_cells};
use kitty_graphics::chunked::{ChunkAssembler, ChunkResult};
use kitty_graphics::command::{Compression as CmdCompression, KittyAction, KittyCommand};
use kitty_graphics::delete::handle_delete;
use kitty_graphics::dispatcher::dispatch_kitty_apc;
use kitty_graphics::lifecycle::build_delete_all_passthrough;
use kitty_graphics::memory::build_eviction_delete_apc;
use kitty_graphics::passthrough::build_passthrough_apc;
use kitty_graphics::payload::{decode_kitty_payload, Compression, DecodeError};
use kitty_graphics::placeholder::{build_placeholder_cell, KITTY_PLACEHOLDER_CHAR};
use kitty_graphics::placement::{handle_place, PlaceError, MAX_DIMENSION};
use kitty_graphics::resize::build_resize_delete_apc;
use kitty_graphics::response::parse_kitty_response;
use kitty_graphics::scroll_integration::{cleanup_evicted_images, extract_image_ids_from_lines};
use kitty_graphics::store::{ImageFormat, KittyImageStore, KittyPlacement};
use kitty_graphics::transmit::handle_transmit;

fn placement(id: u32, z: i32) -> KittyPlacement {
    KittyPlacement {
        placement_id: id,
        columns: None,
        rows: None,
        source_x: None,
        source_y: None,
        source_width: None,
        source_height: None,
        cell_offset_x: 0,
        cell_offset_y: 0,
        z_index: z,
        virtual_placement: false,
    }
}

#[test]
fn apc_payload_keeps_inner_escapes() {
    let mut parser = ApcParser::new();
    let results: Vec<_> = b"\x1b_Ga\x1bb\x1b\x1b\x1b\\".iter().map(|&b| parser.advance(b)).collect();
    assert_eq!(*results.last().unwrap(), ApcParserResult::Complete(b"a\x1bb\x1b\x1b".to_vec()));
}

#[test]
fn apc_oversized_payload_is_aborted() {
    let mut parser = ApcParser::new();
    for &b in b"\x1b_G" {
        assert_eq!(parser.advance(b), ApcParserResult::Collecting);
    }
    for _ in 0..DEFAULT_MAX_SIZE {
        assert_eq!(parser.advance(b'a'), ApcParserResult::Collecting);
    }
    match parser.advance(b'a') {
        ApcParserResult::Aborted(bytes) => assert_eq!(bytes.len(), DEFAULT_MAX_SIZE + 1),
        other => panic!("expected an abort, got a {:?}", std::mem::discriminant(&other)),
    }
    assert_eq!(parser.advance(b'z'), ApcParserResult::PassThrough(b'z'));
}

#[test]
fn command_rejects_invalid_utf8_and_bad_numbers() {
    let err = KittyCommand::parse(b"a=T,i=\xff").unwrap_err();
    assert!(err.starts_with("invalid UTF-8 in control data: "));
    assert!(KittyCommand::parse(b"i=abc").is_err());
    assert!(KittyCommand::parse(b"i=4294967296").is_err());
    assert!(KittyCommand::parse(b"a=X").is_err());
    let cmd = KittyCommand::parse(b"i=+7,z=-2147483648;").unwrap();
    assert_eq!(cmd.image_id, Some(7));
    assert_eq!(cmd.z_index, Some(i32::MIN));
    assert!(cmd.payload.is_empty());
}

#[test]
fn payload_errors_carry_their_message() {
    match decode_kitty_payload(b"!!", Compression::Uncompressed) {
        Err(e @ DecodeError::InvalidBase64(_)) => assert!(e.message().starts_with("invalid base64: ")),
        _ => panic!("expected invalid base64"),
    }
    let not_zlib = base64::encode(b"plain bytes, not zlib");
    match decode_kitty_payload(not_zlib.as_bytes(), Compression::Zlib) {
        Err(e @ DecodeError::DecompressionFailed(_)) => {
            assert!(e.message().starts_with("decompression failed: "))
        },
        _ => panic!("expected a decompression failure"),
    }
}

#[test]
fn transmit_zlib_failure_is_ebadf() {
    let mut store = KittyImageStore::new();
    let mut cmd = KittyCommand::default();
    cmd.image_id = Some(4);
    cmd.compression = CmdCompression::Zlib;
    let raw = base64::encode(b"not compressed");
    let response = handle_transmit(&cmd, raw.as_bytes(), &mut store);
    let text = String::from_utf8_lossy(&response);
    assert!(text.starts_with("\x1b_Gi=4;EBADF:decompression failed: "));
    assert!(store.get(4).is_none());
}

#[test]
fn transmit_with_placement_fields() {
    let mut store = KittyImageStore::new();
    let mut cmd = KittyCommand::default();
    cmd.image_id = Some(9);
    cmd.placement_id = Some(3);
    cmd.pixel_offset_x = Some(2);
    cmd.z_index = Some(-1);
    cmd.unicode_placeholder = true;
    let mut encoder = ZlibEncoder::new(Vec::new(), flate2::Compression::default());
    encoder.write_all(b"zz").unwrap();
    cmd.compression = CmdCompression::Zlib;
    let raw = base64::encode(&encoder.finish().unwrap());
    let response = handle_transmit(&cmd, raw.as_bytes(), &mut store);
    assert_eq!(response, b"\x1b_Gi=9;OK\x1b\\".to_vec());
    let image = store.get(9).unwrap();
    assert_eq!(image.data, b"zz".to_vec());
    let p = image.placements.get(&3).unwrap();
    assert_eq!((p.cell_offset_x, p.cell_offset_y, p.z_index, p.virtual_placement), (2, 0, -1, true));
}

#[test]
fn frame_number_overflow_is_refused() {
    let mut store = KittyImageStore::new();
    store.store(Some(1), ImageFormat::Png, vec![0]);
    let mut cmd = KittyCommand::default();
    cmd.action = Some(KittyAction::Frame);
    cmd.image_id = Some(1);
    cmd.payload = base64::encode(b"f").into_bytes();
    cmd.rows = Some(u32::MAX);
    assert_eq!(handle_frame(&cmd, &mut store), b"\x1b_Gi=1;OK\x1b\\".to_vec());
    cmd.rows = None;
    assert_eq!(
        handle_frame(&cmd, &mut store),
        b"\x1b_Gi=1;EINVAL:frame number out of range\x1b\\".to_vec()
    );
    assert_eq!(store.get(1).unwrap().frames.len(), 1);
    assert_eq!(store.total_memory_bytes(), 2);
}

#[test]
fn place_refuses_oversized_grids() {
    let mut store = KittyImageStore::new();
    store.store(Some(1), ImageFormat::Png, vec![0]);
    let mut cmd = KittyCommand::default();
    cmd.image_id = Some(1);
    cmd.columns = Some(MAX_DIMENSION + 1);
    assert_eq!(handle_place(&cmd, &store), Err(PlaceError::InvalidDimensions));
    cmd.columns = Some(MAX_DIMENSION);
    cmd.rows = Some(MAX_DIMENSION + 1);
    assert_eq!(handle_place(&cmd, &store), Err(PlaceError::InvalidDimensions));
    assert_eq!(PlaceError::ImageNotFound(5).message(), "image not found: 5");
    assert_eq!(PlaceError::InvalidDimensions.message(), "invalid placement dimensions");
    cmd.columns = Some(2);
    cmd.rows = Some(2);
    let out = handle_place(&cmd, &store).unwrap();
    let (text, fg) = build_placeholder_cell(1, 1, 0);
    assert_eq!(out.cells[1][0].text, text);
    assert_eq!(out.cells[1][0].fg_rgb, fg);
    assert_eq!(text, format!("{}\u{0306}\u{0305}", KITTY_PLACEHOLDER_CHAR));
}

#[test]
fn delete_by_depth_keeps_images_without_placements() {
    let mut store = KittyImageStore::new();
    store.store(Some(1), ImageFormat::Png, vec![0]);
    store.store(Some(2), ImageFormat::Png, vec![0]);
    store.add_placement(2, placement(1, 4));
    let mut cmd = KittyCommand::default();
    cmd.delete_target = Some(kitty_graphics::command::DeleteTarget::ByZIndex);
    cmd.z_index = Some(4);
    let result = handle_delete(&cmd, &mut store, 0, 0);
    assert_eq!(result.removed_image_ids, vec![2]);
    assert_eq!(result.removed_placement_ids, vec![(2, 1)]);
    assert!(store.get(1).is_some());
}

#[test]
fn chunk_cleanup_keeps_recent_and_completes_later() {
    let mut assembler = ChunkAssembler::new();
    let mut cmd = KittyCommand::default();
    cmd.image_id = Some(2);
    assembler.add_chunk(&cmd, b"a", true);
    assembler.cleanup_stale(3600);
    match assembler.add_chunk(&cmd, b"b", false) {
        ChunkResult::Complete(Some(_), p) => assert_eq!(p, b"ab".to_vec()),
        _ => panic!("expected completion"),
    }
    assembler.add_chunk(&cmd, b"c", true);
    assembler.cleanup_stale(0);
    match assembler.add_chunk(&cmd, b"d", false) {
        ChunkResult::Complete(None, p) => assert_eq!(p, b"d".to_vec()),
        _ => panic!("expected a fresh transmission"),
    }
}

#[test]
fn dispatch_uses_first_chunk_keys() {
    let mut store = KittyImageStore::new();
    let mut assembler = ChunkAssembler::new();
    let raw = base64::encode(b"chunked image");
    let (a, b) = raw.split_at(8);
    let first = format!("a=t,f=24,i=77,m=1;{}", a);
    let last = format!("i=77,q=2;{}", b);
    let r1 = dispatch_kitty_apc(first.as_bytes(), &mut store, &mut assembler, 0, 0);
    assert!(r1.response.is_empty() && r1.passthrough_apc.is_empty());
    let r2 = dispatch_kitty_apc(last.as_bytes(), &mut store, &mut assembler, 0, 0);
    assert_eq!(r2.response, b"\x1b_Gi=77;OK\x1b\\".to_vec());
    let image = store.get(77).unwrap();
    assert_eq!(image.data, b"chunked image".to_vec());
    assert_eq!(image.format, ImageFormat::Rgb);
    assert!(image.placements.is_empty());
}

#[test]
fn encoders_give_exact_bytes() {
    assert_eq!(build_cell_size_response(7, 15), b"\x1b[6;15;7t".to_vec());
    assert_eq!(build_xtsmgraphics_cell_size_response(9, 18), b"\x1b[?2;0;9S\x1b[?3;0;18S".to_vec());
    assert_eq!(build_delete_all_passthrough(), b"\x1b_Ga=d,d=A\x1b\\".to_vec());
    assert_eq!(build_eviction_delete_apc(4294967295), b"\x1b_Ga=d,d=I,i=4294967295\x1b\\".to_vec());
    assert_eq!(build_resize_delete_apc(0, 10), b"\x1b_Ga=d,d=P,i=0,p=10\x1b\\".to_vec());
    assert_eq!(build_passthrough_apc(b"a=T;x;y"), b"\x1b_Ga=T,q=2;x;y\x1b\\".to_vec());
    assert_eq!(build_passthrough_apc(b""), b"\x1b_G,q=2\x1b\\".to_vec());
    assert_eq!(pixels_to_cells(0, 8), 0);
    assert_eq!(pixels_to_cells(17, 8), 3);
    assert_eq!(pixels_to_cells(u32::MAX - 8, 8), 536870911);
}

#[test]
fn response_parser_edges() {
    assert_eq!(parse_kitty_response(b"i=+5;m"), Some((5, "m".to_string())));
    assert_eq!(parse_kitty_response(b"q=1,i=3,i=4;m;n"), Some((3, "m;n".to_string())));
    assert_eq!(parse_kitty_response(b"q=1,i=x,i=4;m"), None);
    assert_eq!(parse_kitty_response(b"i=4"), None);
    assert_eq!(parse_kitty_response(b"i=4;\xff"), None);
    assert_eq!(parse_kitty_response(b"i=4294967296;m"), None);
}

#[test]
fn scroll_cleanup_and_extraction_edges() {
    let mut store = KittyImageStore::new();
    store.store(Some(3), ImageFormat::Png, vec![0; 3]);
    store.store(Some(1), ImageFormat::Png, vec![0; 1]);
    store.store(Some(2), ImageFormat::Png, vec![0; 2]);
    store.add_placement(2, placement(1, 0));
    assert_eq!(cleanup_evicted_images(&mut store, &[1, 2, 3, 1]), vec![3, 1]);
    assert_eq!(store.total_memory_bytes(), 2);
    let lines = vec![vec![(KITTY_PLACEHOLDER_CHAR, (0, 0, 0)), (KITTY_PLACEHOLDER_CHAR, (0, 1, 0))]];
    assert_eq!(extract_image_ids_from_lines(&lines), vec![256]);
}

#[test]
fn clones_keep_their_contents() {
    let mut store = KittyImageStore::new();
    store.store(Some(1), ImageFormat::Png, vec![0]);
    let mut cmd = KittyCommand::default();
    cmd.image_id = Some(1);
    cmd.columns = Some(2);
    let out = handle_place(&cmd, &store).unwrap();
    assert_eq!(out.clone(), out);
    assert_eq!(out.cells[0][1].clone(), out.cells[0][1]);

    let mut assembler = ChunkAssembler::new();
    let mut chunk = KittyCommand::default();
    chunk.image_id = Some(5);
    assembler.add_chunk(&chunk, b"ab", true);
    let mut copy = assembler.clone();
    match copy.add_chunk(&chunk, b"c", false) {
        ChunkResult::Complete(Some(_), p) => assert_eq!(p, b"abc".to_vec()),
        _ => panic!("expected completion"),
    }
    assert_eq!(assembler.pending_count(), 1);
    assert_eq!(copy.pending_count(), 0);
}
