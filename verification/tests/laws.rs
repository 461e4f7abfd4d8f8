use kitty_graphics::passthrough::build_passthrough_apc;
use kitty_graphics::apc_parser::{ApcParser, ApcParserResult};
use kitty_graphics::chunked::{ChunkAssembler, ChunkResult};
use kitty_graphics::command::{DeleteTarget, KittyAction, KittyCommand};
use kitty_graphics::delete::handle_delete;
use kitty_graphics::memory::enforce_memory_limit;
use kitty_graphics::placeholder::{
    decode_row_col_diacritic, encode_row_col_diacritic, fg_color_to_image_id, image_id_to_fg_color,
};
use kitty_graphics::query::{build_kitty_response, handle_query};
use kitty_graphics::response::{build_pane_response, parse_kitty_response};
use kitty_graphics::store::{ImageFormat, KittyImageStore};
use kitty_graphics::transmit::handle_transmit;

fn feed(parser: &mut ApcParser, input: &[u8]) -> Vec<ApcParserResult> {
    input.iter().map(|&b| parser.advance(b)).collect()
}

fn emitted(results: &[ApcParserResult]) -> Vec<u8> {
    let mut out = Vec::new();
    for r in results {
        match r {
            ApcParserResult::PassThrough(b) => out.push(*b),
            ApcParserResult::Aborted(bytes) => out.extend_from_slice(bytes),
            ApcParserResult::Complete(p) => {
                out.extend_from_slice(b"\x1b_G");
                out.extend_from_slice(p);
                out.extend_from_slice(b"\x1b\\");
            },
            ApcParserResult::Collecting => {},
        }
    }
    out
}

#[test]
fn law_parser_loses_no_bytes() {
    let mut parser = ApcParser::new();
    let input = b"ab\x1b[31m\x1b_Gq=1;x\x1b\\\x1b_Zno\x1bcd\x1b\x1b_Gy\x1b\x1bz\x1b\\end";
    let results = feed(&mut parser, input);
    assert_eq!(emitted(&results), input.to_vec());
}

#[test]
fn law_parser_delivers_kitty_apc() {
    let mut parser = ApcParser::new();
    let results = feed(&mut parser, b"\x1b_Ga=q,i=1\x1b\\");
    let n = results.len();
    for r in &results[..n - 1] {
        assert_eq!(*r, ApcParserResult::Collecting);
    }
    assert_eq!(results[n - 1], ApcParserResult::Complete(b"a=q,i=1".to_vec()));
    assert_eq!(parser.advance(b'x'), ApcParserResult::PassThrough(b'x'));
}

#[test]
fn law_chunks_concatenate_in_order() {
    let mut assembler = ChunkAssembler::new();
    let mut first = KittyCommand::default();
    first.image_id = Some(3);
    first.action = Some(KittyAction::Transmit);
    let mut later = KittyCommand::default();
    later.image_id = Some(3);
    assert!(matches!(assembler.add_chunk(&first, b"ab", true), ChunkResult::Buffered));
    assert!(matches!(assembler.add_chunk(&later, b"", true), ChunkResult::Buffered));
    assert!(matches!(assembler.add_chunk(&later, b"cd", true), ChunkResult::Buffered));
    match assembler.add_chunk(&later, b"e", false) {
        ChunkResult::Complete(Some(cmd), payload) => {
            assert_eq!(cmd.action, Some(KittyAction::Transmit));
            assert_eq!(payload, b"abcde".to_vec());
        },
        _ => panic!("expected a complete transmission"),
    }
    assert_eq!(assembler.pending_count(), 0);
}

#[test]
fn law_zero_id_is_anonymous() {
    let mut assembler = ChunkAssembler::new();
    let mut none = KittyCommand::default();
    none.image_id = None;
    let mut zero = KittyCommand::default();
    zero.image_id = Some(0);
    assert!(matches!(assembler.add_chunk(&zero, b"x", true), ChunkResult::Buffered));
    assert!(matches!(assembler.add_chunk(&none, b"y", true), ChunkResult::Buffered));
    assert_eq!(assembler.pending_count(), 1);
    match assembler.add_chunk(&zero, b"z", false) {
        ChunkResult::Complete(Some(_), payload) => assert_eq!(payload, b"xyz".to_vec()),
        _ => panic!("expected a complete transmission"),
    }
}

#[test]
fn law_color_and_diacritic_roundtrips() {
    for id in [0u32, 1, 0xFF, 0x1234, 0xFFFFFF, 0x1000000, 0x12345678, u32::MAX] {
        let (r, g, b) = image_id_to_fg_color(id);
        assert_eq!(fg_color_to_image_id(r, g, b), id % 0x1000000);
    }
    for (r, g, b) in [(0u8, 0u8, 0u8), (1, 2, 3), (255, 255, 255)] {
        assert_eq!(image_id_to_fg_color(fg_color_to_image_id(r, g, b)), (r, g, b));
    }
    for v in [0u32, 5, 31, 32, 63, 1000, u32::MAX] {
        assert_eq!(decode_row_col_diacritic(encode_row_col_diacritic(v)), Some(v % 32));
    }
    assert_eq!(decode_row_col_diacritic('a'), None);
    assert_eq!(decode_row_col_diacritic('\u{0325}'), None);
}

#[test]
fn law_store_then_get() {
    let mut store = KittyImageStore::new();
    store.store(Some(1), ImageFormat::Png, vec![1, 1]);
    store.store(Some(2), ImageFormat::Rgb, vec![2]);
    let id = store.store(Some(1), ImageFormat::Rgba, vec![9, 9, 9]);
    assert_eq!(id, 1);
    let image = store.get(1).unwrap();
    assert_eq!(image.data, vec![9, 9, 9]);
    assert_eq!(image.format, ImageFormat::Rgba);
    assert_eq!(store.get(2).unwrap().data, vec![2]);
    assert_eq!(store.image_count(), 2);
    assert_eq!(store.total_memory_bytes(), 4);
    assert_eq!(store.all_image_ids(), vec![2, 1]);
}

#[test]
fn law_remove_then_get() {
    let mut store = KittyImageStore::new();
    store.store(Some(1), ImageFormat::Png, vec![1]);
    store.store(Some(2), ImageFormat::Png, vec![2, 2]);
    assert!(store.remove(1));
    assert!(store.get(1).is_none());
    assert_eq!(store.get(2).unwrap().data, vec![2, 2]);
    assert!(!store.remove(1));
}

#[test]
fn law_auto_ids_fresh() {
    let mut store = KittyImageStore::new();
    let a = store.store(None, ImageFormat::Png, vec![]);
    let b = store.store(Some(0), ImageFormat::Png, vec![]);
    let c = store.store(None, ImageFormat::Png, vec![]);
    assert_eq!((a, b, c), (1, 2, 3));
}

#[test]
fn law_auto_ids_increase_across_removals() {
    let mut store = KittyImageStore::new();
    let a = store.store(None, ImageFormat::Png, vec![1]);
    store.store(Some(50), ImageFormat::Png, vec![2]);
    assert!(store.remove(a));
    let b = store.store(None, ImageFormat::Png, vec![3]);
    store.remove_all();
    let c = store.store(Some(0), ImageFormat::Png, vec![4]);
    assert!(a < b && b < c);
    assert_eq!((a, b, c), (1, 2, 3));
}

#[test]
fn law_eviction_fits_limit() {
    let mut store = KittyImageStore::new();
    store.set_max_memory(25);
    store.store(Some(1), ImageFormat::Png, vec![0; 10]);
    store.store(Some(2), ImageFormat::Png, vec![0; 10]);
    store.store(Some(3), ImageFormat::Png, vec![0; 10]);
    store.store(Some(4), ImageFormat::Png, vec![0; 10]);
    let evicted = enforce_memory_limit(&mut store);
    assert_eq!(evicted, vec![1, 2]);
    assert_eq!(store.total_memory_bytes(), 20);
    assert!(enforce_memory_limit(&mut store).is_empty());
    store.set_max_memory(5);
    assert_eq!(enforce_memory_limit(&mut store), vec![3, 4]);
    assert_eq!(store.total_memory_bytes(), 0);
}

#[test]
fn law_transmit_quiet() {
    let payload = base64::encode(b"pixels").into_bytes();
    for quiet in 0u8..4 {
        let mut store = KittyImageStore::new();
        let mut cmd = KittyCommand::default();
        cmd.image_id = Some(8);
        cmd.quiet = quiet;
        let ok = handle_transmit(&cmd, &payload, &mut store);
        assert_eq!(store.get(8).unwrap().data, b"pixels".to_vec());
        if quiet == 0 {
            assert_eq!(ok, b"\x1b_Gi=8;OK\x1b\\".to_vec());
        } else {
            assert!(ok.is_empty());
        }
        let err = handle_transmit(&cmd, b"***", &mut store);
        if quiet >= 2 {
            assert!(err.is_empty());
        } else {
            assert!(String::from_utf8_lossy(&err).starts_with("\x1b_Gi=8;EBADF:invalid base64: "));
        }
    }
}

#[test]
fn law_transmit_then_query() {
    let mut store = KittyImageStore::new();
    let mut cmd = KittyCommand::default();
    cmd.action = Some(KittyAction::Transmit);
    let _ = handle_transmit(&cmd, base64::encode(b"img").as_bytes(), &mut store);
    let id = store.all_image_ids()[0];
    let mut query = KittyCommand::default();
    query.action = Some(KittyAction::Query);
    query.image_id = Some(id);
    assert_eq!(handle_query(&query, &store), build_kitty_response(id, "OK"));
}

#[test]
fn law_delete_then_query() {
    let mut store = KittyImageStore::new();
    store.store(Some(6), ImageFormat::Png, vec![1]);
    let mut del = KittyCommand::default();
    del.delete_target = Some(DeleteTarget::ById);
    del.image_id = Some(6);
    let result = handle_delete(&del, &mut store, 0, 0);
    assert_eq!(result.removed_image_ids, vec![6]);
    let mut query = KittyCommand::default();
    query.image_id = Some(6);
    query.quiet = 1;
    assert_eq!(handle_query(&query, &store), b"\x1b_Gi=6;ENOENT:image not found\x1b\\".to_vec());
}

#[test]
fn law_reply_roundtrip() {
    for (id, msg) in [(0u32, "OK"), (42, "ENOENT:image not found"), (u32::MAX, "x;y,i=3"), (7, "")] {
        let reply = build_kitty_response(id, msg);
        let payload = &reply[3..reply.len() - 2];
        assert_eq!(build_pane_response(payload), reply);
        assert_eq!(parse_kitty_response(payload), Some((id, msg.to_string())));
    }
}

#[test]
fn law_passthrough_parses_silenced() {
    for data in [&b"a=T,i=3,q=1;AAAA"[..], b"a=d,d=A", b";payload", b"", b"a=T,bad;x", b"i=\xff;x"] {
        let out = build_passthrough_apc(data);
        let inner = &out[3..out.len() - 2];
        let original = KittyCommand::parse(data);
        let silenced = KittyCommand::parse(inner);
        assert_eq!(original.is_ok(), silenced.is_ok());
        if let (Ok(a), Ok(b)) = (original, silenced) {
            assert_eq!(b.quiet, 2);
            assert_eq!((a.action, a.image_id, a.delete_target, a.payload), (b.action, b.image_id, b.delete_target, b.payload));
        }
    }
}

#[test]
fn law_auto_ids_increase() {
    let mut store = KittyImageStore::new();
    let mut last = 0;
    for i in 0..20u32 {
        let id = if i % 3 == 0 {
            store.store(Some(1000 + i), ImageFormat::Png, vec![])
        } else {
            let id = store.store(if i % 2 == 0 { None } else { Some(0) }, ImageFormat::Png, vec![]);
            assert!(id > last);
            last = id;
            id
        };
        assert!(store.get(id).is_some());
    }
}

#[test]
fn law_pending_count_tracks() {
    let mut assembler = ChunkAssembler::new();
    let mut a = KittyCommand::default();
    a.image_id = Some(1);
    let mut b = KittyCommand::default();
    b.image_id = Some(2);
    assembler.add_chunk(&a, b"x", true);
    assert_eq!(assembler.pending_count(), 1);
    assembler.add_chunk(&a, b"y", true);
    assert_eq!(assembler.pending_count(), 1);
    assembler.add_chunk(&b, b"z", false);
    assert_eq!(assembler.pending_count(), 1);
    assembler.add_chunk(&a, b"w", false);
    assert_eq!(assembler.pending_count(), 0);
}
