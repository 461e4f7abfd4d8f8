use kitty_graphics::command::{Compression, DeleteTarget, ImageFormat, KittyAction, KittyCommand, TransmissionMedium};

#[test]
fn parse_transmit_command() {
    let data = b"a=T,f=100,s=640,v=480,i=31,m=0;base64data";
    let cmd = KittyCommand::parse(data).unwrap();
    assert_eq!(cmd.action, Some(KittyAction::TransmitAndDisplay));
    assert_eq!(cmd.format, Some(ImageFormat::Png));
    assert_eq!(cmd.pixel_width, Some(640));
    assert_eq!(cmd.pixel_height, Some(480));
    assert_eq!(cmd.image_id, Some(31));
    assert!(!cmd.more_chunks);
    assert_eq!(cmd.payload, b"base64data");
}

#[test]
fn parse_place_command() {
    let data = b"a=p,i=42,c=10,r=5";
    let cmd = KittyCommand::parse(data).unwrap();
    assert_eq!(cmd.action, Some(KittyAction::Place));
    assert_eq!(cmd.image_id, Some(42));
    assert_eq!(cmd.columns, Some(10));
    assert_eq!(cmd.rows, Some(5));
    assert!(cmd.payload.is_empty());
}

#[test]
fn parse_delete_command() {
    let data = b"a=d,d=I,i=42";
    let cmd = KittyCommand::parse(data).unwrap();
    assert_eq!(cmd.action, Some(KittyAction::Delete));
    assert_eq!(cmd.delete_target, Some(DeleteTarget::ById));
    assert_eq!(cmd.image_id, Some(42));
}

#[test]
fn unknown_key_ignored() {
    // Multi-char key "UNKNOWN" is silently ignored
    let data = b"a=T,UNKNOWN=99,i=1";
    let cmd = KittyCommand::parse(data).unwrap();
    assert_eq!(cmd.action, Some(KittyAction::TransmitAndDisplay));
    assert_eq!(cmd.image_id, Some(1));
}

#[test]
fn no_semicolon_empty_payload() {
    let data = b"a=q";
    let cmd = KittyCommand::parse(data).unwrap();
    assert_eq!(cmd.action, Some(KittyAction::Query));
    assert!(cmd.payload.is_empty());
}

#[test]
fn payload_extracted() {
    let data = b"a=T;PAYLOADBYTES";
    let cmd = KittyCommand::parse(data).unwrap();
    assert_eq!(cmd.action, Some(KittyAction::TransmitAndDisplay));
    assert_eq!(cmd.payload, b"PAYLOADBYTES");
}

#[test]
fn malformed_pair_returns_error() {
    let data = b"a=T,badpair";
    assert!(KittyCommand::parse(data).is_err());
}

#[test]
fn empty_control_data_with_payload() {
    let data = b";somedata";
    let cmd = KittyCommand::parse(data).unwrap();
    assert!(cmd.action.is_none());
    assert_eq!(cmd.payload, b"somedata");
}

#[test]
fn zlib_compression() {
    let data = b"a=T,o=z,i=5";
    let cmd = KittyCommand::parse(data).unwrap();
    assert_eq!(cmd.compression, Compression::Zlib);
    assert_eq!(cmd.image_id, Some(5));
}

#[test]
fn unicode_placeholder_flag() {
    let data = b"a=T,U=1,i=7";
    let cmd = KittyCommand::parse(data).unwrap();
    assert!(cmd.unicode_placeholder);
    assert_eq!(cmd.image_id, Some(7));
}

#[test]
fn z_index_signed() {
    let data = b"a=p,z=-10,i=1";
    let cmd = KittyCommand::parse(data).unwrap();
    assert_eq!(cmd.z_index, Some(-10));
}

#[test]
fn more_chunks_flag() {
    let data = b"a=T,m=1,i=3;chunk1";
    let cmd = KittyCommand::parse(data).unwrap();
    assert!(cmd.more_chunks);
    assert_eq!(cmd.payload, b"chunk1");
}

#[test]
fn all_transmission_mediums() {
    for (val, expected) in &[
        ("d", TransmissionMedium::Direct),
        ("f", TransmissionMedium::File),
        ("t", TransmissionMedium::TempFile),
        ("s", TransmissionMedium::SharedMem),
    ] {
        let data = format!("t={}", val);
        let cmd = KittyCommand::parse(data.as_bytes()).unwrap();
        assert_eq!(cmd.transmission, Some(expected.clone()));
    }
}

#[test]
fn all_image_formats() {
    for (val, expected) in &[
        ("32", ImageFormat::Rgba),
        ("24", ImageFormat::Rgb),
        ("100", ImageFormat::Png),
    ] {
        let data = format!("f={}", val);
        let cmd = KittyCommand::parse(data.as_bytes()).unwrap();
        assert_eq!(cmd.format, Some(expected.clone()));
    }
}

#[test]
fn all_delete_targets() {
    for (val, expected) in &[
        ("A", DeleteTarget::All),
        ("I", DeleteTarget::ById),
        ("P", DeleteTarget::ByPlacement),
        ("C", DeleteTarget::AtCursor),
        ("R", DeleteTarget::InRange),
        ("Z", DeleteTarget::ByZIndex),
    ] {
        let data = format!("d={}", val);
        let cmd = KittyCommand::parse(data.as_bytes()).unwrap();
        assert_eq!(cmd.delete_target, Some(expected.clone()));
    }
}
