use kitty_graphics::apc_parser::{ApcParser, ApcParserResult};

/// Helper: feed all bytes and collect results.
fn feed_all(parser: &mut ApcParser, input: &[u8]) -> Vec<ApcParserResult> {
    input.iter().map(|&b| parser.advance(b)).collect()
}

#[test]
fn test_simple_apc() {
    let mut parser = ApcParser::new();
    let input = b"\x1b_Ghello\x1b\\";
    let results = feed_all(&mut parser, input);

    let last = results.last().unwrap();
    assert_eq!(*last, ApcParserResult::Complete(b"hello".to_vec()));
}

#[test]
fn test_non_kitty_apc_passthrough() {
    let mut parser = ApcParser::new();
    let input = b"\x1b_Xhello\x1b\\";
    let results = feed_all(&mut parser, input);

    // No Complete should be produced for non-Kitty APC
    assert!(
        !results
            .iter()
            .any(|r| matches!(r, ApcParserResult::Complete(_))),
        "Should not produce Complete for non-Kitty APC"
    );

    // All original bytes must be re-emitted (via PassThrough or Aborted)
    let mut emitted = Vec::new();
    for r in &results {
        match r {
            ApcParserResult::PassThrough(b) => emitted.push(*b),
            ApcParserResult::Aborted(bytes) => emitted.extend(bytes),
            _ => {},
        }
    }
    assert_eq!(emitted, input.to_vec());
}

#[test]
fn test_mixed_text_and_apc() {
    let mut parser = ApcParser::new();
    let input = b"hello\x1b_Gworld\x1b\\foo";
    let results = feed_all(&mut parser, input);

    let mut passthrough_before = Vec::new();
    let mut complete_payload = None;
    let mut passthrough_after = Vec::new();

    for r in &results {
        match r {
            ApcParserResult::PassThrough(b) => {
                if complete_payload.is_some() {
                    passthrough_after.push(*b);
                } else {
                    passthrough_before.push(*b);
                }
            },
            ApcParserResult::Complete(payload) => {
                complete_payload = Some(payload.clone());
            },
            _ => {},
        }
    }

    assert_eq!(passthrough_before, b"hello".to_vec());
    assert_eq!(complete_payload.unwrap(), b"world".to_vec());
    assert_eq!(passthrough_after, b"foo".to_vec());
}

#[test]
fn test_split_across_calls() {
    let mut parser = ApcParser::new();

    // Feed first half — should not complete yet
    let first_half = b"\x1b_Ghel";
    for &byte in first_half.iter() {
        assert!(
            !matches!(parser.advance(byte), ApcParserResult::Complete(_)),
            "Should not complete during first half"
        );
    }

    // Feed second half — last byte should produce Complete
    let second_half = b"lo\x1b\\";
    let mut completed = None;
    for &byte in second_half.iter() {
        if let ApcParserResult::Complete(payload) = parser.advance(byte) {
            completed = Some(payload);
        }
    }

    assert_eq!(completed.unwrap(), b"hello".to_vec());
}

#[test]
fn test_recovery_after_complete() {
    let mut parser = ApcParser::new();

    // First APC
    let first = b"\x1b_Gfirst\x1b\\";
    let mut first_payload = None;
    for &byte in first.iter() {
        if let ApcParserResult::Complete(payload) = parser.advance(byte) {
            first_payload = Some(payload);
        }
    }
    assert_eq!(first_payload.unwrap(), b"first".to_vec());

    // Second APC — parser must recover and handle correctly
    let second = b"\x1b_Gsecond\x1b\\";
    let mut second_payload = None;
    for &byte in second.iter() {
        if let ApcParserResult::Complete(payload) = parser.advance(byte) {
            second_payload = Some(payload);
        }
    }
    assert_eq!(second_payload.unwrap(), b"second".to_vec());
}
