use kitty_graphics::command::KittyAction;
use kitty_graphics::passthrough::{build_passthrough_apc, should_passthrough};

#[test]
fn build_passthrough_apc_injects_quiet_flag() {
    let data = b"a=T,i=1;AAAA";
    let result = build_passthrough_apc(data);
    assert!(result.starts_with(b"\x1b_G"));
    assert!(result.ends_with(b"\x1b\\"));
    let inner = String::from_utf8_lossy(&result[3..result.len() - 2]);
    assert!(
        inner.contains("q=2"),
        "passthrough must include q=2, got: {}",
        inner
    );
    assert!(
        inner.contains("a=T,i=1"),
        "control data preserved, got: {}",
        inner
    );
    assert!(inner.contains("AAAA"), "payload preserved, got: {}", inner);
}

#[test]
fn build_passthrough_apc_no_payload_still_has_quiet() {
    let result = build_passthrough_apc(b"a=d,d=A");
    let inner = String::from_utf8_lossy(&result[3..result.len() - 2]);
    assert!(inner.contains("q=2"), "must have q=2: {}", inner);
    assert!(
        inner.contains("a=d,d=A"),
        "control data preserved: {}",
        inner
    );
}

#[test]
fn should_passthrough_transmit_only() {
    // Only Transmit actions should be forwarded to host terminal
    assert!(should_passthrough(&KittyAction::TransmitAndDisplay));
    assert!(should_passthrough(&KittyAction::Transmit));
    
    // All other actions are handled locally by Zellij
    assert!(!should_passthrough(&KittyAction::Place));
    assert!(!should_passthrough(&KittyAction::Query));
    assert!(!should_passthrough(&KittyAction::Delete));
    assert!(!should_passthrough(&KittyAction::Frame));
    assert!(!should_passthrough(&KittyAction::Animate));
}
