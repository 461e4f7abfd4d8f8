//! Kitty graphics protocol host terminal passthrough.

use vstd::prelude::*;

use crate::command::{
    lemma_first_index_range, spec_apply_pair, spec_parse, spec_parse_pairs, CommandView, KittyAction,
};
use crate::encoding::decimal_text;
use crate::integer::lemma_parse_decimal;
use crate::encoding::push_all;
use crate::text::{
    find_byte, first_index, lemma_first_index, lemma_utf8_append, lemma_utf8_prefix_before_ascii,
};
use vstd::utf8::{decode_utf8, valid_utf8};

verus! {

/// The APC sent to the host for control data and payload `apc_data`:
/// `ESC _ G`, the control data with `,q=2` added (before the `;` that starts
/// the payload, if any), the payload, and `ESC \`.
pub open spec fn passthrough_apc(apc_data: Seq<u8>) -> Seq<u8> {
    let quiet = seq![0x2cu8, 0x71u8, 0x3du8, 0x32u8];
    let pos = first_index(apc_data, 0x3bu8);
    let body = if pos < 0 {
        apc_data + quiet
    } else {
        apc_data.take(pos) + quiet + apc_data.skip(pos)
    };
    seq![0x1bu8, 0x5fu8, 0x47u8] + body + seq![0x1bu8, 0x5cu8]
}

/// Reconstruct a complete Kitty graphics APC sequence from raw payload data,
/// injecting `q=2` to suppress the host terminal's response.
///
/// When Zellij forwards an APC to the host terminal, the host would normally
/// send back a response APC (e.g., `\x1b_Gi=31;OK\x1b\\`). Without `q=2`,
/// that response leaks into Zellij's stdin as garbage text input.
/// With `q=2`, the host processes the APC silently.
pub fn build_passthrough_apc(apc_data: &[u8]) -> (r: Vec<u8>)
    ensures
        r@ == passthrough_apc(apc_data@),
{
    let pos = find_byte(apc_data, 0, 0x3B);
    let quiet: Vec<u8> = vec![0x2C, 0x71, 0x3D, 0x32];
    let mut out: Vec<u8> = vec![0x1B, 0x5F, 0x47];
    assert(apc_data@.skip(0) =~= apc_data@);
    if pos < apc_data.len() {
        let (control, rest) = apc_data.split_at(pos);
        push_all(&mut out, control);
        push_all(&mut out, quiet.as_slice());
        push_all(&mut out, rest);
    } else {
        push_all(&mut out, apc_data);
        push_all(&mut out, quiet.as_slice());
    }
    out.push(0x1B);
    out.push(0x5C);
    assert(out@ =~= passthrough_apc(apc_data@));
    out
}

/// Determine whether a given action should be passed through to the host terminal.
///
/// Only Transmit actions are forwarded - the host terminal caches the image data.
/// Placement, deletion, and animations are handled locally by Zellij via Unicode placeholders.
pub fn should_passthrough(action: &KittyAction) -> (r: bool)
    ensures
        r == (*action == KittyAction::TransmitAndDisplay || *action == KittyAction::Transmit),
{
    match action {
        KittyAction::TransmitAndDisplay | KittyAction::Transmit => true,
        _ => false,
    }
}

/// The control data and payload carried inside the passthrough APC: the
/// input with `,q=2` added at the end of its control data.
pub open spec fn passthrough_body(apc_data: Seq<u8>) -> Seq<u8> {
    let quiet = seq![0x2cu8, 0x71u8, 0x3du8, 0x32u8];
    let pos = first_index(apc_data, 0x3bu8);
    if pos < 0 {
        apc_data + quiet
    } else {
        apc_data.take(pos) + quiet + apc_data.skip(pos)
    }
}

/// The characters `,q=2`.
pub open spec fn quiet_pair_text() -> Seq<char> {
    seq![',', 'q', '=', '2']
}

/// The command with responses silenced.
pub open spec fn silenced(c: CommandView) -> CommandView {
    CommandView { quiet: 2, ..c }
}

/// Parsing `q=2` sets the quiet flag to 2.
proof fn lemma_quiet_pair(c: CommandView)
    ensures
        spec_parse_pairs(c, seq!['q', '=', '2']) == Ok::<CommandView, Seq<char>>(silenced(c)),
{
    let pair = seq!['q', '=', '2'];
    lemma_first_index(pair, ',', 3);
    lemma_first_index(pair, '=', 1);
    assert(pair.take(1) =~= seq!['q']);
    assert(pair.skip(2) =~= seq!['2']);
    assert(decimal_text(2) =~= seq!['2']);
    lemma_parse_decimal(2);
}

/// Pairs followed by `,q=2` parse as the pairs alone, then with the quiet
/// flag set to 2; an error among the pairs stays that error.
proof fn lemma_pairs_then_quiet(cmd: CommandView, cs: Seq<char>)
    ensures
        spec_parse_pairs(cmd, cs + quiet_pair_text()) == match spec_parse_pairs(cmd, cs) {
            Ok(c) => Ok(silenced(c)),
            Err(e) => Err(e),
        },
    decreases cs.len(),
{
    let full = cs + quiet_pair_text();
    let comma = first_index(cs, ',');
    lemma_first_index_range(cs, ',');
    if comma < 0 {
        assert forall|j: int| 0 <= j < cs.len() implies full[j] != ',' by {
            if full[j] == ',' {
                assert(cs[j] == ',');
                lemma_first_index_not_before(cs, ',', j);
            }
        }
        lemma_first_index(full, ',', cs.len() as int);
        assert(full.take(cs.len() as int) =~= cs);
        assert(full.skip(cs.len() as int + 1) =~= seq!['q', '=', '2']);
        match spec_apply_pair(cmd, cs) {
            Ok(c) => {
                lemma_quiet_pair(c);
            },
            Err(_) => {},
        }
    } else {
        assert forall|j: int| 0 <= j < comma implies full[j] != ',' by {
            lemma_first_index_not_before(cs, ',', j);
        }
        lemma_first_index(full, ',', comma);
        assert(full.take(comma) =~= cs.take(comma));
        assert(full.skip(comma + 1) =~= cs.skip(comma + 1) + quiet_pair_text());
        match spec_apply_pair(cmd, cs.take(comma)) {
            Ok(c) => {
                lemma_pairs_then_quiet(c, cs.skip(comma + 1));
            },
            Err(_) => {},
        }
    }
}

/// Before the first occurrence there is none.
proof fn lemma_first_index_not_before<T>(s: Seq<T>, x: T, j: int)
    requires
        0 <= j < s.len(),
        first_index(s, x) < 0 || j < first_index(s, x),
    ensures
        s[j] != x,
    decreases s.len(),
{
    if j > 0 && s[0] != x {
        lemma_first_index_not_before(s.drop_first(), x, j - 1);
    }
}

/// What the host parses from a passthrough APC is what the pane sent, with
/// responses silenced: the passthrough carries the input with `,q=2` added
/// to its control data; that parses exactly when the input does, to the
/// same command except that the quiet flag is 2 (an error's text can
/// differ when the control data is not UTF-8).
pub proof fn lemma_passthrough_parses_silenced(apc_data: Seq<u8>)
    ensures
        passthrough_apc(apc_data) == seq![0x1bu8, 0x5fu8, 0x47u8] + passthrough_body(apc_data) + seq![
            0x1bu8,
            0x5cu8,
        ],
        spec_parse(passthrough_body(apc_data)) is Ok <==> spec_parse(apc_data) is Ok,
        spec_parse(apc_data) matches Ok(c) ==> spec_parse(passthrough_body(apc_data)) == Ok::<
            CommandView,
            Seq<char>,
        >(silenced(c)),
{
    let d = apc_data;
    let quiet = seq![0x2cu8, 0x71u8, 0x3du8, 0x32u8];
    let body = passthrough_body(d);
    let pos = first_index(d, 0x3bu8);
    lemma_first_index_range(d, 0x3bu8);
    let control = if pos < 0 { d } else { d.take(pos) };
    let payload: Seq<u8> = if pos < 0 { Seq::empty() } else { d.skip(pos + 1) };
    let new_control = control + quiet;
    assert(forall|j: int| 0 <= j < control.len() ==> #[trigger] control[j] != 0x3bu8) by {
        assert forall|j: int| 0 <= j < control.len() implies #[trigger] control[j] != 0x3bu8 by {
            assert(control[j] == d[j]);
            lemma_first_index_not_before(d, 0x3bu8, j);
        }
    }
    if pos < 0 {
        assert(body =~= new_control);
        lemma_first_index(body, 0x3bu8, body.len() as int);
    } else {
        assert(body =~= new_control + d.skip(pos));
        assert(body[new_control.len() as int] == 0x3bu8);
        lemma_first_index(body, 0x3bu8, new_control.len() as int);
        assert(body.take(new_control.len() as int) =~= new_control);
        assert(body.skip(new_control.len() as int + 1) =~= payload);
    }
    assert(vstd::utf8::encode_utf8(quiet_pair_text()) =~= quiet) by {
        vstd::utf8::is_ascii_chars_encode_utf8(quiet_pair_text());
    }
    let init = CommandView::defaults(payload);
    if control.len() == 0 {
        assert(new_control =~= vstd::utf8::encode_utf8(quiet_pair_text()));
        vstd::utf8::encode_utf8_valid_utf8(quiet_pair_text());
        vstd::utf8::encode_utf8_decode_utf8(quiet_pair_text());
        lemma_pairs_then_quiet(init, Seq::empty());
        assert(Seq::<char>::empty() + quiet_pair_text() =~= quiet_pair_text());
        assert(spec_parse_pairs(init, Seq::<char>::empty()) == Ok::<CommandView, Seq<char>>(init));
    } else if valid_utf8(control) {
        lemma_utf8_append(control, quiet_pair_text());
        lemma_pairs_then_quiet(init, decode_utf8(control));
    } else {
        if valid_utf8(new_control) {
            lemma_utf8_prefix_before_ascii(control, quiet);
        }
    }
    assert(passthrough_apc(d) =~= seq![0x1bu8, 0x5fu8, 0x47u8] + body + seq![0x1bu8, 0x5cu8]);
}

} // verus!
