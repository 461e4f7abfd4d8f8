//! Kitty graphics protocol response parsing and routing.
//!
//! Handles parsing APC responses from the host terminal (e.g., `\x1b_Gi=<id>;OK\x1b\\`)
//! and building response bytes to forward to application panes.

use vstd::prelude::*;
use vstd::utf8::{
    decode_utf8, encode_utf8, encode_utf8_decode_utf8, encode_utf8_valid_utf8, is_ascii_chars,
    is_ascii_chars_encode_utf8, valid_utf8,
};

use crate::command::lemma_first_index_range;
use crate::encoding::{decimal, decimal_text, lemma_decimal_digits, push_all};
use crate::integer::{lemma_parse_decimal, parse_u32_chars, spec_parse_u32};
use crate::query::text_reply;
use crate::text::{
    chars_of, find_char, first_index, lemma_encode_concat, lemma_first_index, push_chars, str_from_utf8,
};

verus! {

/// The value of the first comma-separated pair of `rest` that starts with
/// `i=`, if any.
pub open spec fn id_value(rest: Seq<char>) -> Option<Seq<char>>
    decreases rest.len(),
{
    let comma = first_index(rest, ',');
    let pair = if comma < 0 {
        rest
    } else {
        rest.take(comma)
    };
    if pair.len() >= 2 && pair[0] == 'i' && pair[1] == '=' {
        Some(pair.skip(2))
    } else if comma < 0 {
        None
    } else {
        proof {
            lemma_first_index_range(rest, ',');
        }
        id_value(rest.skip(comma + 1))
    }
}

/// What a host reply payload `i=<id>[,...];<message>` carries: the image id
/// and the message, when the payload is UTF-8, has a `;`, and its first
/// `i=` key before the `;` holds a `u32`.
pub open spec fn response_fields(payload: Seq<u8>) -> Option<(u32, Seq<char>)> {
    if !valid_utf8(payload) {
        None
    } else {
        let cs = decode_utf8(payload);
        let semi = first_index(cs, ';');
        if semi < 0 {
            None
        } else {
            match id_value(cs.take(semi)) {
                None => None,
                Some(v) => match spec_parse_u32(v) {
                    Ok(id) => Some((id, cs.skip(semi + 1))),
                    Err(_) => None,
                },
            }
        }
    }
}

/// Mathematical value of a parsed reply.
pub open spec fn fields_view(r: Option<(u32, String)>) -> Option<(u32, Seq<char>)> {
    match r {
        Some((id, m)) => Some((id, m@)),
        None => None,
    }
}

/// Parse an APC response from the host terminal.
///
/// The `apc_payload` should be the raw bytes between `ESC _G` and `ST`,
/// i.e., just the `i=<id>;<message>` portion (without the `G` prefix byte,
/// which was already stripped by the APC parser).
///
/// Returns `(image_id, message)` if the payload is a valid Kitty graphics response.
///
/// # Examples
/// - `b"i=42;OK"` → `Some((42, "OK".to_string()))`
/// - `b"i=99;ENOENT:image not found"` → `Some((99, "ENOENT:image not found".to_string()))`
/// - `b"not-kitty-data"` → `None`
pub fn parse_kitty_response(apc_payload: &[u8]) -> (r: Option<(u32, String)>)
    ensures
        fields_view(r) == response_fields(apc_payload@),
{
    let text = match str_from_utf8(apc_payload) {
        Ok(s) => s,
        Err(_) => {
            return None;
        },
    };
    let cs = chars_of(text);
    let n = cs.len();
    let semi = find_char(&cs, 0, n, ';');
    assert(cs@.subrange(0, n as int) =~= cs@);
    if semi == n {
        return None;
    }
    let ghost control = cs@.take(semi as int);
    let mut pos: usize = 0;
    assert(control.skip(0) =~= control);
    loop
        invariant
            pos <= semi < n,
            n == cs@.len(),
            control == cs@.take(semi as int),
            cs@ == decode_utf8(apc_payload@),
            valid_utf8(apc_payload@),
            first_index(cs@, ';') == semi,
            id_value(control) == id_value(control.skip(pos as int)),
        decreases semi - pos,
    {
        let comma = find_char(&cs, pos, semi, ',');
        let ghost rest = control.skip(pos as int);
        assert(cs@.subrange(pos as int, semi as int) =~= rest);
        assert(comma < semi ==> rest.take(comma - pos) =~= cs@.subrange(pos as int, comma as int));
        assert(comma == semi ==> rest =~= cs@.subrange(pos as int, comma as int));
        if comma - pos >= 2 && cs[pos] == 'i' && cs[pos + 1] == '=' {
            let ghost pair = cs@.subrange(pos as int, comma as int);
            assert(pair.skip(2) =~= cs@.subrange(pos + 2, comma as int));
            match parse_u32_chars(&cs, pos + 2, comma) {
                Ok(id) => {
                    let mut message = String::new();
                    push_chars(&mut message, &cs, semi + 1, n);
                    assert(cs@.subrange(semi + 1, n as int) =~= cs@.skip(semi + 1));
                    return Some((id, message));
                },
                Err(_) => {
                    return None;
                },
            }
        }
        if comma == semi {
            return None;
        }
        assert(rest.skip(comma - pos + 1) =~= control.skip(comma + 1));
        pos = comma + 1;
    }
}

/// A reply for a pane: `ESC _ G <payload> ESC \`.
pub open spec fn pane_response(apc_payload: Seq<u8>) -> Seq<u8> {
    seq![0x1bu8, 0x5fu8, 0x47u8] + apc_payload + seq![0x1bu8, 0x5cu8]
}

/// Build response bytes to forward to a pane's PTY.
///
/// Takes the raw APC payload (between `ESC _G` and `ST`) and wraps it
/// back into a complete APC sequence that the application can parse.
///
/// The returned bytes are: `ESC _ G <payload> ESC \`
pub fn build_pane_response(apc_payload: &[u8]) -> (r: Vec<u8>)
    ensures
        r@ == pane_response(apc_payload@),
{
    let mut response: Vec<u8> = Vec::new();
    response.push(0x1B);
    response.push(0x5F);
    response.push(0x47);
    push_all(&mut response, apc_payload);
    response.push(0x1B);
    response.push(0x5C);
    assert(response@ =~= pane_response(apc_payload@));
    response
}

/// The payload of a reply: `i=<image_id>;<message>`, the message in UTF-8.
pub open spec fn reply_payload(image_id: u32, message: Seq<char>) -> Seq<u8> {
    seq![0x69u8, 0x3du8] + decimal(image_id as nat) + seq![0x3bu8] + encode_utf8(message)
}

/// A reply built for an image id and a message is what a pane receives
/// around its payload, and the reply parser reads that payload back as the
/// same id and message.
pub proof fn lemma_reply_roundtrip(image_id: u32, message: Seq<char>)
    ensures
        text_reply(image_id, message) == pane_response(reply_payload(image_id, message)),
        response_fields(reply_payload(image_id, message)) == Some((image_id, message)),
{
    let digits = decimal_text(image_id as nat);
    let head = seq!['i', '='] + digits + seq![';'];
    let cs = head + message;
    lemma_decimal_digits(image_id as nat);
    assert(is_ascii_chars(head)) by {
        assert forall|i: int| 0 <= i < head.len() implies '\0' <= #[trigger] head[i] <= '\u{7f}' by {
            if 2 <= i < head.len() - 1 {
                assert(head[i] == decimal(image_id as nat)[i - 2] as char);
            }
        }
    }
    is_ascii_chars_encode_utf8(head);
    assert(encode_utf8(head) =~= seq![0x69u8, 0x3du8] + decimal(image_id as nat) + seq![0x3bu8]) by {
        assert forall|i: int| 0 <= i < head.len() implies #[trigger] encode_utf8(head)[i] == (
        seq![0x69u8, 0x3du8] + decimal(image_id as nat) + seq![0x3bu8])[i] by {
            assert(head[i] as u8 == encode_utf8(head)[i]);
            if 2 <= i < head.len() - 1 {
                assert(head[i] == decimal(image_id as nat)[i - 2] as char);
            }
        }
    }
    lemma_encode_concat(head, message);
    assert(encode_utf8(cs) =~= reply_payload(image_id, message));
    encode_utf8_valid_utf8(cs);
    encode_utf8_decode_utf8(cs);
    let semi = head.len() - 1;
    assert forall|j: int| 0 <= j < semi implies cs[j] != ';' by {
        if 2 <= j {
            assert(cs[j] == decimal(image_id as nat)[j - 2] as char);
        }
    }
    lemma_first_index(cs, ';', semi);
    let control = cs.take(semi);
    assert(control =~= seq!['i', '='] + digits);
    assert forall|j: int| 0 <= j < control.len() implies control[j] != ',' by {
        if 2 <= j {
            assert(control[j] == decimal(image_id as nat)[j - 2] as char);
        }
    }
    lemma_first_index(control, ',', control.len() as int);
    assert(control.skip(2) =~= digits);
    lemma_parse_decimal(image_id);
    assert(cs.skip(semi + 1) =~= message);
    assert(text_reply(image_id, message) =~= pane_response(reply_payload(image_id, message)));
}

} // verus!
