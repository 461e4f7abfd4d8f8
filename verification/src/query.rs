//! Kitty graphics protocol Query action (a=q) handler.
//!
//! Handles capability queries and image existence queries, returning the correct APC response bytes.

use vstd::prelude::*;

use crate::command::{CommandView, KittyCommand};
use crate::encoding::{decimal, push_all, push_decimal};
use crate::store::{contains_id, KittyImageStore, StoreView};

verus! {

/// The reply `ESC _ G i=<image_id> ; <message> ESC \`, the message given as
/// bytes.
pub open spec fn kitty_reply(image_id: u32, message: Seq<u8>) -> Seq<u8> {
    seq![0x1bu8, 0x5fu8, 0x47u8, 0x69u8, 0x3du8] + decimal(image_id as nat) + seq![0x3bu8]
        + message + seq![0x1bu8, 0x5cu8]
}

/// The reply carrying a text message, encoded as UTF-8.
pub open spec fn text_reply(image_id: u32, message: Seq<char>) -> Seq<u8> {
    kitty_reply(image_id, vstd::utf8::encode_utf8(message))
}

/// Build a Kitty APC response in the format: ESC + `_G` + `i=<id>` + `;` + `<message>` + ESC + `\`
///
/// # Arguments
/// * `image_id` - The image ID to include in the response
/// * `message` - The message content (e.g., "OK", "ENOENT:image not found")
///
/// # Returns
/// A Vec<u8> containing the complete APC response bytes
pub fn build_kitty_response(image_id: u32, message: &str) -> (r: Vec<u8>)
    ensures
        r@ == text_reply(image_id, message@),
{
    let mut response: Vec<u8> = Vec::new();
    response.push(0x1B);
    response.push(0x5F);
    response.push(0x47);
    response.push(0x69);
    response.push(0x3D);
    push_decimal(&mut response, image_id as u64);
    response.push(0x3B);
    let bytes = message.as_bytes_vec();
    push_all(&mut response, bytes.as_slice());
    response.push(0x1B);
    response.push(0x5C);
    proof {
        assert(response@ =~= text_reply(image_id, message@));
    }
    response
}

/// The reply to a query command: none under `q=2`; for a query about an
/// image, `OK` when the store holds it (none under `q=1`) and `ENOENT`
/// otherwise; for a capability query, `OK` (none under `q=1`).
pub open spec fn query_reply(cmd: CommandView, store: StoreView) -> Seq<u8> {
    if cmd.quiet == 2 {
        Seq::empty()
    } else {
        match cmd.image_id {
            Some(id) => if contains_id(store.images, id) {
                if cmd.quiet == 1 {
                    Seq::empty()
                } else {
                    text_reply(id, "OK"@)
                }
            } else {
                text_reply(id, "ENOENT:image not found"@)
            },
            None => if cmd.quiet == 1 {
                Seq::empty()
            } else {
                text_reply(0, "OK"@)
            },
        }
    }
}

/// Handle a Kitty graphics protocol Query action (a=q).
///
/// Dispatches based on whether this is a capability query or an image existence query.
/// Respects the `quiet` flag:
/// - q=0 (default): send response
/// - q=1: send only errors (not OK)
/// - q=2: suppress ALL responses
pub fn handle_query(cmd: &KittyCommand, store: &KittyImageStore) -> (r: Vec<u8>)
    requires
        store.wf(),
    ensures
        r@ == query_reply(cmd@, store@),
{
    if cmd.quiet == 2 {
        return Vec::new();
    }
    match cmd.image_id {
        Some(id) => {
            if store.get(id).is_some() {
                if cmd.quiet == 1 {
                    return Vec::new();
                }
                build_kitty_response(id, "OK")
            } else {
                build_kitty_response(id, "ENOENT:image not found")
            }
        },
        None => {
            if cmd.quiet == 1 {
                return Vec::new();
            }
            build_kitty_response(0, "OK")
        },
    }
}

/// How a query is answered: `q=2` silences every answer. A query about an
/// image is answered `OK` with its id when the store holds it (silenced by
/// `q=1`), and `ENOENT` with its id when it does not, even under `q=1`. A
/// query that names no image asks what the terminal supports and is
/// answered `OK` with id 0 (silenced by `q=1`). Answering never depends on
/// anything about the stored image beyond its presence.
pub proof fn lemma_query_answers(cmd: CommandView, s: StoreView)
    ensures
        cmd.quiet == 2 ==> query_reply(cmd, s).len() == 0,
        cmd.image_id matches Some(id) ==> (contains_id(s.images, id) && cmd.quiet == 0 ==> query_reply(cmd, s)
            == text_reply(id, "OK"@)),
        cmd.image_id matches Some(id) ==> (contains_id(s.images, id) && cmd.quiet == 1 ==> query_reply(cmd, s).len()
            == 0),
        cmd.image_id matches Some(id) ==> (!contains_id(s.images, id) && cmd.quiet != 2 ==> query_reply(cmd, s)
            == text_reply(id, "ENOENT:image not found"@)),
        cmd.image_id is None && cmd.quiet == 0 ==> query_reply(cmd, s) == text_reply(0, "OK"@),
        cmd.image_id is None && cmd.quiet == 1 ==> query_reply(cmd, s).len() == 0,
        forall|t: StoreView|
            (cmd.image_id matches Some(id) ==> contains_id(t.images, id) == contains_id(s.images, id))
                ==> #[trigger] query_reply(cmd, t) == query_reply(cmd, s),
{
}

} // verus!
