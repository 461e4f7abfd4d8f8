//! Kitty graphics protocol animation frame and control handlers.
//!
//! Handles `a=f` (Frame) — add an animation frame to an existing image.
//! Handles `a=a` (Animate) — control animation playback.
//!
//! Zellij stores frame data; actual rendering/playback is performed
//! by the host terminal via APC passthrough.

use vstd::prelude::*;

use crate::command::{CommandView, KittyCommand};
use crate::payload::{decode_kitty_payload, payload_result, result_view, DecodeError, DecodeErrorView};
use crate::accounting::lemma_sum_push;
use crate::query::text_reply;
use crate::store::{
    contains_id, frame_sizes, lemma_lookup_at, lemma_memory_update, lemma_replace_keeps_lookup,
    lemma_replace_keeps_others, lookup, position_of, replace_image, FrameView, ImageView, KittyFrame,
    KittyImageStore, StoreView,
};
use crate::transmit::{error_reply, error_response, map_compression, ok_reply, ok_response, payload_compression, store_full_message};

verus! {

/// The id a frame or animate command names, when it names one (ids start at 1).
pub open spec fn named_id(cmd: CommandView) -> Option<u32> {
    match cmd.image_id {
        Some(id) if id > 0 => Some(id),
        _ => None,
    }
}

/// The gap before the next frame: `z=` when positive, else 0.
pub open spec fn frame_gap(z_index: Option<i32>) -> u32 {
    match z_index {
        Some(z) => if z > 0 {
            z as u32
        } else {
            0
        },
        None => 0,
    }
}

/// The number a new frame gets: `r=` when given, else one past the last
/// frame's, else 1; `None` when the last frame's number leaves no next one.
pub open spec fn next_frame_number(frames: Seq<FrameView>, rows: Option<u32>) -> Option<u32> {
    match rows {
        Some(n) => Some(n),
        None => if frames.len() == 0 {
            Some(1)
        } else if frames.last().frame_number == u32::MAX {
            None
        } else {
            Some((frames.last().frame_number + 1) as u32)
        },
    }
}

/// Error text when the last frame's number leaves no next one.
pub open spec fn frame_number_message() -> Seq<char> {
    "EINVAL:frame number out of range"@
}

/// The store and reply after a frame command whose payload decoded to
/// `decoded`.
pub open spec fn frame_outcome(
    s: StoreView,
    cmd: CommandView,
    decoded: Result<Seq<u8>, DecodeErrorView>,
) -> (StoreView, Seq<u8>) {
    match named_id(cmd) {
        None => (s, error_reply(0, "EINVAL:image_id required for frame"@, cmd.quiet)),
        Some(id) => match decoded {
            Err(e) => (s, error_reply(id, "EBADF:"@ + e.text(), cmd.quiet)),
            Ok(data) => if !contains_id(s.images, id) {
                (s, error_reply(id, "ENOENT:image not found"@, cmd.quiet))
            } else {
                let image = lookup(s.images, id)->Some_0;
                match next_frame_number(image.frames, cmd.rows) {
                    None => (s, error_reply(id, frame_number_message(), cmd.quiet)),
                    Some(n) => if s.total() + data.len() > usize::MAX {
                        (s, error_reply(id, store_full_message(), cmd.quiet))
                    } else {
                        let frame = FrameView { frame_number: n, data, gap_ms: frame_gap(cmd.z_index) };
                        (
                            s.with_images(
                                replace_image(
                                    s.images,
                                    id,
                                    ImageView { frames: image.frames.push(frame), ..image },
                                ),
                            ),
                            ok_reply(id, cmd.quiet),
                        )
                    },
                }
            },
        },
    }
}

/// Add an animation frame whose payload decoded to `decoded`: the frame
/// gets its number (`r=`, else one past the last) and gap (`z=`, at least
/// 0) and is appended to the image's frames.
pub fn frame_decoded(cmd: &KittyCommand, decoded: Result<Vec<u8>, DecodeError>, store: &mut KittyImageStore) -> (r: Vec<u8>)
    requires
        old(store).wf(),
    ensures
        final(store).wf(),
        (final(store)@, r@) == frame_outcome(old(store)@, cmd@, result_view(decoded)),
{
    let image_id: u32 = match cmd.image_id {
        Some(id) => id,
        None => 0,
    };
    if image_id == 0 {
        return error_response(0, "EINVAL:image_id required for frame", cmd.quiet);
    }
    let data = match decoded {
        Ok(d) => d,
        Err(e) => {
            let mut message = String::from_str("EBADF:");
            let text = e.message();
            message.append(text.as_str());
            return error_response(image_id, message.as_str(), cmd.quiet);
        },
    };
    let frame_number = match store.get(image_id) {
        None => {
            return error_response(image_id, "ENOENT:image not found", cmd.quiet);
        },
        Some(image) => match cmd.rows {
            Some(n) => n,
            None => {
                let count = image.frames.len();
                if count == 0 {
                    1
                } else {
                    let last = image.frames[count - 1].frame_number;
                    if last == u32::MAX {
                        return error_response(image_id, "EINVAL:frame number out of range", cmd.quiet);
                    }
                    last + 1
                }
            },
        },
    };
    if !store.can_count(data.len()) {
        return error_response(image_id, "ENOMEM:image store is full", cmd.quiet);
    }
    let gap_ms: u32 = match cmd.z_index {
        Some(z) => if z > 0 {
            z as u32
        } else {
            0
        },
        None => 0,
    };
    let frame = KittyFrame { frame_number, data, gap_ms };
    store.add_frame(image_id, frame);
    ok_response(image_id, cmd.quiet)
}

/// Handle `a=f` (Frame): Add an animation frame to an existing image.
///
/// In the Kitty protocol, animation frames overload some control keys:
/// - `r=N` → frame number (normally `rows`)
/// - `z=N` → gap in milliseconds between this frame and the next (normally `z_index`)
///
/// The payload is base64-encoded pixel data for this frame.
pub fn handle_frame(cmd: &KittyCommand, store: &mut KittyImageStore) -> (r: Vec<u8>)
    requires
        old(store).wf(),
    ensures
        final(store).wf(),
        (final(store)@, r@) == frame_outcome(
            old(store)@,
            cmd@,
            payload_result(cmd@.payload, payload_compression(cmd.compression)),
        ),
{
    let named = match cmd.image_id {
        Some(id) => id > 0,
        None => false,
    };
    if !named {
        return error_response(0, "EINVAL:image_id required for frame", cmd.quiet);
    }
    let compression = map_compression(&cmd.compression);
    let decoded = decode_kitty_payload(cmd.payload.as_slice(), compression);
    frame_decoded(cmd, decoded, store)
}

/// The reply to an animate command: `EINVAL` without an image id, `ENOENT`
/// for an unknown image, else `OK`; the store is left as it is.
pub open spec fn animate_reply(s: StoreView, cmd: CommandView) -> Seq<u8> {
    match named_id(cmd) {
        None => error_reply(0, "EINVAL:image_id required for animate"@, cmd.quiet),
        Some(id) => if contains_id(s.images, id) {
            ok_reply(id, cmd.quiet)
        } else {
            error_reply(id, "ENOENT:image not found"@, cmd.quiet)
        },
    }
}

/// Handle `a=a` (Animate): Control animation playback.
///
/// Animation control fields (overloaded from the Kitty protocol):
/// - `s=N` → set current frame (mapped to `cmd.pixel_width`)
/// - `v=N` → loop count (mapped to `cmd.pixel_height`)
/// - `z=N` → gap override in ms (mapped to `cmd.z_index`)
///
/// Zellij acknowledges the command; actual playback is handled by the
/// host terminal via APC passthrough.
pub fn handle_animate(cmd: &KittyCommand, store: &mut KittyImageStore) -> (r: Vec<u8>)
    requires
        old(store).wf(),
    ensures
        final(store).wf(),
        final(store)@ == old(store)@,
        r@ == animate_reply(old(store)@, cmd@),
{
    let image_id = match cmd.image_id {
        Some(id) if id > 0 => id,
        _ => {
            return error_response(0, "EINVAL:image_id required for animate", cmd.quiet);
        },
    };
    if store.get(image_id).is_none() {
        return error_response(image_id, "ENOENT:image not found", cmd.quiet);
    }
    ok_response(image_id, cmd.quiet)
}

/// A frame command on a stored image appends one frame to it and touches
/// nothing else. The new frame holds the decoded data; its number is `r=`
/// when given, otherwise one more than the number of the image's current
/// last frame, or 1 when it has none; its gap is `z=` when positive, else
/// 0. The image's earlier frames and all else about it stay, every other
/// image stays, the bytes held grow by the frame's data, and an unquieted
/// command is answered `OK`.
pub proof fn lemma_frame_appended(s: StoreView, cmd: CommandView, id: u32, data: Seq<u8>)
    requires
        s.valid(),
        id > 0,
        cmd.image_id == Some(id),
        contains_id(s.images, id),
        s.total() + data.len() <= usize::MAX,
        cmd.rows is None ==> lookup(s.images, id)->Some_0.frames.len() == 0 || lookup(
            s.images,
            id,
        )->Some_0.frames.last().frame_number < u32::MAX,
    ensures
        ({
            let out = frame_outcome(s, cmd, Ok(data));
            let before = lookup(s.images, id)->Some_0;
            let after = lookup(out.0.images, id)->Some_0;
            let n = before.frames.len();
            &&& out.0.valid()
            &&& out.0.total() == s.total() + data.len()
            &&& lookup(out.0.images, id) is Some
            &&& after.frames.len() == n + 1
            &&& after.frames.take(n as int) == before.frames
            &&& after.frames[n as int].data == data
            &&& after.frames[n as int].frame_number == match cmd.rows {
                Some(r) => r,
                None => if n == 0 {
                    1
                } else {
                    (before.frames[n - 1].frame_number + 1) as u32
                },
            }
            &&& after.frames[n as int].gap_ms == match cmd.z_index {
                Some(z) => if z > 0 {
                    z as u32
                } else {
                    0u32
                },
                None => 0u32,
            }
            &&& after == ImageView { frames: after.frames, ..before }
            &&& forall|other: u32| other != id ==> #[trigger] lookup(out.0.images, other) == lookup(s.images, other)
            &&& cmd.quiet == 0 ==> out.1 == text_reply(id, "OK"@)
        }),
{
    let before = lookup(s.images, id)->Some_0;
    let p = position_of(s.images, id);
    lemma_lookup_at(s.images, p);
    let num = next_frame_number(before.frames, cmd.rows)->Some_0;
    let frame = FrameView { frame_number: num, data, gap_ms: frame_gap(cmd.z_index) };
    let after = ImageView { frames: before.frames.push(frame), ..before };
    lemma_replace_keeps_lookup(s.images, id, after);
    lemma_replace_keeps_others(s.images, id, after);
    assert(frame_sizes(after.frames) =~= frame_sizes(before.frames).push(data.len()));
    lemma_sum_push(frame_sizes(before.frames), data.len());
    lemma_memory_update(s.images, p, after);
    assert(after.frames.take(before.frames.len() as int) =~= before.frames);
}

/// Frames numbered by `r=` set the count that follows: after a frame
/// numbered `k`, a frame sent without `r=` for the same image is numbered
/// `k + 1`, whatever frames came before.
pub proof fn lemma_frames_numbered_in_turn(
    s: StoreView,
    first: CommandView,
    second: CommandView,
    id: u32,
    d1: Seq<u8>,
    d2: Seq<u8>,
    k: u32,
)
    requires
        s.valid(),
        id > 0,
        first.image_id == Some(id),
        second.image_id == Some(id),
        contains_id(s.images, id),
        first.rows == Some(k),
        k < u32::MAX,
        second.rows is None,
        s.total() + d1.len() + d2.len() <= usize::MAX,
    ensures
        ({
            let s1 = frame_outcome(s, first, Ok(d1)).0;
            let s2 = frame_outcome(s1, second, Ok(d2)).0;
            &&& lookup(s2.images, id) is Some
            &&& lookup(s2.images, id)->Some_0.frames.last().frame_number == k + 1
        }),
{
    lemma_frame_appended(s, first, id, d1);
    let s1 = frame_outcome(s, first, Ok(d1)).0;
    let f1 = lookup(s1.images, id)->Some_0.frames;
    assert(f1.last() == f1[f1.len() - 1]);
    lemma_frame_appended(s1, second, id, d2);
}

/// A frame command that cannot add its frame leaves the store exactly as
/// it was and says why, unless `q=2` silences it: without an image id (or
/// with id 0) it is `EINVAL` with id 0; a payload that does not decode is
/// `EBADF` with the decoder's message; an image the store does not hold is
/// `ENOENT`.
pub proof fn lemma_frame_refusals(s: StoreView, cmd: CommandView, decoded: Result<Seq<u8>, DecodeErrorView>)
    ensures
        ({
            let out = frame_outcome(s, cmd, decoded);
            let named = cmd.image_id matches Some(i) && i > 0;
            let id = cmd.image_id->Some_0;
            &&& !named ==> out.0 == s
            &&& !named && cmd.quiet < 2 ==> out.1 == text_reply(0, "EINVAL:image_id required for frame"@)
            &&& named ==> (decoded matches Err(e) ==> out.0 == s && (cmd.quiet < 2 ==> out.1 == text_reply(
                id,
                "EBADF:"@ + e.text(),
            )))
            &&& named && decoded is Ok && !contains_id(s.images, id) ==> out.0 == s && (cmd.quiet < 2
                ==> out.1 == text_reply(id, "ENOENT:image not found"@))
            &&& cmd.quiet >= 2 ==> out.1.len() == 0
        }),
{
}

} // verus!
