//! Kitty graphics protocol transmit action handler.
//!
//! Handles `a=T` (TransmitAndDisplay) and `a=t` (Transmit) actions.
//! Decodes the base64 payload, optionally decompresses, and stores
//! the image data in the KittyImageStore.

use vstd::prelude::*;

use crate::command::{self, CommandView, KittyAction, KittyCommand, TransmissionMedium};
use crate::payload::{self, decode_kitty_payload, payload_result, result_view, DecodeError, DecodeErrorView};
use crate::query::{query_reply, text_reply};
use crate::store::{
    self, assigned_id, contains_id, lemma_position_unique, lemma_push_lookup, lemma_remove_distinct,
    lemma_remove_then_get, lookup, position_of, without, ImageView, KittyImageStore, KittyPlacement,
    StoreView,
};

verus! {

/// Build a Kitty graphics protocol APC response.
///
/// Returns `\x1b_Gi=<image_id>;<message>\x1b\` as bytes.
pub fn build_kitty_response(image_id: u32, message: &str) -> (r: Vec<u8>)
    ensures
        r@ == text_reply(image_id, message@),
{
    crate::query::build_kitty_response(image_id, message)
}

/// The payload compression a command asks for.
pub open spec fn payload_compression(c: command::Compression) -> payload::Compression {
    match c {
        command::Compression::Uncompressed => payload::Compression::Uncompressed,
        command::Compression::Zlib => payload::Compression::Zlib,
    }
}

/// The stored format of a command's format, RGBA when none is given.
pub open spec fn stored_format(f: Option<command::ImageFormat>) -> store::ImageFormat {
    match f {
        Some(command::ImageFormat::Rgba) => store::ImageFormat::Rgba,
        Some(command::ImageFormat::Rgb) => store::ImageFormat::Rgb,
        Some(command::ImageFormat::Png) => store::ImageFormat::Png,
        None => store::ImageFormat::Rgba,
    }
}

/// Convert `command::Compression` to `payload::Compression`.
pub(crate) fn map_compression(c: &command::Compression) -> (r: payload::Compression)
    ensures
        r == payload_compression(*c),
{
    match c {
        command::Compression::Uncompressed => payload::Compression::Uncompressed,
        command::Compression::Zlib => payload::Compression::Zlib,
    }
}

/// Convert `command::ImageFormat` to `store::ImageFormat`.
///
/// Defaults to RGBA (f=32) when no format is specified, matching
/// the Kitty protocol default.
fn map_format(f: &Option<command::ImageFormat>) -> (r: store::ImageFormat)
    ensures
        r == stored_format(*f),
{
    match f {
        Some(command::ImageFormat::Rgba) => store::ImageFormat::Rgba,
        Some(command::ImageFormat::Rgb) => store::ImageFormat::Rgb,
        Some(command::ImageFormat::Png) => store::ImageFormat::Png,
        None => store::ImageFormat::Rgba,
    }
}

/// The success reply: sent only under `q=0`.
pub open spec fn ok_reply(image_id: u32, quiet: u8) -> Seq<u8> {
    if quiet == 0 {
        text_reply(image_id, "OK"@)
    } else {
        Seq::empty()
    }
}

/// The error reply: sent unless `q` is 2 or more.
pub open spec fn error_reply(image_id: u32, message: Seq<char>, quiet: u8) -> Seq<u8> {
    if quiet >= 2 {
        Seq::empty()
    } else {
        text_reply(image_id, message)
    }
}

/// Build an OK response, respecting the quiet flag.
///
/// - `q=0`: send OK response
/// - `q=1`: suppress OK (success) responses
/// - `q=2`: suppress ALL responses
pub(crate) fn ok_response(image_id: u32, quiet: u8) -> (r: Vec<u8>)
    ensures
        r@ == ok_reply(image_id, quiet),
{
    match quiet {
        0 => build_kitty_response(image_id, "OK"),
        _ => Vec::new(),
    }
}

/// Build an error response, respecting the quiet flag.
///
/// - `q=0`: send error response
/// - `q=1`: send error response
/// - `q=2`: suppress ALL responses (including errors)
pub(crate) fn error_response(image_id: u32, message: &str, quiet: u8) -> (r: Vec<u8>)
    ensures
        r@ == error_reply(image_id, message@, quiet),
{
    if quiet >= 2 {
        Vec::new()
    } else {
        build_kitty_response(image_id, message)
    }
}

/// The placement a transmit-and-display command creates.
pub open spec fn default_placement(cmd: CommandView) -> KittyPlacement {
    KittyPlacement {
        placement_id: match cmd.placement_id {
            Some(p) => p,
            None => 0,
        },
        columns: cmd.columns,
        rows: cmd.rows,
        source_x: cmd.source_x,
        source_y: cmd.source_y,
        source_width: cmd.source_width,
        source_height: cmd.source_height,
        cell_offset_x: match cmd.pixel_offset_x {
            Some(x) => x,
            None => 0,
        },
        cell_offset_y: match cmd.pixel_offset_y {
            Some(y) => y,
            None => 0,
        },
        z_index: match cmd.z_index {
            Some(z) => z,
            None => 0,
        },
        virtual_placement: cmd.unicode_placeholder,
    }
}

/// Whether a command displays what it transmits (`a=T`, the default).
pub open spec fn displays(action: Option<KittyAction>) -> bool {
    match action {
        Some(KittyAction::TransmitAndDisplay) | None => true,
        _ => false,
    }
}

/// The image a transmission stores under `id`: the data with the command's
/// format and pixel size, and the command's placement when it displays.
pub open spec fn transmitted_image(id: u32, cmd: CommandView, data: Seq<u8>) -> ImageView {
    ImageView {
        id,
        format: stored_format(cmd.format),
        pixel_width: cmd.pixel_width,
        pixel_height: cmd.pixel_height,
        data,
        placements: if displays(cmd.action) {
            map![default_placement(cmd).placement_id => default_placement(cmd)]
        } else {
            Map::empty()
        },
        frames: Seq::empty(),
    }
}

/// The id that error replies carry: the command's, else 0.
pub open spec fn reply_id(cmd: CommandView) -> u32 {
    match cmd.image_id {
        Some(id) => id,
        None => 0,
    }
}

/// Error text when the store cannot take another image: its automatic ids
/// are used up, or its byte count would overflow.
pub open spec fn store_full_message() -> Seq<char> {
    "ENOMEM:image store is full"@
}

/// The store and reply after transmitting directly sent data that decoded
/// to `decoded`.
pub open spec fn store_decoded_outcome(
    s: StoreView,
    cmd: CommandView,
    decoded: Result<Seq<u8>, DecodeErrorView>,
) -> (StoreView, Seq<u8>) {
    match decoded {
        Err(e) => (s, error_reply(reply_id(cmd), "EBADF:"@ + e.text(), cmd.quiet)),
        Ok(data) => if !s.can_store(cmd.image_id, data.len()) {
            (s, error_reply(reply_id(cmd), store_full_message(), cmd.quiet))
        } else {
            let id = assigned_id(s.next_auto_id, cmd.image_id);
            let stored = s.stored(cmd.image_id, stored_format(cmd.format), data);
            (
                stored.with_images(
                    without(s.images, id).push(transmitted_image(id, cmd, data)),
                ),
                ok_reply(id, cmd.quiet),
            )
        },
    }
}

/// The store and reply after a transmit command whose payload decodes to
/// `decoded`: only direct transmission is served.
pub open spec fn transmit_outcome(
    s: StoreView,
    cmd: CommandView,
    decoded: Result<Seq<u8>, DecodeErrorView>,
) -> (StoreView, Seq<u8>) {
    match cmd.transmission {
        Some(TransmissionMedium::File) | Some(TransmissionMedium::TempFile) => (
            s,
            error_reply(reply_id(cmd), "ENOSYS:file transmission not yet implemented"@, cmd.quiet),
        ),
        Some(TransmissionMedium::SharedMem) => (
            s,
            error_reply(
                reply_id(cmd),
                "ENOSYS:shared memory transmission not supported"@,
                cmd.quiet,
            ),
        ),
        _ => store_decoded_outcome(s, cmd, decoded),
    }
}

/// Store directly transmitted data that decoded to `decoded` and answer:
/// a decoding error is answered `EBADF`, a store that cannot take the image
/// `ENOMEM`; otherwise the image is stored (replacing one of the same id),
/// gets the command's pixel size and, for `a=T`, its placement.
pub fn transmit_decoded(
    cmd: &KittyCommand,
    decoded: Result<Vec<u8>, DecodeError>,
    store: &mut KittyImageStore,
) -> (r: Vec<u8>)
    requires
        old(store).wf(),
    ensures
        final(store).wf(),
        (final(store)@, r@) == store_decoded_outcome(old(store)@, cmd@, result_view(decoded)),
{
    let image_id_for_errors = match cmd.image_id {
        Some(id) => id,
        None => 0,
    };
    let decoded_data = match decoded {
        Ok(data) => data,
        Err(e) => {
            let mut message = String::from_str("EBADF:");
            let text = e.message();
            message.append(text.as_str());
            return error_response(image_id_for_errors, message.as_str(), cmd.quiet);
        },
    };
    if !store.can_store(cmd.image_id, decoded_data.len()) {
        return error_response(image_id_for_errors, "ENOMEM:image store is full", cmd.quiet);
    }
    let ghost s0 = store@;
    let ghost data = decoded_data@;
    let format = map_format(&cmd.format);
    let assigned_id = store.store(cmd.image_id, format, decoded_data);
    let ghost s1 = store@;
    proof {
        store.lemma_wf_valid();
        let images = s1.images;
        assert(images.last().id == assigned_id);
        lemma_position_unique(images, images.len() - 1);
    }
    if cmd.pixel_width.is_some() || cmd.pixel_height.is_some() {
        match store.get_mut(assigned_id) {
            Some(image) => {
                if cmd.pixel_width.is_some() {
                    image.pixel_width = cmd.pixel_width;
                }
                if cmd.pixel_height.is_some() {
                    image.pixel_height = cmd.pixel_height;
                }
            },
            None => {},
        }
    }
    let ghost s2 = store@;
    proof {
        store.lemma_wf_valid();
    }
    let ghost sized = ImageView {
        pixel_width: cmd@.pixel_width,
        pixel_height: cmd@.pixel_height,
        ..ImageView::fresh(assigned_id, format, data)
    };
    assert(s2.images == without(s0.images, assigned_id).push(sized));
    let action = match cmd.action {
        Some(a) => a,
        None => KittyAction::TransmitAndDisplay,
    };
    if action == KittyAction::TransmitAndDisplay {
        let placement = KittyPlacement {
            placement_id: match cmd.placement_id {
                Some(p) => p,
                None => 0,
            },
            columns: cmd.columns,
            rows: cmd.rows,
            source_x: cmd.source_x,
            source_y: cmd.source_y,
            source_width: cmd.source_width,
            source_height: cmd.source_height,
            cell_offset_x: match cmd.pixel_offset_x {
                Some(x) => x,
                None => 0,
            },
            cell_offset_y: match cmd.pixel_offset_y {
                Some(y) => y,
                None => 0,
            },
            z_index: match cmd.z_index {
                Some(z) => z,
                None => 0,
            },
            virtual_placement: cmd.unicode_placeholder,
        };
        store.add_placement(assigned_id, placement);
        proof {
            lemma_position_unique(s2.images, s2.images.len() - 1);
            assert(store@.images =~= without(s0.images, assigned_id).push(
                transmitted_image(assigned_id, cmd@, data),
            ));
        }
    } else {
        proof {
            assert(sized == transmitted_image(assigned_id, cmd@, data));
        }
    }
    ok_response(assigned_id, cmd.quiet)
}

/// Handle a Kitty graphics transmit action (`a=T` or `a=t`).
///
/// `raw_payload` is the base64-encoded bytes from the APC (after the `;`
/// separator). This function decodes the payload, optionally decompresses
/// it, stores the resulting image data, and returns the APC response bytes.
///
/// Returns an empty `Vec<u8>` when the quiet flag suppresses the response.
pub fn handle_transmit(cmd: &KittyCommand, raw_payload: &[u8], store: &mut KittyImageStore) -> (r:
    Vec<u8>)
    requires
        old(store).wf(),
    ensures
        final(store).wf(),
        (final(store)@, r@) == transmit_outcome(
            old(store)@,
            cmd@,
            payload_result(raw_payload@, payload_compression(cmd.compression)),
        ),
{
    let image_id_for_errors = match cmd.image_id {
        Some(id) => id,
        None => 0,
    };
    let medium = match cmd.transmission {
        Some(m) => m,
        None => TransmissionMedium::Direct,
    };
    match medium {
        TransmissionMedium::Direct => {},
        TransmissionMedium::File | TransmissionMedium::TempFile => {
            return error_response(
                image_id_for_errors,
                "ENOSYS:file transmission not yet implemented",
                cmd.quiet,
            );
        },
        TransmissionMedium::SharedMem => {
            return error_response(
                image_id_for_errors,
                "ENOSYS:shared memory transmission not supported",
                cmd.quiet,
            );
        },
    }
    let compression = map_compression(&cmd.compression);
    let decoded = decode_kitty_payload(raw_payload, compression);
    transmit_decoded(cmd, decoded, store)
}

/// A transmission stores its image: it is sent directly, its payload
/// decodes, and the store has room for it.
pub open spec fn transmit_stores(
    s: StoreView,
    cmd: CommandView,
    decoded: Result<Seq<u8>, DecodeErrorView>,
) -> bool {
    &&& !(cmd.transmission matches Some(TransmissionMedium::File))
    &&& !(cmd.transmission matches Some(TransmissionMedium::TempFile))
    &&& !(cmd.transmission matches Some(TransmissionMedium::SharedMem))
    &&& decoded matches Ok(data) && s.can_store(cmd.image_id, data.len())
}

/// The quiet flag decides only what is answered: with `q=0` a stored image
/// is answered `OK` with its id; `q=1` silences that `OK` but no error;
/// `q=2` or more silences every answer; the store ends the same whatever
/// the flag.
pub proof fn lemma_transmit_quiet(
    s: StoreView,
    cmd: CommandView,
    decoded: Result<Seq<u8>, DecodeErrorView>,
)
    ensures
        transmit_outcome(s, cmd, decoded).0 == transmit_outcome(
            s,
            CommandView { quiet: 0, ..cmd },
            decoded,
        ).0,
        cmd.quiet >= 2 ==> transmit_outcome(s, cmd, decoded).1.len() == 0,
        cmd.quiet == 0 && transmit_stores(s, cmd, decoded) ==> transmit_outcome(s, cmd, decoded).1
            == text_reply(assigned_id(s.next_auto_id, cmd.image_id), "OK"@),
        cmd.quiet == 1 && transmit_stores(s, cmd, decoded) ==> transmit_outcome(
            s,
            cmd,
            decoded,
        ).1.len() == 0,
        cmd.quiet < 2 && !transmit_stores(s, cmd, decoded) ==> transmit_outcome(s, cmd, decoded).1
            == transmit_outcome(s, CommandView { quiet: 0, ..cmd }, decoded).1,
{
    let c0 = CommandView { quiet: 0, ..cmd };
    match decoded {
        Ok(data) => {
            let n = assigned_id(s.next_auto_id, cmd.image_id);
            assert(transmitted_image(n, cmd, data) == transmitted_image(n, c0, data));
        },
        Err(_) => {},
    }
}

/// Once an image is stored, a query for its id is answered `OK`.
pub proof fn lemma_transmit_then_query(
    s: StoreView,
    cmd: CommandView,
    decoded: Result<Seq<u8>, DecodeErrorView>,
    query: CommandView,
)
    requires
        transmit_stores(s, cmd, decoded),
        query.image_id == Some(assigned_id(s.next_auto_id, cmd.image_id)),
        query.quiet == 0,
    ensures
        query_reply(query, transmit_outcome(s, cmd, decoded).0) == text_reply(
            assigned_id(s.next_auto_id, cmd.image_id),
            "OK"@,
        ),
{
    let n = assigned_id(s.next_auto_id, cmd.image_id);
    let data = decoded->Ok_0;
    let images = without(s.images, n).push(transmitted_image(n, cmd, data));
    assert(transmit_outcome(s, cmd, decoded).0.images == images);
    assert(images[images.len() - 1].id == n);
    assert(contains_id(images, n));
}

/// A stored transmission holds exactly what was sent. The image under the
/// id it was given has the decoded data, the command's format (RGBA when
/// none is given), the command's pixel size and no frames. A
/// transmit-and-display command (`a=T`, or no action) gives it one
/// placement, under the command's placement id (0 without one), carrying
/// the command's source rectangle and cell size unchanged, its pixel offset
/// as cell offset and its depth (0 where not given), and its placeholder
/// flag; a transmit-only command gives it none. Every other image is as it
/// was.
pub proof fn lemma_transmit_stores_image(
    s: StoreView,
    cmd: CommandView,
    decoded: Result<Seq<u8>, DecodeErrorView>,
)
    requires
        s.valid(),
        transmit_stores(s, cmd, decoded),
    ensures
        ({
            let n = assigned_id(s.next_auto_id, cmd.image_id);
            let out = transmit_outcome(s, cmd, decoded).0;
            let img = lookup(out.images, n)->Some_0;
            let pid = match cmd.placement_id {
                Some(p) => p,
                None => 0,
            };
            let shown = cmd.action is None || cmd.action == Some(KittyAction::TransmitAndDisplay);
            &&& lookup(out.images, n) is Some
            &&& img.id == n
            &&& img.data == decoded->Ok_0
            &&& img.format == stored_format(cmd.format)
            &&& img.pixel_width == cmd.pixel_width
            &&& img.pixel_height == cmd.pixel_height
            &&& img.frames.len() == 0
            &&& shown ==> img.placements.dom() == set![pid]
            &&& shown ==> img.placements[pid].placement_id == pid
            &&& shown ==> img.placements[pid].source_x == cmd.source_x
            &&& shown ==> img.placements[pid].source_y == cmd.source_y
            &&& shown ==> img.placements[pid].source_width == cmd.source_width
            &&& shown ==> img.placements[pid].source_height == cmd.source_height
            &&& shown ==> img.placements[pid].columns == cmd.columns
            &&& shown ==> img.placements[pid].rows == cmd.rows
            &&& shown ==> img.placements[pid].cell_offset_x == (match cmd.pixel_offset_x {
                Some(x) => x,
                None => 0,
            })
            &&& shown ==> img.placements[pid].cell_offset_y == (match cmd.pixel_offset_y {
                Some(y) => y,
                None => 0,
            })
            &&& shown ==> img.placements[pid].z_index == (match cmd.z_index {
                Some(z) => z,
                None => 0,
            })
            &&& shown ==> img.placements[pid].virtual_placement == cmd.unicode_placeholder
            &&& !shown ==> img.placements.is_empty()
            &&& forall|other: u32| other != n ==> #[trigger] lookup(out.images, other) == lookup(s.images, other)
        }),
{
    let n = assigned_id(s.next_auto_id, cmd.image_id);
    let data = decoded->Ok_0;
    let w = without(s.images, n);
    let ti = transmitted_image(n, cmd, data);
    lemma_remove_then_get(s, n);
    if contains_id(s.images, n) {
        lemma_remove_distinct(s.images, position_of(s.images, n));
    }
    lemma_push_lookup(w, ti);
    assert(transmit_outcome(s, cmd, decoded).0.images == w.push(ti));
    let pid = match cmd.placement_id {
        Some(p) => p,
        None => 0,
    };
    if displays(cmd.action) {
        assert(ti.placements.dom() =~= set![pid]);
    }
}

/// A transmission that is not stored leaves the store exactly as it was,
/// and says why, unless `q=2` silences it: file and temporary-file
/// transmission are not implemented (`ENOSYS`), shared memory is not
/// supported (`ENOSYS`), a payload that does not decode is answered
/// `EBADF` with the decoder's message, and a store that cannot take the
/// image `ENOMEM`; each answer carries the command's image id, else 0.
pub proof fn lemma_transmit_refusals(
    s: StoreView,
    cmd: CommandView,
    decoded: Result<Seq<u8>, DecodeErrorView>,
)
    ensures
        !transmit_stores(s, cmd, decoded) ==> transmit_outcome(s, cmd, decoded).0 == s,
        ({
            let id = match cmd.image_id {
                Some(i) => i,
                None => 0u32,
            };
            let reply = transmit_outcome(s, cmd, decoded).1;
            let direct = cmd.transmission is None || cmd.transmission == Some(TransmissionMedium::Direct);
            &&& cmd.quiet >= 2 ==> reply.len() == 0
            &&& cmd.quiet < 2 ==> {
                &&& (cmd.transmission == Some(TransmissionMedium::File) || cmd.transmission == Some(
                    TransmissionMedium::TempFile,
                )) ==> reply == text_reply(id, "ENOSYS:file transmission not yet implemented"@)
                &&& cmd.transmission == Some(TransmissionMedium::SharedMem) ==> reply == text_reply(
                    id,
                    "ENOSYS:shared memory transmission not supported"@,
                )
                &&& direct ==> (decoded matches Err(e) ==> reply == text_reply(id, "EBADF:"@ + e.text()))
                &&& direct ==> (decoded matches Ok(data) ==> (!s.can_store(cmd.image_id, data.len())
                    ==> reply == text_reply(id, "ENOMEM:image store is full"@)))
            }
        }),
{
}

} // verus!
