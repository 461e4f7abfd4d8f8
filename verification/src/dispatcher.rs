//! Kitty graphics protocol APC dispatch logic.
//!
//! Routes a complete APC payload (captured by ApcParser) to the correct
//! handler based on the parsed command's action field.

use vstd::prelude::*;

use crate::animation::{animate_reply, frame_outcome, handle_animate, handle_frame};
use crate::chunked::{lemma_single_chunk_completes, AssemblerView, ChunkAssembler, ChunkResult, ChunkResultView};
use crate::command::{spec_parse, CommandView, KittyAction, KittyCommand};
use crate::delete::{deletion, handle_delete};
use crate::passthrough::{build_passthrough_apc, passthrough_apc};
use crate::payload::payload_result;
use crate::query::{handle_query, query_reply, text_reply};
use crate::store::{KittyImageStore, StoreView};
use crate::transmit::{
    handle_transmit, lemma_transmit_then_query, payload_compression, transmit_outcome, transmit_stores,
};

verus! {

/// Result of dispatching a complete APC sequence.
pub struct DispatchResult {
    /// Response bytes to send back to the application (via PTY write).
    /// Empty if quiet mode suppressed the response.
    pub response: Vec<u8>,
    /// Image data that needs to be forwarded to the host terminal.
    /// Empty if no passthrough needed for this action.
    pub passthrough_apc: Vec<u8>,
}

/// Mathematical value of a dispatch result.
pub struct DispatchView {
    pub response: Seq<u8>,
    pub passthrough_apc: Seq<u8>,
}

impl View for DispatchResult {
    type V = DispatchView;

    open spec fn view(&self) -> DispatchView {
        DispatchView { response: self.response@, passthrough_apc: self.passthrough_apc@ }
    }
}

/// Neither a reply nor anything for the host.
pub open spec fn silent() -> DispatchView {
    DispatchView { response: Seq::empty(), passthrough_apc: Seq::empty() }
}

/// The store after a transmit of `cmd`, decoding its payload.
pub open spec fn transmitted(s: StoreView, cmd: CommandView) -> (StoreView, Seq<u8>) {
    transmit_outcome(s, cmd, payload_result(cmd.payload, payload_compression(cmd.compression)))
}

/// The store and answer after acting on a complete command `cmd` that
/// arrived in APC data `data`.
pub open spec fn acted(s: StoreView, cmd: CommandView, data: Seq<u8>) -> (StoreView, DispatchView) {
    let action = match cmd.action {
        Some(a) => a,
        None => KittyAction::TransmitAndDisplay,
    };
    match action {
        KittyAction::TransmitAndDisplay | KittyAction::Transmit => {
            let (s2, reply) = transmitted(s, cmd);
            (s2, DispatchView { response: reply, passthrough_apc: passthrough_apc(data) })
        },
        KittyAction::Place => (
            s,
            DispatchView { response: Seq::empty(), passthrough_apc: passthrough_apc(data) },
        ),
        KittyAction::Query => {
            let s2 = if cmd.payload.len() > 0 {
                transmitted(s, cmd).0
            } else {
                s
            };
            (s2, DispatchView { response: query_reply(cmd, s2), passthrough_apc: Seq::empty() })
        },
        KittyAction::Delete => (
            deletion(s, cmd).store,
            DispatchView { response: Seq::empty(), passthrough_apc: passthrough_apc(data) },
        ),
        KittyAction::Frame => {
            let (s2, reply) = frame_outcome(
                s,
                cmd,
                payload_result(cmd.payload, payload_compression(cmd.compression)),
            );
            (s2, DispatchView { response: reply, passthrough_apc: passthrough_apc(data) })
        },
        KittyAction::Animate => (
            s,
            DispatchView { response: animate_reply(s, cmd), passthrough_apc: passthrough_apc(data) },
        ),
    }
}

/// The store, assembler and answer after dispatching APC data `data`:
/// data that does not parse is dropped; a chunk with more to come is only
/// buffered; a complete transmission is acted on with the first chunk's
/// keys (or its own, when it came whole) and the joined payload.
pub open spec fn dispatched(s: StoreView, a: AssemblerView, data: Seq<u8>) -> (
    StoreView,
    AssemblerView,
    DispatchView,
) {
    match spec_parse(data) {
        Err(_) => (s, a, silent()),
        Ok(cmd) => {
            let (a2, chunk) = a.added(cmd, cmd.payload, cmd.more_chunks);
            match chunk {
                ChunkResultView::Buffered => (s, a2, silent()),
                ChunkResultView::Complete(first, payload) => {
                    let keys = match first {
                        Some(f) => f,
                        None => cmd,
                    };
                    let (s2, out) = acted(s, CommandView { payload, ..keys }, data);
                    (s2, a2, out)
                },
            }
        },
    }
}

/// Dispatch a complete Kitty graphics APC payload to the appropriate handler.
///
/// `apc_data` is the raw bytes between `ESC_G` and ST (the payload captured
/// by ApcParser), NOT including the `ESC_G` prefix or the ST terminator.
pub fn dispatch_kitty_apc(
    apc_data: &[u8],
    store: &mut KittyImageStore,
    chunk_assembler: &mut ChunkAssembler,
    cursor_row: u32,
    cursor_col: u32,
) -> (r: DispatchResult)
    requires
        old(store).wf(),
        old(chunk_assembler).wf(),
    ensures
        final(store).wf(),
        final(chunk_assembler).wf(),
        (final(store)@, final(chunk_assembler)@, r@) == dispatched(
            old(store)@,
            old(chunk_assembler)@,
            apc_data@,
        ),
{
    let cmd = match KittyCommand::parse(apc_data) {
        Ok(cmd) => cmd,
        Err(_) => {
            return DispatchResult { response: Vec::new(), passthrough_apc: Vec::new() };
        },
    };
    let (first, payload) = match chunk_assembler.add_chunk(&cmd, cmd.payload.as_slice(), cmd.more_chunks) {
        ChunkResult::Buffered => {
            return DispatchResult { response: Vec::new(), passthrough_apc: Vec::new() };
        },
        ChunkResult::Complete(first, payload) => (first, payload),
    };
    let mut cmd = match first {
        Some(f) => f,
        None => cmd,
    };
    cmd.payload = payload;
    let action = match cmd.action {
        Some(a) => a,
        None => KittyAction::TransmitAndDisplay,
    };
    match action {
        KittyAction::TransmitAndDisplay | KittyAction::Transmit => {
            let response = handle_transmit(&cmd, cmd.payload.as_slice(), store);
            let passthrough_apc = build_passthrough_apc(apc_data);
            DispatchResult { response, passthrough_apc }
        },
        KittyAction::Place => {
            let passthrough_apc = build_passthrough_apc(apc_data);
            DispatchResult { response: Vec::new(), passthrough_apc }
        },
        KittyAction::Query => {
            if cmd.payload.len() > 0 {
                let _ = handle_transmit(&cmd, cmd.payload.as_slice(), store);
            }
            let response = handle_query(&cmd, store);
            DispatchResult { response, passthrough_apc: Vec::new() }
        },
        KittyAction::Delete => {
            let _result = handle_delete(&cmd, store, cursor_row, cursor_col);
            let passthrough_apc = build_passthrough_apc(apc_data);
            DispatchResult { response: Vec::new(), passthrough_apc }
        },
        KittyAction::Frame => {
            let response = handle_frame(&cmd, store);
            let passthrough_apc = build_passthrough_apc(apc_data);
            DispatchResult { response, passthrough_apc }
        },
        KittyAction::Animate => {
            let response = handle_animate(&cmd, store);
            let passthrough_apc = build_passthrough_apc(apc_data);
            DispatchResult { response, passthrough_apc }
        },
    }
}

/// A query that carries an image is answered as if the image had just been
/// transmitted. When APC data parses to a query that completes at once
/// (no more chunks to come and nothing pending under its key) and whose
/// payload decodes and fits the store, the store afterwards is the store
/// after transmitting that payload, nothing is passed to the host, and an
/// unquieted query is answered `OK`: for its image id, or with id 0 when it
/// names none.
pub proof fn lemma_query_carries_image(s: StoreView, a: AssemblerView, data: Seq<u8>, cmd: CommandView)
    requires
        s.valid(),
        a.valid(),
        spec_parse(data) == Ok::<CommandView, Seq<char>>(cmd),
        cmd.action == Some(KittyAction::Query),
        !cmd.more_chunks,
        !a.pending.contains_key(a.key_for(cmd.image_id)),
        cmd.payload.len() > 0,
        transmit_stores(s, cmd, payload_result(cmd.payload, payload_compression(cmd.compression))),
    ensures
        dispatched(s, a, data).0 == transmit_outcome(
            s,
            cmd,
            payload_result(cmd.payload, payload_compression(cmd.compression)),
        ).0,
        dispatched(s, a, data).2.passthrough_apc.len() == 0,
        cmd.image_id matches Some(n) ==> (n != 0 && cmd.quiet == 0 ==> dispatched(s, a, data).2.response
            == text_reply(n, "OK"@)),
        cmd.image_id is None && cmd.quiet == 0 ==> dispatched(s, a, data).2.response == text_reply(
            0,
            "OK"@,
        ),
{
    let decoded = payload_result(cmd.payload, payload_compression(cmd.compression));
    assert(a.keyed(cmd.image_id).pending == a.pending);
    assert(CommandView { payload: cmd.payload, ..cmd } == cmd);
    if let Some(n) = cmd.image_id {
        if n != 0 && cmd.quiet == 0 {
            lemma_transmit_then_query(s, cmd, decoded, cmd);
        }
    }
}

/// What dispatching does with APC data. Data that does not parse changes
/// nothing and is answered with nothing; a chunk with more to come leaves
/// the store as it is and is answered with nothing. A command that comes
/// whole (no more chunks, nothing pending under its key) is acted on with
/// its own keys and payload: a transmission stores as `handle_transmit`
/// does and answers its reply; a place command leaves the store and answers
/// nothing; a delete removes what the deletion removes and answers nothing;
/// a query without payload leaves the store and answers the query; a frame
/// command adds the frame as `handle_frame` does; an animate command leaves
/// the store. Every action but a query is passed on to the host terminal
/// re-wrapped; a query never is.
pub proof fn lemma_dispatch_actions(s: StoreView, a: AssemblerView, data: Seq<u8>)
    requires
        a.valid(),
    ensures
        spec_parse(data) is Err ==> dispatched(s, a, data) == (s, a, silent()),
        spec_parse(data) matches Ok(cmd) ==> (cmd.more_chunks ==> dispatched(s, a, data).0 == s
            && dispatched(s, a, data).2 == silent()),
        spec_parse(data) matches Ok(cmd) ==> (!cmd.more_chunks && !a.pending.contains_key(a.key_for(cmd.image_id))
            ==> {
            let out = dispatched(s, a, data);
            let decoded = payload_result(cmd.payload, payload_compression(cmd.compression));
            &&& out.1.pending == a.pending
            &&& cmd.action != Some(KittyAction::Query) ==> out.2.passthrough_apc == passthrough_apc(data)
            &&& cmd.action == Some(KittyAction::Query) ==> out.2.passthrough_apc.len() == 0
            &&& (cmd.action is None || cmd.action == Some(KittyAction::TransmitAndDisplay) || cmd.action == Some(
                KittyAction::Transmit,
            )) ==> out.0 == transmit_outcome(s, cmd, decoded).0 && out.2.response == transmit_outcome(
                s,
                cmd,
                decoded,
            ).1
            &&& cmd.action == Some(KittyAction::Place) ==> out.0 == s && out.2.response.len() == 0
            &&& cmd.action == Some(KittyAction::Delete) ==> out.0 == deletion(s, cmd).store
                && out.2.response.len() == 0
            &&& cmd.action == Some(KittyAction::Query) && cmd.payload.len() == 0 ==> out.0 == s
                && out.2.response == query_reply(cmd, s)
            &&& cmd.action == Some(KittyAction::Frame) ==> out.0 == frame_outcome(s, cmd, decoded).0
                && out.2.response == frame_outcome(s, cmd, decoded).1
            &&& cmd.action == Some(KittyAction::Animate) ==> out.0 == s && out.2.response == animate_reply(
                s,
                cmd,
            )
        }),
{
    if let Ok(cmd) = spec_parse(data) {
        if cmd.more_chunks {
        } else if !a.pending.contains_key(a.key_for(cmd.image_id)) {
            lemma_single_chunk_completes(a, cmd, cmd.payload);
            assert(CommandView { payload: cmd.payload, ..cmd } == cmd);
        }
    }
}

} // verus!
