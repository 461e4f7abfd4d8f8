//! Kitty graphics protocol support for a terminal multiplexer: APC detection,
//! command parsing, chunk assembly, the per-pane image store and the handlers
//! for every protocol action, with their behaviour stated as Verus contracts.

pub mod accounting;
pub mod animation;
pub mod apc_parser;
pub mod cell_size;
pub mod chunked;
pub mod command;
pub mod delete;
pub mod dispatcher;
pub mod encoding;
pub mod integer;
pub mod lifecycle;
pub mod memory;
pub mod passthrough;
pub mod payload;
pub mod placeholder;
pub mod placement;
pub mod query;
pub mod resize;
pub mod response;
pub mod scroll_integration;
pub mod store;
pub mod text;
pub mod transmit;
