//! Client-side protocol engine for a live-chat stream: a length-delimited frame
//! decoder, the entry-stream traversal state machine, the control-session
//! handshake and dispatch rules, and a line buffer for display.

pub mod comment_buffer;
pub mod control_session;
pub mod entry_stream;
pub mod frame_laws;
pub mod program_info;
pub mod protobuf_stream_reader;
pub mod text;

pub use entry_stream::ViewQuery;
