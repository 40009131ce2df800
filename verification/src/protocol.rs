//! Binary wire protocol for master <-> worker data channels.
//!
//! Every data-channel message is one frame:
//!
//! ```text
//! [magic u8][version u8][ftype u8][reserved u8]
//! [id_len u16 LE][transfer id bytes (utf8)]
//! [frame_seq u32 LE][total_frames u32 LE]
//! [payload_len u32 LE][payload bytes]
//! ```
//!
//! Frames of one transfer reassemble into a payload. Task payloads carry a
//! JSON header plus length-prefixed sections (wasm, js glue, input). Result
//! payloads carry a JSON header plus the raw result body.

pub mod bytes;
pub mod frame;
pub mod laws;
pub mod payload;
pub mod reassembler;

pub use self::frame::{
    decode_frame, encode_frame, split_into_frames, Frame, FRAME_MAGIC, FRAME_RESULT, FRAME_TASK,
    MAX_FRAME_PAYLOAD, PROTO_VERSION,
};
pub use self::payload::{
    decode_result_payload, decode_task_payload, encode_result_payload, encode_task_payload,
    ResultHeader, TaskHeader, TaskPayload,
};
pub use self::reassembler::Reassembler;
