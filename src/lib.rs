//! Reassembly of fragmented messages received over a frame-oriented transport.
//!
//! Frames carry begin/end flags; messages that span several frames are
//! accumulated per session and handed to a delegate only when complete.
//! Unfragmented frames are handed over as they arrive, without a copy.

pub mod buffer_builder;
pub mod fragment_assembler;
pub mod frame;
pub mod laws;
pub mod message_log;
pub mod model;

pub use buffer_builder::{BufferBuilder, CapacityExceeded, DEFAULT_BUFFER_LENGTH, MAX_CAPACITY};
pub use fragment_assembler::{
    delivered, handles_frame, lemma_handler_follows_model, FragmentAssembler, FragmentError,
    FragmentHandler, Call, passed_on,
};
pub use message_log::{log_answer, MessageLog, MessageTooLong};
pub use frame::{
    frame_kind, FrameKind, Header, BEGIN_FRAG, DATA_FRAME_HEADER_LENGTH, END_FRAG, UNFRAGMENTED,
};
