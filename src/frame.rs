use vstd::prelude::*;

verus! {

/// Flag bit set on the first frame of a message.
pub const BEGIN_FRAG: u8 = 0x80;

/// Flag bit set on the last frame of a message.
pub const END_FRAG: u8 = 0x40;

/// Both flag bits: a message carried whole by a single frame.
pub const UNFRAGMENTED: u8 = 0xC0;

/// Length in bytes of a data frame header. Accumulation buffers reserve a
/// prefix of this length in front of the assembled payload.
pub const DATA_FRAME_HEADER_LENGTH: usize = 32;

/// Metadata of one received frame.
///
/// The assembler reads `flags` and `session_id`; the other fields are carried
/// through unchanged to the delegate.
#[derive(Clone, Copy, Debug, PartialEq, Eq, Structural)]
pub struct Header {
    pub session_id: i32,
    pub stream_id: i32,
    pub term_id: i32,
    pub term_offset: i32,
    pub frame_length: i32,
    pub flags: u8,
}

/// The four ways a frame can take part in a message.
#[derive(Clone, Copy, Debug, PartialEq, Eq, Structural)]
pub enum FrameKind {
    /// Begin and end flags both set: the frame is a whole message.
    Unfragmented,
    /// Begin flag only: the first frame of a fragmented message.
    Begin,
    /// Neither flag: a frame between the first and the last.
    Middle,
    /// End flag only: the last frame of a fragmented message.
    End,
}

/// The kind of a frame carrying the given flags.
pub open spec fn kind_of(flags: u8) -> FrameKind {
    if flags & UNFRAGMENTED == UNFRAGMENTED {
        FrameKind::Unfragmented
    } else if flags & BEGIN_FRAG == BEGIN_FRAG {
        FrameKind::Begin
    } else if flags & END_FRAG == END_FRAG {
        FrameKind::End
    } else {
        FrameKind::Middle
    }
}

/// Classifies a frame by its fragmentation flags.
pub fn frame_kind(flags: u8) -> (k: FrameKind)
    ensures
        k == kind_of(flags),
{
    if flags & UNFRAGMENTED == UNFRAGMENTED {
        FrameKind::Unfragmented
    } else if flags & BEGIN_FRAG == BEGIN_FRAG {
        FrameKind::Begin
    } else if flags & END_FRAG == END_FRAG {
        FrameKind::End
    } else {
        FrameKind::Middle
    }
}

impl Header {
    /// Flags of the frame.
    pub fn flags(&self) -> (r: u8)
        ensures
            r == self.flags,
    {
        self.flags
    }

    /// Session the frame belongs to.
    pub fn session_id(&self) -> (r: i32)
        ensures
            r == self.session_id,
    {
        self.session_id
    }
}

} // verus!
