use vstd::prelude::*;

use crate::buffer_builder::fits;
use crate::frame::{kind_of, FrameKind, Header};

verus! {

/// What the assembler holds: for each session with an accumulation buffer,
/// the payload accumulated so far. An empty payload is an idle buffer.
pub type Sessions = Map<i32, Seq<u8>>;

/// A message is being assembled for `sid`: its buffer exists and is not idle.
pub open spec fn is_assembling(s: Sessions, sid: i32) -> bool {
    s.contains_key(sid) && s[sid].len() > 0
}

/// Appending the frame's payload would exceed the buffer's capacity.
pub open spec fn overflows(s: Sessions, kind: FrameKind, sid: i32, payload: Seq<u8>) -> bool {
    match kind {
        FrameKind::Unfragmented => false,
        FrameKind::Begin => !fits(Seq::empty(), payload),
        _ => is_assembling(s, sid) && !fits(s[sid], payload),
    }
}

/// The payload handed to the delegate on receipt of a frame, if any: the
/// frame's own payload when it is unfragmented, the whole assembled message
/// when it ends one.
pub open spec fn message(s: Sessions, kind: FrameKind, sid: i32, payload: Seq<u8>) -> Option<
    Seq<u8>,
> {
    match kind {
        FrameKind::Unfragmented => Some(payload),
        FrameKind::End => if is_assembling(s, sid) && fits(s[sid], payload) {
            Some(s[sid] + payload)
        } else {
            None
        },
        _ => None,
    }
}

/// The sessions after a frame, where `accepted` tells whether the delegate
/// accepted a completed message (it matters only when one was delivered).
pub open spec fn next_sessions(
    s: Sessions,
    kind: FrameKind,
    sid: i32,
    payload: Seq<u8>,
    accepted: bool,
) -> Sessions {
    match kind {
        FrameKind::Unfragmented => s,
        FrameKind::Begin => if fits(Seq::empty(), payload) {
            s.insert(sid, payload)
        } else {
            s.insert(sid, Seq::empty())
        },
        FrameKind::Middle => if is_assembling(s, sid) && fits(s[sid], payload) {
            s.insert(sid, s[sid] + payload)
        } else {
            s
        },
        FrameKind::End => if is_assembling(s, sid) && fits(s[sid], payload) {
            if accepted {
                s.insert(sid, Seq::empty())
            } else {
                s.insert(sid, s[sid] + payload)
            }
        } else {
            s
        },
    }
}

/// A frame as the model sees it: its header and its payload bytes.
pub struct Frame {
    pub header: Header,
    pub payload: Seq<u8>,
}

/// A message handed to the delegate: its payload and the header passed along.
pub struct Message {
    pub payload: Seq<u8>,
    pub header: Header,
}

/// The sessions after one frame, with a delegate that accepts every message.
pub open spec fn step(s: Sessions, f: Frame) -> Sessions {
    next_sessions(s, kind_of(f.header.flags), f.header.session_id, f.payload, true)
}

/// The messages delivered on one frame: none or one.
pub open spec fn step_messages(s: Sessions, f: Frame) -> Seq<Message> {
    match message(s, kind_of(f.header.flags), f.header.session_id, f.payload) {
        Some(m) => seq![Message { payload: m, header: f.header }],
        None => Seq::empty(),
    }
}

/// The sessions after a run of frames, with a delegate that accepts every
/// message.
pub open spec fn sessions_after(s: Sessions, frames: Seq<Frame>) -> Sessions
    decreases frames.len(),
{
    if frames.len() == 0 {
        s
    } else {
        step(sessions_after(s, frames.drop_last()), frames.last())
    }
}

/// The messages delivered, in order, over a run of frames, with a delegate
/// that accepts every message.
pub open spec fn messages_after(s: Sessions, frames: Seq<Frame>) -> Seq<Message>
    decreases frames.len(),
{
    if frames.len() == 0 {
        Seq::empty()
    } else {
        let before = frames.drop_last();
        messages_after(s, before) + step_messages(sessions_after(s, before), frames.last())
    }
}

/// The payloads of a run of frames, concatenated in arrival order.
pub open spec fn concat_payloads(frames: Seq<Frame>) -> Seq<u8>
    decreases frames.len(),
{
    if frames.len() == 0 {
        Seq::empty()
    } else {
        concat_payloads(frames.drop_last()) + frames.last().payload
    }
}

} // verus!
