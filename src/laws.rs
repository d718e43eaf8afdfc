use vstd::prelude::*;

use crate::buffer_builder::fits;
use crate::frame::{kind_of, FrameKind};
use crate::model::{
    concat_payloads, is_assembling, messages_after, sessions_after, step, step_messages, Frame,
    Message, Sessions,
};

verus! {

/// `frames` is one fragmented message of session `sid`: a begin frame, any
/// number of middle frames, and an end frame.
pub open spec fn is_fragment_run(frames: Seq<Frame>, sid: i32) -> bool {
    &&& frames.len() >= 2
    &&& kind_of(frames[0].header.flags) == FrameKind::Begin
    &&& kind_of(frames.last().header.flags) == FrameKind::End
    &&& forall|i: int|
        0 < i < frames.len() - 1 ==> kind_of(#[trigger] frames[i].header.flags) == FrameKind::Middle
    &&& forall|i: int| 0 <= i < frames.len() ==> #[trigger] frames[i].header.session_id == sid
}

/// Every frame of `frames` belongs to session `sid` and is a middle or an end
/// frame.
pub open spec fn is_stray_run(frames: Seq<Frame>, sid: i32) -> bool {
    forall|i: int|
        0 <= i < frames.len() ==> {
            &&& #[trigger] frames[i].header.session_id == sid
            &&& kind_of(frames[i].header.flags) == FrameKind::Middle || kind_of(
                frames[i].header.flags,
            ) == FrameKind::End
        }
}

/// Running two batches of frames one after the other delivers what the first
/// delivers, then what the second delivers from where the first left off.
pub proof fn lemma_run_concat(s: Sessions, a: Seq<Frame>, b: Seq<Frame>)
    ensures
        sessions_after(s, a + b) == sessions_after(sessions_after(s, a), b),
        messages_after(s, a + b) == messages_after(s, a) + messages_after(sessions_after(s, a), b),
    decreases b.len(),
{
    if b.len() == 0 {
        assert(a + b =~= a);
        assert(messages_after(s, a) + Seq::<Message>::empty() =~= messages_after(s, a));
    } else {
        assert((a + b).drop_last() =~= a + b.drop_last());
        assert((a + b).last() == b.last());
        lemma_run_concat(s, a, b.drop_last());
        let mid = sessions_after(s, a);
        assert(messages_after(s, a + b) =~= messages_after(s, a) + messages_after(mid, b));
    }
}

/// The payloads of a prefix of a run are no longer than those of the run.
proof fn lemma_concat_prefix_len(frames: Seq<Frame>, k: int)
    requires
        0 <= k <= frames.len(),
    ensures
        concat_payloads(frames.take(k)).len() <= concat_payloads(frames).len(),
    decreases frames.len(),
{
    if k == frames.len() {
        assert(frames.take(k) =~= frames);
    } else {
        assert(frames.take(k) =~= frames.drop_last().take(k));
        lemma_concat_prefix_len(frames.drop_last(), k);
    }
}

/// After the first `k` frames of a fragmented message, nothing has been
/// delivered and the session holds their payloads.
proof fn lemma_run_prefix(s: Sessions, frames: Seq<Frame>, sid: i32, k: int)
    requires
        is_fragment_run(frames, sid),
        frames[0].payload.len() > 0,
        fits(Seq::empty(), concat_payloads(frames)),
        1 <= k < frames.len(),
    ensures
        sessions_after(s, frames.take(k)) == s.insert(sid, concat_payloads(frames.take(k))),
        messages_after(s, frames.take(k)) == Seq::<Message>::empty(),
        concat_payloads(frames.take(k)).len() > 0,
    decreases k,
{
    let pre = frames.take(k);
    assert(pre.drop_last() =~= frames.take(k - 1));
    assert(pre.last() == frames[k - 1]);
    lemma_concat_prefix_len(frames, k);
    if k == 1 {
        let none = frames.take(0);
        assert(none =~= Seq::<Frame>::empty());
        assert(sessions_after(s, none) == s);
        assert(messages_after(s, none) == Seq::<Message>::empty());
        assert(concat_payloads(none) == Seq::<u8>::empty());
        assert(concat_payloads(pre) =~= frames[0].payload);
        assert(frames[0].header.session_id == sid);
        assert(step(s, frames[0]) == s.insert(sid, frames[0].payload));
        assert(step_messages(s, frames[0]) =~= Seq::<Message>::empty());
        assert(Seq::<Message>::empty() + Seq::<Message>::empty() =~= Seq::<Message>::empty());
    } else {
        lemma_run_prefix(s, frames, sid, k - 1);
        let acc = concat_payloads(frames.take(k - 1));
        let s1 = s.insert(sid, acc);
        assert(s1[sid] == acc);
        assert(is_assembling(s1, sid));
        assert(kind_of(frames[k - 1].header.flags) == FrameKind::Middle);
        assert(frames[k - 1].header.session_id == sid);
        assert(concat_payloads(pre) == acc + frames[k - 1].payload);
        assert(step(s1, frames[k - 1]) =~= s.insert(sid, concat_payloads(pre)));
        assert(step_messages(s1, frames[k - 1]) =~= Seq::<Message>::empty());
        assert(Seq::<Message>::empty() + Seq::<Message>::empty() =~= Seq::<Message>::empty());
    }
}

/// A begin frame, any number of middle frames and an end frame of one session
/// deliver exactly one message: the payloads of all of them concatenated in
/// arrival order, with the header of the end frame. Nothing is delivered
/// before the end frame, and the session's buffer is idle afterwards.
///
/// The begin frame must carry at least one byte: an empty begin frame leaves
/// the buffer idle, so the frames after it are dropped as strays.
pub proof fn lemma_reassembly(s: Sessions, frames: Seq<Frame>, sid: i32)
    requires
        is_fragment_run(frames, sid),
        frames[0].payload.len() > 0,
        fits(Seq::empty(), concat_payloads(frames)),
    ensures
        messages_after(s, frames) == seq![
            Message { payload: concat_payloads(frames), header: frames.last().header },
        ],
        forall|k: int|
            0 <= k < frames.len() ==> messages_after(s, #[trigger] frames.take(k)) == Seq::<
                Message,
            >::empty(),
        sessions_after(s, frames) == s.insert(sid, Seq::empty()),
{
    let n = frames.len() as int;
    lemma_run_prefix(s, frames, sid, n - 1);
    assert(frames.drop_last() =~= frames.take(n - 1));
    let acc = concat_payloads(frames.take(n - 1));
    let s1 = s.insert(sid, acc);
    assert(s1[sid] == acc);
    assert(frames.last().header.session_id == sid) by {
        assert(frames[n - 1].header.session_id == sid);
    }
    assert(messages_after(s, frames) =~= seq![
        Message { payload: concat_payloads(frames), header: frames.last().header },
    ]);
    assert(sessions_after(s, frames) =~= s.insert(sid, Seq::empty()));
    assert forall|k: int| 0 <= k < frames.len() implies messages_after(
        s,
        #[trigger] frames.take(k),
    ) == Seq::<Message>::empty() by {
        if k == 0 {
            assert(frames.take(0) =~= Seq::<Frame>::empty());
        } else {
            lemma_run_prefix(s, frames, sid, k);
        }
    }
}

/// A begin frame followed by an end frame of the same session delivers one
/// message: the two payloads concatenated, with the end frame's header.
/// Nothing is delivered on the begin frame.
///
/// The begin frame must carry at least one byte (see `lemma_reassembly`).
pub proof fn lemma_two_fragment_reassembly(s: Sessions, first: Frame, last: Frame)
    requires
        kind_of(first.header.flags) == FrameKind::Begin,
        kind_of(last.header.flags) == FrameKind::End,
        first.header.session_id == last.header.session_id,
        first.payload.len() > 0,
        fits(first.payload, last.payload),
    ensures
        messages_after(s, seq![first]) == Seq::<Message>::empty(),
        messages_after(s, seq![first, last]) == seq![
            Message { payload: first.payload + last.payload, header: last.header },
        ],
{
    let frames = seq![first, last];
    assert(frames.take(1) =~= seq![first]);
    assert(frames.take(0) =~= Seq::<Frame>::empty());
    assert(frames.drop_last() =~= seq![first]);
    let one = seq![first];
    assert(one.drop_last() =~= Seq::<Frame>::empty());
    assert(one.last() == first);
    assert(concat_payloads(one.drop_last()) == Seq::<u8>::empty());
    assert(concat_payloads(one) =~= first.payload);
    assert(concat_payloads(frames) =~= first.payload + last.payload);
    lemma_reassembly(s, frames, first.header.session_id);
}

/// Middle and end frames of a session that is not assembling a message are
/// dropped: nothing is delivered and no session changes.
pub proof fn lemma_stray_frames(s: Sessions, frames: Seq<Frame>, sid: i32)
    requires
        is_stray_run(frames, sid),
        !is_assembling(s, sid),
    ensures
        messages_after(s, frames) == Seq::<Message>::empty(),
        sessions_after(s, frames) == s,
    decreases frames.len(),
{
    if frames.len() > 0 {
        let before = frames.drop_last();
        assert(is_stray_run(before, sid)) by {
            assert forall|i: int| 0 <= i < before.len() implies #[trigger] before[i].header.session_id == sid
                && (kind_of(before[i].header.flags) == FrameKind::Middle || kind_of(
                before[i].header.flags,
            ) == FrameKind::End) by {
                assert(before[i] == frames[i]);
            }
        }
        lemma_stray_frames(s, before, sid);
        assert(frames.last() == frames[frames.len() - 1]);
        assert(step_messages(s, frames.last()) =~= Seq::<Message>::empty());
        assert(Seq::<Message>::empty() + Seq::<Message>::empty() =~= Seq::<Message>::empty());
    }
}

/// An end frame of a session that has no message under way delivers nothing
/// and changes nothing.
pub proof fn lemma_orphan_end(s: Sessions, f: Frame)
    requires
        kind_of(f.header.flags) == FrameKind::End,
        !is_assembling(s, f.header.session_id),
    ensures
        step_messages(s, f) == Seq::<Message>::empty(),
        step(s, f) == s,
{
}

/// Any number of end frames of a session that never received a begin frame
/// deliver nothing, and leave no trace: frames that follow them are handled
/// as if those end frames had never arrived.
pub proof fn lemma_missing_begin(s: Sessions, ends: Seq<Frame>, sid: i32, later: Seq<Frame>)
    requires
        !s.contains_key(sid),
        forall|i: int|
            0 <= i < ends.len() ==> #[trigger] ends[i].header.session_id == sid && kind_of(
                ends[i].header.flags,
            ) == FrameKind::End,
    ensures
        messages_after(s, ends) == Seq::<Message>::empty(),
        sessions_after(s, ends) == s,
        messages_after(s, ends + later) == messages_after(s, later),
        sessions_after(s, ends + later) == sessions_after(s, later),
{
    lemma_stray_frames(s, ends, sid);
    lemma_run_concat(s, ends, later);
    assert(Seq::<Message>::empty() + messages_after(s, later) =~= messages_after(s, later));
}

/// A begin frame discards a message left incomplete: after a partial message
/// of a session, a complete run of its frames delivers only the payloads of
/// that run.
///
/// The new begin frame must carry at least one byte (see `lemma_reassembly`).
pub proof fn lemma_begin_restarts(s: Sessions, frames: Seq<Frame>, sid: i32)
    requires
        is_assembling(s, sid),
        is_fragment_run(frames, sid),
        frames[0].payload.len() > 0,
        fits(Seq::empty(), concat_payloads(frames)),
    ensures
        messages_after(s, frames) == seq![
            Message { payload: concat_payloads(frames), header: frames.last().header },
        ],
{
    lemma_reassembly(s, frames, sid);
}

/// Once a session's buffer is evicted, its middle and end frames are dropped
/// until a new begin frame arrives.
pub proof fn lemma_eviction(s: Sessions, sid: i32, frames: Seq<Frame>)
    requires
        is_stray_run(frames, sid),
    ensures
        messages_after(s.remove(sid), frames) == Seq::<Message>::empty(),
        sessions_after(s.remove(sid), frames) == s.remove(sid),
{
    lemma_stray_frames(s.remove(sid), frames, sid);
}

} // verus!
