use vstd::prelude::*;

use std::collections::HashMap;

use crate::buffer_builder::{BufferBuilder, CapacityExceeded, DEFAULT_BUFFER_LENGTH};
use crate::frame::{kind_of, FrameKind, Header, BEGIN_FRAG, DATA_FRAME_HEADER_LENGTH, END_FRAG, UNFRAGMENTED};
use crate::model::{message, next_sessions, overflows, step, step_messages, Frame, Message, Sessions};

verus! {

broadcast use vstd::std_specs::hash::group_hash_axioms;

/// The application's handler of whole messages.
///
/// It is called with a buffer, the offset and length of the message within
/// it, and the header of the frame that completed the message. Its model is
/// the sequence of calls it has received, each with what it returned.
pub trait FragmentHandler {
    type Error;

    /// Every call received so far, in order, with the result of each.
    spec fn calls(&self) -> Seq<Call<Self::Error>>;

    fn on_message(&mut self, buffer: &[u8], offset: usize, length: usize, header: &Header) -> (r:
        Result<(), Self::Error>)
        requires
            offset + length <= buffer@.len(),
        ensures
            final(self).calls() == old(self).calls().push(
                Call { buffer: buffer@, offset, length, header: *header, result: r },
            ),
    ;
}

/// Why a frame could not be processed.
#[derive(Debug)]
pub enum FragmentError<E> {
    /// The delegate refused the message; its error is passed on unchanged.
    Handler(E),
    /// An accumulation buffer would have exceeded its maximum capacity.
    CapacityExceeded,
}

/// One call of a delegate: its arguments and what it returned.
pub struct Call<E> {
    pub buffer: Seq<u8>,
    pub offset: usize,
    pub length: usize,
    pub header: Header,
    pub result: Result<(), E>,
}

impl<E> Call<E> {
    /// The bytes of the message that was handed over.
    pub open spec fn payload(&self) -> Seq<u8> {
        self.buffer.subrange(self.offset as int, self.offset + self.length)
    }
}

/// Reassembles fragmented messages so that the delegate only sees whole
/// messages.
///
/// Unfragmented frames are delegated without a copy. Fragments are copied
/// into a per-session buffer until the last one arrives; the delegate then
/// gets the assembled message with the header of that last fragment.
///
/// When a completed message is refused by the delegate, its buffer is left as
/// it is rather than reset: the session leaves that state on its next begin
/// frame, which discards the buffer's content. The refused message is not
/// delivered again.
pub struct FragmentAssembler<H: FragmentHandler> {
    delegate: H,
    builder_by_session_id_map: HashMap<i32, BufferBuilder>,
    initial_buffer_length: usize,
}

/// The result of handling a frame whose message the delegate answered with
/// `result`: success, or the delegate's own error, unchanged.
pub open spec fn passed_on<E>(result: Result<(), E>) -> Result<(), FragmentError<E>> {
    match result {
        Ok(()) => Ok(()),
        Err(e) => Err(FragmentError::Handler(e)),
    }
}

/// What a call that handles a frame does: `pre` and `post` are the assembler
/// before and after, `r` the call's result.
///
/// Either the delegate is left untouched, or it receives exactly one call,
/// whose arguments are fixed here and whose answer decides the result and
/// whether the session's buffer is reset.
pub open spec fn handles_frame<H: FragmentHandler>(
    pre: FragmentAssembler<H>,
    post: FragmentAssembler<H>,
    buffer: Seq<u8>,
    offset: usize,
    length: usize,
    header: Header,
    r: Result<(), FragmentError<H::Error>>,
) -> bool {
    let p = buffer.subrange(offset as int, offset + length);
    let kind = kind_of(header.flags);
    let sid = header.session_id;
    let s = pre@;
    let before = pre.spec_delegate().calls();
    let after = post.spec_delegate().calls();
    &&& post.wf()
    &&& post@.dom().finite()
    &&& post.initial_buffer_length() == pre.initial_buffer_length()
    &&& match message(s, kind, sid, p) {
        None => {
            &&& post.spec_delegate() == pre.spec_delegate()
            &&& post@ == next_sessions(s, kind, sid, p, true)
            &&& if overflows(s, kind, sid, p) {
                r == Err::<(), FragmentError<H::Error>>(FragmentError::CapacityExceeded)
            } else {
                r is Ok
            }
        },
        Some(m) => {
            let call = after.last();
            &&& after == before.push(call)
            &&& call.header == header
            &&& call.payload() == m
            &&& if kind == FrameKind::Unfragmented {
                &&& call.buffer == buffer
                &&& call.offset == offset
                &&& call.length == length
            } else {
                &&& call.offset == DATA_FRAME_HEADER_LENGTH
                &&& call.offset + call.length == call.buffer.len()
                &&& call.length == m.len()
            }
            &&& post@ == next_sessions(s, kind, sid, p, call.result is Ok)
            &&& r == passed_on(call.result)
        },
    }
}

/// The message that a call handed to the delegate.
pub open spec fn delivered<E>(call: Call<E>) -> Message {
    Message { payload: call.payload(), header: call.header }
}

/// A frame handled without the delegate refusing a message moves the sessions
/// as the model's `step` does, and the calls it made to the delegate hand over
/// exactly the messages of `step_messages`. The laws stated over runs of
/// frames therefore hold of the assembler while its delegate accepts.
pub proof fn lemma_handler_follows_model<H: FragmentHandler>(
    pre: FragmentAssembler<H>,
    post: FragmentAssembler<H>,
    buffer: Seq<u8>,
    offset: usize,
    length: usize,
    header: Header,
    r: Result<(), FragmentError<H::Error>>,
)
    requires
        handles_frame(pre, post, buffer, offset, length, header, r),
        !(r is Err && r->Err_0 is Handler),
    ensures
        ({
            let f = Frame { header, payload: buffer.subrange(offset as int, offset + length) };
            let before = pre.spec_delegate().calls();
            let after = post.spec_delegate().calls();
            &&& post@ == step(pre@, f)
            &&& after.len() >= before.len()
            &&& after.subrange(0, before.len() as int) == before
            &&& after.subrange(before.len() as int, after.len() as int).map_values(
                |c: Call<H::Error>| delivered(c),
            ) == step_messages(pre@, f)
        }),
{
    let f = Frame { header, payload: buffer.subrange(offset as int, offset + length) };
    let before = pre.spec_delegate().calls();
    let after = post.spec_delegate().calls();
    let added = after.subrange(before.len() as int, after.len() as int);
    match message(pre@, kind_of(header.flags), header.session_id, f.payload) {
        None => {
            assert(added =~= Seq::<Call<H::Error>>::empty());
            assert(after.subrange(0, before.len() as int) =~= before);
            assert(added.map_values(|c: Call<H::Error>| delivered(c)) =~= step_messages(pre@, f));
        },
        Some(m) => {
            let call = after.last();
            assert(added =~= seq![call]);
            assert(after.subrange(0, before.len() as int) =~= before);
            assert(added.map_values(|c: Call<H::Error>| delivered(c)) =~= step_messages(pre@, f));
        },
    }
}

impl<H: FragmentHandler> View for FragmentAssembler<H> {
    type V = Sessions;

    /// The payload accumulated for each session that has a buffer.
    closed spec fn view(&self) -> Sessions {
        Map::new(
            |k: i32| self.builder_by_session_id_map@.contains_key(k),
            |k: i32| self.builder_by_session_id_map@[k].payload(),
        )
    }
}

impl<H: FragmentHandler> FragmentAssembler<H> {
    /// Every buffer held is well formed.
    pub closed spec fn wf(&self) -> bool {
        &&& self.builder_by_session_id_map@.dom().finite()
        &&& forall|k: i32| #[trigger]
            self.builder_by_session_id_map@.contains_key(k)
                ==> self.builder_by_session_id_map@[k].wf()
    }

    /// A well-formed assembler holds buffers for finitely many sessions.
    proof fn lemma_finite_sessions(&self)
        requires
            self.wf(),
        ensures
            self@.dom().finite(),
    {
        assert(self@.dom() =~= self.builder_by_session_id_map@.dom());
    }

    /// The capacity given to a newly created session buffer.
    pub closed spec fn initial_buffer_length(&self) -> usize {
        self.initial_buffer_length
    }

    /// The delegate, as it stands.
    pub closed spec fn spec_delegate(&self) -> H {
        self.delegate
    }

    /// An assembler that forwards whole messages to `delegate`. Each session
    /// buffer starts with room for `initial_buffer_length` bytes, or
    /// `DEFAULT_BUFFER_LENGTH` when none is given.
    pub fn new(delegate: H, initial_buffer_length: Option<usize>) -> (a: Self)
        ensures
            a.wf(),
            a@ == Map::<i32, Seq<u8>>::empty(),
            a.spec_delegate() == delegate,
            a.initial_buffer_length() == match initial_buffer_length {
                Some(n) => n,
                None => DEFAULT_BUFFER_LENGTH,
            },
    {
        let a = FragmentAssembler {
            delegate,
            builder_by_session_id_map: HashMap::new(),
            initial_buffer_length: match initial_buffer_length {
                Some(n) => n,
                None => DEFAULT_BUFFER_LENGTH,
            },
        };
        assert(a@ =~= Map::<i32, Seq<u8>>::empty());
        a
    }

    /// The delegate that whole messages are forwarded to.
    pub fn delegate(&self) -> (r: &H)
        ensures
            *r == self.spec_delegate(),
    {
        &self.delegate
    }


    /// Frees the buffer of a session, if it has one.
    pub fn delete_session_buffer(&mut self, session_id: i32)
        requires
            old(self).wf(),
        ensures
            final(self).wf(),
            final(self)@ == old(self)@.remove(session_id),
            final(self)@.dom().finite(),
            final(self).spec_delegate() == old(self).spec_delegate(),
            final(self).initial_buffer_length() == old(self).initial_buffer_length(),
    {
        proof {
            self.lemma_finite_sessions();
        }
        self.builder_by_session_id_map.remove(&session_id);
        assert(self@ =~= old(self)@.remove(session_id));
    }
    /// Processes one frame: the buffer and the offset and length of the
    /// frame's payload within it, with the frame's header. This is the entry
    /// point to hand to whatever polls the transport for frames.
    pub fn handler(&mut self, buffer: &[u8], offset: usize, length: usize, header: &Header) -> (r:
        Result<(), FragmentError<H::Error>>)
        requires
            old(self).wf(),
            offset + length <= buffer@.len(),
        ensures
            handles_frame(*old(self), *final(self), buffer@, offset, length, *header, r),
    {
        self.on_fragment(buffer, offset, length, header)
    }

    /// Reuses the session's buffer or creates one, and starts a new message
    /// in it with this frame's payload.
    fn begin_message(&mut self, buffer: &[u8], offset: usize, length: usize, session_id: i32) -> (r:
        Result<(), CapacityExceeded>)
        requires
            old(self).wf(),
            offset + length <= buffer@.len(),
        ensures
            final(self).wf(),
            final(self).spec_delegate() == old(self).spec_delegate(),
            final(self).initial_buffer_length() == old(self).initial_buffer_length(),
            ({
                let p = buffer@.subrange(offset as int, offset + length);
                &&& final(self)@ == next_sessions(old(self)@, FrameKind::Begin, session_id, p, true)
                &&& r is Ok <==> !overflows(old(self)@, FrameKind::Begin, session_id, p)
            }),
    {
        let mut builder = match self.builder_by_session_id_map.remove(&session_id) {
            Some(b) => b,
            None => BufferBuilder::new(self.initial_buffer_length),
        };
        builder.reset();
        let res = builder.append(buffer, offset, length);
        self.builder_by_session_id_map.insert(session_id, builder);
        let ghost p = buffer@.subrange(offset as int, offset + length);
        assert(self@ =~= next_sessions(old(self)@, FrameKind::Begin, session_id, p, true));
        res
    }

    fn on_fragment(&mut self, buffer: &[u8], offset: usize, length: usize, header: &Header) -> (r:
        Result<(), FragmentError<H::Error>>)
        requires
            old(self).wf(),
            offset + length <= buffer@.len(),
        ensures
            handles_frame(*old(self), *final(self), buffer@, offset, length, *header, r),
    {
        proof {
            self.lemma_finite_sessions();
        }
        let flags = header.flags();
        let session_id = header.session_id();
        let ghost p = buffer@.subrange(offset as int, offset + length);
        if flags & UNFRAGMENTED == UNFRAGMENTED {
            let res = self.delegate.on_message(buffer, offset, length, header);
            match res {
                Ok(()) => Ok(()),
                Err(e) => Err(FragmentError::Handler(e)),
            }
        } else if flags & BEGIN_FRAG == BEGIN_FRAG {
            match self.begin_message(buffer, offset, length, session_id) {
                Ok(()) => Ok(()),
                Err(_) => Err(FragmentError::CapacityExceeded),
            }
        } else {
            let ghost s = self@;
            let ghost kind = kind_of(flags);
            match self.builder_by_session_id_map.remove(&session_id) {
                None => {
                    assert(self@ =~= s);
                    Ok(())
                },
                Some(mut builder) => {
                    if builder.limit() == DATA_FRAME_HEADER_LENGTH {
                        self.builder_by_session_id_map.insert(session_id, builder);
                        assert(self@ =~= s);
                        return Ok(());
                    }
                    let appended = builder.append(buffer, offset, length);
                    if appended.is_err() {
                        self.builder_by_session_id_map.insert(session_id, builder);
                        assert(self@ =~= s);
                        return Err(FragmentError::CapacityExceeded);
                    }
                    if flags & END_FRAG == END_FRAG {
                        let msg_length = builder.limit() - DATA_FRAME_HEADER_LENGTH;
                        let res = self.delegate.on_message(
                            builder.buffer(),
                            DATA_FRAME_HEADER_LENGTH,
                            msg_length,
                            header,
                        );
                        match res {
                            Ok(()) => {
                                builder.reset();
                                self.builder_by_session_id_map.insert(session_id, builder);
                                assert(self@ =~= next_sessions(s, kind, session_id, p, true));
                                Ok(())
                            },
                            Err(e) => {
                                self.builder_by_session_id_map.insert(session_id, builder);
                                assert(self@ =~= next_sessions(s, kind, session_id, p, false));
                                Err(FragmentError::Handler(e))
                            },
                        }
                    } else {
                        self.builder_by_session_id_map.insert(session_id, builder);
                        assert(self@ =~= next_sessions(s, kind, session_id, p, true));
                        Ok(())
                    }
                },
            }
        }
    }
}

} // verus!
