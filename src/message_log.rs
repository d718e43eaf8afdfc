use vstd::prelude::*;

use crate::fragment_assembler::{Call, FragmentHandler};
use crate::frame::Header;

verus! {

/// The answer of a `MessageLog` to a message longer than its limit.
#[derive(Clone, Copy, Debug, PartialEq, Eq, Structural)]
pub struct MessageTooLong {
    pub length: usize,
}

/// What a `MessageLog` with the given limit answers to a message of `length`
/// bytes.
pub open spec fn log_answer(max_length: usize, length: usize) -> Result<(), MessageTooLong> {
    if length <= max_length {
        Ok(())
    } else {
        Err(MessageTooLong { length })
    }
}

/// A delegate that keeps a copy of every message it is handed, with the
/// offset it was found at and its header, in arrival order. It accepts
/// messages of up to `max_length` bytes and refuses longer ones, which it
/// still records.
pub struct MessageLog {
    messages: Vec<(Vec<u8>, usize, Header)>,
    max_length: usize,
    calls: Ghost<Seq<Call<MessageTooLong>>>,
}

impl MessageLog {
    /// The messages recorded so far, one for each call received: the payload
    /// handed over, its offset, and the header.
    pub open spec fn messages(&self) -> Seq<(Seq<u8>, usize, Header)> {
        self.calls().map_values(|c: Call<MessageTooLong>| (c.payload(), c.offset, c.header))
    }

    /// The length of the longest message accepted.
    pub closed spec fn max_length(&self) -> usize {
        self.max_length
    }

    /// Each copy kept matches the call it came from, and each call was
    /// answered by the limit.
    #[verifier::type_invariant]
    closed spec fn keeps_copies(&self) -> bool {
        &&& self.messages@.len() == self.calls@.len()
        &&& forall|i: int|
            0 <= i < self.calls@.len() ==> {
                &&& (#[trigger] self.messages@[i]).0@ == self.calls@[i].payload()
                &&& self.calls@[i].offset + self.calls@[i].length <= self.calls@[i].buffer.len()
                &&& self.messages@[i].1 == self.calls@[i].offset
                &&& self.messages@[i].2 == self.calls@[i].header
                &&& self.calls@[i].result == log_answer(self.max_length, self.calls@[i].length)
            }
    }

    /// An empty log that accepts every message.
    pub fn new() -> (log: MessageLog)
        ensures
            log.calls() == Seq::<Call<MessageTooLong>>::empty(),
            log.max_length() == usize::MAX,
    {
        MessageLog::with_max_length(usize::MAX)
    }

    /// An empty log that refuses messages longer than `max_length` bytes.
    pub fn with_max_length(max_length: usize) -> (log: MessageLog)
        ensures
            log.calls() == Seq::<Call<MessageTooLong>>::empty(),
            log.max_length() == max_length,
    {
        MessageLog { messages: Vec::new(), max_length, calls: Ghost(Seq::empty()) }
    }

    /// How many messages have been recorded.
    pub fn len(&self) -> (n: usize)
        ensures
            n == self.messages().len(),
    {
        proof {
            use_type_invariant(self);
        }
        self.messages.len()
    }

    /// The payload of the `i`-th message recorded.
    pub fn payload(&self, i: usize) -> (p: &Vec<u8>)
        requires
            i < self.messages().len(),
        ensures
            p@ == self.messages()[i as int].0,
    {
        proof {
            use_type_invariant(self);
        }
        &self.messages[i].0
    }

    /// The offset at which the `i`-th message was handed over.
    pub fn offset(&self, i: usize) -> (o: usize)
        requires
            i < self.messages().len(),
        ensures
            o == self.messages()[i as int].1,
    {
        proof {
            use_type_invariant(self);
        }
        self.messages[i].1
    }

    /// The header that came with the `i`-th message recorded.
    pub fn header(&self, i: usize) -> (h: Header)
        requires
            i < self.messages().len(),
        ensures
            h == self.messages()[i as int].2,
    {
        proof {
            use_type_invariant(self);
        }
        self.messages[i].2
    }

    /// What was answered to the `i`-th call: the limit decides.
    pub fn answer(&self, i: usize) -> (r: Result<(), MessageTooLong>)
        requires
            i < self.calls().len(),
        ensures
            r == self.calls()[i as int].result,
            r == log_answer(self.max_length(), self.calls()[i as int].length),
    {
        proof {
            use_type_invariant(self);
        }
        let length = self.messages[i].0.len();
        if length <= self.max_length {
            Ok(())
        } else {
            Err(MessageTooLong { length })
        }
    }
}

impl FragmentHandler for MessageLog {
    type Error = MessageTooLong;

    closed spec fn calls(&self) -> Seq<Call<MessageTooLong>> {
        self.calls@
    }

    fn on_message(&mut self, buffer: &[u8], offset: usize, length: usize, header: &Header) -> (r:
        Result<(), MessageTooLong>) {
        proof {
            use_type_invariant(&*self);
        }
        let n = buffer.len();
        let end = offset + length;
        let mut copy: Vec<u8> = Vec::with_capacity(length);
        let mut i: usize = offset;
        while i < end
            invariant
                offset <= i <= end,
                end == offset + length,
                end <= n,
                n == buffer@.len(),
                copy@ == buffer@.subrange(offset as int, i as int),
            decreases end - i,
        {
            copy.push(buffer[i]);
            i = i + 1;
            proof {
                assert(buffer@.subrange(offset as int, i as int) =~= buffer@.subrange(
                    offset as int,
                    i - 1,
                ).push(buffer@[i - 1]));
            }
        }
        let answer = if length <= self.max_length {
            Ok(())
        } else {
            Err(MessageTooLong { length })
        };
        let mut taken = MessageLog::new();
        core::mem::swap(self, &mut taken);
        let MessageLog { mut messages, max_length, calls } = taken;
        messages.push((copy, offset, *header));
        let calls = Ghost(
            calls@.push(Call { buffer: buffer@, offset, length, header: *header, result: answer }),
        );
        *self = MessageLog { messages, max_length, calls };
        answer
    }
}

} // verus!
