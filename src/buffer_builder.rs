use vstd::prelude::*;

use crate::frame::DATA_FRAME_HEADER_LENGTH;

verus! {

/// Largest number of bytes, reserved prefix included, that a buffer may hold.
pub const MAX_CAPACITY: usize = 2147483639;

/// Default capacity of a newly created accumulation buffer.
pub const DEFAULT_BUFFER_LENGTH: usize = 4096;

/// Returned by an append that would take a buffer past `MAX_CAPACITY`.
#[derive(Clone, Copy, Debug, PartialEq, Eq, Structural)]
pub struct CapacityExceeded;

/// True when `payload` can be appended to an accumulated `acc` without the
/// buffer exceeding its maximum capacity.
pub open spec fn fits(acc: Seq<u8>, payload: Seq<u8>) -> bool {
    DATA_FRAME_HEADER_LENGTH + acc.len() + payload.len() <= MAX_CAPACITY
}

/// A growable byte buffer that accumulates the payloads of a message.
///
/// The first `DATA_FRAME_HEADER_LENGTH` bytes are a reserved prefix; the
/// write position (`limit`) equals the prefix length exactly when no payload
/// is held.
pub struct BufferBuilder {
    buffer: Vec<u8>,
}

impl BufferBuilder {
    /// The prefix is in place and the capacity bound holds.
    pub open spec fn wf(&self) -> bool {
        DATA_FRAME_HEADER_LENGTH <= self.bytes().len() <= MAX_CAPACITY
    }

    /// All bytes held, reserved prefix included.
    pub closed spec fn bytes(&self) -> Seq<u8> {
        self.buffer@
    }

    /// The accumulated payload: the bytes after the reserved prefix.
    pub open spec fn payload(&self) -> Seq<u8> {
        self.bytes().subrange(DATA_FRAME_HEADER_LENGTH as int, self.bytes().len() as int)
    }

    /// An empty buffer with room for `initial_length` bytes (capped at
    /// `MAX_CAPACITY`) before it first grows.
    pub fn new(initial_length: usize) -> (b: BufferBuilder)
        ensures
            b.wf(),
            b.payload() =~= Seq::<u8>::empty(),
    {
        let capacity = if initial_length < MAX_CAPACITY {
            initial_length
        } else {
            MAX_CAPACITY
        };
        let mut buffer: Vec<u8> = Vec::with_capacity(capacity);
        let mut i: usize = 0;
        while i < DATA_FRAME_HEADER_LENGTH
            invariant
                i <= DATA_FRAME_HEADER_LENGTH,
                buffer@.len() == i,
            decreases DATA_FRAME_HEADER_LENGTH - i,
        {
            buffer.push(0);
            i = i + 1;
        }
        BufferBuilder { buffer }
    }

    /// The write position: the number of bytes held, reserved prefix included.
    pub fn limit(&self) -> (r: usize)
        ensures
            r == self.bytes().len(),
    {
        self.buffer.len()
    }

    /// The bytes held, reserved prefix included.
    pub fn buffer(&self) -> (r: &[u8])
        ensures
            r@ == self.bytes(),
    {
        self.buffer.as_slice()
    }

    /// Discards the accumulated payload, keeping the storage for reuse.
    pub fn reset(&mut self)
        requires
            old(self).wf(),
        ensures
            final(self).wf(),
            final(self).payload() =~= Seq::<u8>::empty(),
            final(self).bytes() == old(self).bytes().subrange(0, DATA_FRAME_HEADER_LENGTH as int),
    {
        self.buffer.truncate(DATA_FRAME_HEADER_LENGTH);
    }

    /// Appends `src[offset..offset + length]` to the payload, or leaves the
    /// buffer unchanged and fails when the result would exceed `MAX_CAPACITY`.
    pub fn append(&mut self, src: &[u8], offset: usize, length: usize) -> (r: Result<(), CapacityExceeded>)
        requires
            old(self).wf(),
            offset + length <= src@.len(),
        ensures
            final(self).wf(),
            ({
                let p = src@.subrange(offset as int, offset + length);
                if fits(old(self).payload(), p) {
                    &&& r is Ok
                    &&& final(self).payload() == old(self).payload() + p
                    &&& final(self).bytes().subrange(0, DATA_FRAME_HEADER_LENGTH as int)
                        == old(self).bytes().subrange(0, DATA_FRAME_HEADER_LENGTH as int)
                } else {
                    &&& r == Err::<(), CapacityExceeded>(CapacityExceeded)
                    &&& final(self).bytes() == old(self).bytes()
                }
            }),
    {
        if length > MAX_CAPACITY - self.buffer.len() {
            return Err(CapacityExceeded);
        }
        let ghost pre = self.buffer@;
        let n = src.len();
        assert(offset + length <= n);
        let end = offset + length;
        let mut i: usize = offset;
        while i < end
            invariant
                offset <= i <= end,
                end == offset + length,
                end <= src@.len(),
                self.buffer@ == pre + src@.subrange(offset as int, i as int),
            decreases end - i,
        {
            self.buffer.push(src[i]);
            i = i + 1;
            proof {
                assert(src@.subrange(offset as int, i as int) =~= src@.subrange(
                    offset as int,
                    i - 1,
                ).push(src@[i - 1]));
            }
        }
        proof {
            let p = src@.subrange(offset as int, end as int);
            assert(self.buffer@.subrange(DATA_FRAME_HEADER_LENGTH as int, self.buffer@.len() as int)
                =~= pre.subrange(DATA_FRAME_HEADER_LENGTH as int, pre.len() as int) + p);
            assert(self.buffer@.subrange(0, DATA_FRAME_HEADER_LENGTH as int) =~= pre.subrange(
                0,
                DATA_FRAME_HEADER_LENGTH as int,
            ));
        }
        Ok(())
    }
}

} // verus!
