//! The write side of a connection: the buffer that messages are enqueued in until they are sent.

use vstd::prelude::*;
use vstd::slice::slice_subrange;
use super::framing::{BUFFER_SIZE, MAX_BUFFER_SIZE};
use super::heap::{heap_as_slice, heap_bytes, heap_len, heap_set};
use super::read::{append_zeros, zeroed_buffer};
use crate::error::Error;

verus! {

/// The buffer of the write side of a connection.
///
/// Each message enqueued is followed by a NUL byte. The buffer grows by `BUFFER_SIZE` zero bytes
/// as needed, up to `MAX_BUFFER_SIZE` bytes.
#[derive(Debug)]
pub struct WriteBuffer {
    buffer: mayheap::Vec<u8, BUFFER_SIZE>,
    pos: usize,
}

impl WriteBuffer {
    /// The bytes of the buffer.
    pub closed spec fn spec_buffer(self) -> Seq<u8> {
        heap_bytes(self.buffer)
    }

    /// How many bytes are enqueued.
    pub closed spec fn spec_pos(self) -> nat {
        self.pos as nat
    }

    /// The bytes enqueued and not yet sent.
    pub open spec fn pending(self) -> Seq<u8> {
        self.spec_buffer().subrange(0, self.spec_pos() as int)
    }

    /// The buffer is well formed: a whole number of `BUFFER_SIZE` blocks, at most
    /// `MAX_BUFFER_SIZE` long, holding what is enqueued.
    pub open spec fn wf(self) -> bool {
        &&& self.spec_buffer().len() % (BUFFER_SIZE as nat) == 0
        &&& BUFFER_SIZE <= self.spec_buffer().len() <= MAX_BUFFER_SIZE
        &&& self.spec_pos() <= self.spec_buffer().len()
    }

    /// Creates an empty buffer of `BUFFER_SIZE` zero bytes.
    pub fn new() -> (r: Self)
        ensures
            r.wf(),
            r.spec_pos() == 0,
            r.spec_buffer() == Seq::new(BUFFER_SIZE as nat, |i: int| 0u8),
    {
        Self { buffer: zeroed_buffer(), pos: 0 }
    }

    /// Grows the buffer by `BUFFER_SIZE` zero bytes, unless it already holds `MAX_BUFFER_SIZE`.
    fn grow_buffer(&mut self) -> (r: Result<(), Error>)
        requires
            old(self).wf(),
        ensures
            final(self).wf(),
            final(self).spec_pos() == old(self).spec_pos(),
            final(self).pending() == old(self).pending(),
            old(self).spec_buffer().len() >= MAX_BUFFER_SIZE ==> (r matches Err(Error::BufferOverflow)
                && final(self).spec_buffer() == old(self).spec_buffer()),
            old(self).spec_buffer().len() < MAX_BUFFER_SIZE ==> r is Ok && final(self).spec_buffer()
                == old(self).spec_buffer() + Seq::new(BUFFER_SIZE as nat, |i: int| 0u8),
    {
        if heap_len(&self.buffer) >= MAX_BUFFER_SIZE {
            return Err(Error::BufferOverflow);
        }
        let ghost before = heap_bytes(self.buffer);
        append_zeros(&mut self.buffer, BUFFER_SIZE);
        proof {
            assert(heap_bytes(self.buffer).subrange(0, self.pos as int) =~= before.subrange(
                0,
                self.pos as int,
            ));
            assert(heap_bytes(self.buffer).len() % (BUFFER_SIZE as nat) == 0) by (nonlinear_arith)
                requires
                    heap_bytes(self.buffer).len() == before.len() + BUFFER_SIZE,
                    before.len() % (BUFFER_SIZE as nat) == 0,
                    BUFFER_SIZE == 4096,
            ;
            assert(before.len() + BUFFER_SIZE <= MAX_BUFFER_SIZE) by (nonlinear_arith)
                requires
                    before.len() < MAX_BUFFER_SIZE,
                    before.len() % (BUFFER_SIZE as nat) == 0,
                    BUFFER_SIZE == 4096,
                    MAX_BUFFER_SIZE == 104857600,
            ;
        }
        Ok(())
    }

    /// Enqueues a message, followed by a NUL byte, after those already enqueued.
    ///
    /// The buffer grows as needed; where it would have to grow beyond `MAX_BUFFER_SIZE`, that is
    /// `BufferOverflow`, and what is enqueued stays as it was. So the message is enqueued exactly
    /// when it and its NUL byte end within `MAX_BUFFER_SIZE` bytes.
    pub fn enqueue(&mut self, msg: &[u8]) -> (r: Result<(), Error>)
        requires
            old(self).wf(),
        ensures
            final(self).wf(),
            r is Ok <==> old(self).spec_pos() + msg@.len() < MAX_BUFFER_SIZE,
            r is Ok ==> final(self).pending() == old(self).pending() + msg@ + seq![0u8],
            r is Err ==> (r matches Err(Error::BufferOverflow) && final(self).pending()
                == old(self).pending()),
    {
        let n = msg.len();
        while heap_len(&self.buffer) - self.pos < n
            invariant
                self.wf(),
                self.spec_pos() == old(self).spec_pos(),
                self.pending() == old(self).pending(),
                n == msg@.len(),
            decreases MAX_BUFFER_SIZE - self.spec_buffer().len(),
        {
            self.grow_buffer()?;
        }
        let start = self.pos;
        let ghost before = heap_bytes(self.buffer);
        for k in 0..n
            invariant
                start + n <= heap_bytes(self.buffer).len(),
                heap_bytes(self.buffer).len() == before.len(),
                before.len() <= MAX_BUFFER_SIZE,
                self.pos == start,
                n == msg@.len(),
                forall|i: int| 0 <= i < start ==> heap_bytes(self.buffer)[i] == before[i],
                forall|i: int| start <= i < start + k ==> heap_bytes(self.buffer)[i] == msg@[i
                    - start],
        {
            heap_set(&mut self.buffer, start + k, msg[k]);
        }
        proof {
            assert(heap_bytes(self.buffer).len() % (BUFFER_SIZE as nat) == 0);
        }
        if start + n == heap_len(&self.buffer) {
            self.grow_buffer()?;
        }
        heap_set(&mut self.buffer, start + n, 0);
        self.pos = start + n + 1;
        proof {
            assert(self.pending() =~= old(self).pending() + msg@ + seq![0u8]);
        }
        Ok(())
    }

    /// Whether nothing is enqueued, so that flushing has nothing to send.
    pub fn is_empty(&self) -> (r: bool)
        ensures
            r == (self.spec_pos() == 0),
    {
        self.pos == 0
    }

    /// The bytes to send: all that is enqueued.
    pub fn to_send(&self) -> (r: &[u8])
        requires
            self.wf(),
        ensures
            r@ == self.pending(),
    {
        slice_subrange(heap_as_slice(&self.buffer), 0, self.pos)
    }

    /// Marks what was enqueued as sent.
    pub fn sent(&mut self)
        requires
            old(self).wf(),
        ensures
            final(self).wf(),
            final(self).spec_pos() == 0,
            final(self).spec_buffer() == old(self).spec_buffer(),
    {
        self.pos = 0;
    }
}

} // verus!
