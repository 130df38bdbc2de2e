//! The read side of a connection: the buffer that received bytes go to, and how messages are
//! taken from it.

use vstd::prelude::*;
use vstd::slice::slice_subrange;
use super::framing::{take_frame, first_nul, lemma_first_nul, lemma_first_nul_at, BUFFER_SIZE, MAX_BUFFER_SIZE};
use super::heap::{heap_as_slice, heap_bytes, heap_extend, heap_get, heap_len, heap_new, heap_set};
use crate::error::Error;

verus! {

/// `memchr::memchr`: the position of the first byte equal to `needle`, if there is one; as the
/// crate documents it, a position returned is less than the length of `haystack`.
#[verifier::external_body]
fn memchr(needle: u8, haystack: &[u8]) -> (r: Option<usize>)
    ensures
        r matches Some(i) ==> i < haystack@.len() && haystack@[i as int] == needle && forall|j: int|
            0 <= j < i ==> haystack@[j] != needle,
        r is None ==> forall|j: int| 0 <= j < haystack@.len() ==> haystack@[j] != needle,
{
    memchr::memchr(needle, haystack)
}

/// Appends `n` zero bytes.
fn push_zeros(v: &mut Vec<u8>, n: usize)
    ensures
        final(v)@ == old(v)@ + Seq::new(n as nat, |i: int| 0u8),
{
    let ghost start = v@;
    for k in 0..n
        invariant
            v@ == start + Seq::new(k as nat, |i: int| 0u8),
    {
        v.push(0);
        assert(v@ =~= start + Seq::new((k + 1) as nat, |i: int| 0u8));
    }
}

/// Appends `n` zero bytes to a buffer.
pub(crate) fn append_zeros(v: &mut mayheap::Vec<u8, BUFFER_SIZE>, n: usize)
    ensures
        heap_bytes(*final(v)) == heap_bytes(*old(v)) + Seq::new(n as nat, |i: int| 0u8),
{
    let mut zeros: Vec<u8> = Vec::new();
    push_zeros(&mut zeros, n);
    assert(zeros@ =~= Seq::<u8>::empty() + Seq::new(n as nat, |i: int| 0u8));
    heap_extend(v, zeros.as_slice());
}

/// A buffer of `BUFFER_SIZE` zero bytes.
pub(crate) fn zeroed_buffer() -> (r: mayheap::Vec<u8, BUFFER_SIZE>)
    ensures
        heap_bytes(r) == Seq::new(BUFFER_SIZE as nat, |i: int| 0u8),
{
    let mut v = heap_new();
    append_zeros(&mut v, BUFFER_SIZE);
    assert(heap_bytes(v) =~= Seq::new(BUFFER_SIZE as nat, |i: int| 0u8));
    v
}

/// The buffer of the read side of a connection.
///
/// Bytes are read into it after those already there, up to a NUL byte at the end of what was
/// read; then the messages are taken from it one at a time. After the last one it starts over.
#[derive(Debug)]
pub struct ReadBuffer {
    buffer: mayheap::Vec<u8, BUFFER_SIZE>,
    read_pos: usize,
    msg_pos: usize,
}

impl ReadBuffer {
    /// The bytes of the buffer.
    pub closed spec fn spec_buffer(self) -> Seq<u8> {
        heap_bytes(self.buffer)
    }

    /// How many bytes were read into the buffer.
    pub closed spec fn spec_read_pos(self) -> nat {
        self.read_pos as nat
    }

    /// Where the next message starts.
    pub closed spec fn spec_msg_pos(self) -> nat {
        self.msg_pos as nat
    }

    /// The bytes read and not yet taken as messages.
    pub open spec fn pending(self) -> Seq<u8> {
        self.spec_buffer().subrange(self.spec_msg_pos() as int, self.spec_read_pos() as int)
    }

    /// Whether all that was read ends with a NUL byte, so that messages can be taken.
    pub open spec fn complete(self) -> bool {
        self.spec_read_pos() > 0 && self.spec_buffer()[self.spec_read_pos() - 1] == 0
    }

    /// The buffer is well formed: it is a whole number of `BUFFER_SIZE` blocks, at most
    /// `MAX_BUFFER_SIZE` long, a NUL byte follows what was read, and a message to take lies
    /// before the end of what was read, which ends with a NUL byte.
    pub open spec fn wf(self) -> bool {
        &&& self.spec_buffer().len() % (BUFFER_SIZE as nat) == 0
        &&& BUFFER_SIZE <= self.spec_buffer().len() <= MAX_BUFFER_SIZE
        &&& self.spec_read_pos() < self.spec_buffer().len()
        &&& self.spec_read_pos() > 0 ==> self.spec_buffer()[self.spec_read_pos() as int] == 0
        &&& self.spec_msg_pos() <= self.spec_read_pos()
        &&& self.spec_msg_pos() > 0 ==> self.spec_msg_pos() < self.spec_read_pos() && self.complete()
    }

    /// Creates an empty buffer of `BUFFER_SIZE` zero bytes.
    pub fn new() -> (r: Self)
        ensures
            r.wf(),
            r.spec_read_pos() == 0,
            r.spec_msg_pos() == 0,
            r.spec_buffer() == Seq::new(BUFFER_SIZE as nat, |i: int| 0u8),
    {
        Self { buffer: zeroed_buffer(), read_pos: 0, msg_pos: 0 }
    }

    /// Whether a message can be taken without reading first.
    pub fn has_message(&self) -> (r: bool)
        ensures
            r == (self.spec_msg_pos() > 0),
    {
        self.msg_pos > 0
    }

    /// How many bytes the next read may bring.
    pub fn read_space(&self) -> (r: usize)
        requires
            self.wf(),
        ensures
            r == self.spec_buffer().len() - self.spec_read_pos(),
            r > 0,
    {
        heap_len(&self.buffer) - self.read_pos
    }

    /// Takes the bytes of one read from the socket, which are placed after those read before.
    ///
    /// No bytes means the peer closed the connection: that is `UnexpectedEof`, and nothing changes.
    /// Where the bytes fill the buffer, it grows by `BUFFER_SIZE` zero bytes, unless it already
    /// holds `MAX_BUFFER_SIZE` bytes: then the result is `BufferOverflow`. Otherwise a NUL byte is
    /// put after the bytes read, and the result says whether they end with a NUL byte, so that
    /// messages can be taken; if not, more must be read.
    pub fn received(&mut self, data: &[u8]) -> (r: Result<bool, Error>)
        requires
            old(self).wf(),
            old(self).spec_msg_pos() == 0,
            data@.len() <= old(self).spec_buffer().len() - old(self).spec_read_pos(),
        ensures
            ({
                let rp = old(self).spec_read_pos();
                let end = rp + data@.len();
                let filled = old(self).spec_buffer().subrange(0, rp as int) + data@
                    + old(self).spec_buffer().subrange(end as int, old(self).spec_buffer().len() as int);
                if data@.len() == 0 {
                    r matches Err(Error::UnexpectedEof) && *final(self) == *old(self)
                } else if end == old(self).spec_buffer().len() && end >= MAX_BUFFER_SIZE {
                    &&& r matches Err(Error::BufferOverflow)
                    &&& final(self).spec_buffer() == filled
                    &&& final(self).spec_read_pos() == end
                    &&& final(self).spec_msg_pos() == 0
                } else {
                    let grown = if end == old(self).spec_buffer().len() {
                        filled + Seq::new(BUFFER_SIZE as nat, |i: int| 0u8)
                    } else {
                        filled
                    };
                    &&& r == Ok::<bool, Error>(data@.last() == 0)
                    &&& final(self).pending() == old(self).pending() + data@
                    &&& final(self).spec_buffer() == grown.update(end as int, 0u8)
                    &&& final(self).spec_read_pos() == end
                    &&& final(self).spec_msg_pos() == 0
                    &&& final(self).wf()
                    &&& final(self).complete() == (data@.last() == 0)
                }
            }),
    {
        let n = data.len();
        if n == 0 {
            return Err(Error::UnexpectedEof);
        }
        let ghost old_buf = heap_bytes(self.buffer);
        let start = self.read_pos;
        for k in 0..n
            invariant
                start + n <= heap_bytes(self.buffer).len(),
                heap_bytes(self.buffer).len() == old_buf.len(),
                old_buf.len() <= MAX_BUFFER_SIZE,
                self.read_pos == start,
                self.msg_pos == 0,
                n == data@.len(),
                forall|i: int| 0 <= i < start ==> heap_bytes(self.buffer)[i] == old_buf[i],
                forall|i: int| start <= i < start + k ==> heap_bytes(self.buffer)[i] == data@[i
                    - start],
                forall|i: int| start + n <= i < old_buf.len() ==> heap_bytes(self.buffer)[i]
                    == old_buf[i],
        {
            heap_set(&mut self.buffer, start + k, data[k]);
        }
        self.read_pos = start + n;
        let ghost filled = old_buf.subrange(0, start as int) + data@ + old_buf.subrange(
            (start + n) as int,
            old_buf.len() as int,
        );
        assert(heap_bytes(self.buffer) =~= filled);
        if self.read_pos == heap_len(&self.buffer) {
            if self.read_pos >= MAX_BUFFER_SIZE {
                return Err(Error::BufferOverflow);
            }
            append_zeros(&mut self.buffer, BUFFER_SIZE);
        }
        heap_set(&mut self.buffer, self.read_pos, 0);
        let last = heap_get(&self.buffer, self.read_pos - 1);
        proof {
            assert(self.pending() =~= old(self).pending() + data@);
            assert(heap_bytes(self.buffer)[self.read_pos - 1] == data@.last());
            assert(heap_bytes(self.buffer).len() % (BUFFER_SIZE as nat) == 0) by (nonlinear_arith)
                requires
                    heap_bytes(self.buffer).len() == old_buf.len() || heap_bytes(self.buffer).len()
                        == old_buf.len() + BUFFER_SIZE,
                    old_buf.len() % (BUFFER_SIZE as nat) == 0,
                    BUFFER_SIZE == 4096,
            ;
        }
        Ok(last == 0)
    }

    /// Takes the next message: the bytes up to the first NUL byte of those not yet taken.
    ///
    /// Where a NUL byte follows that one, it was the last message read (or an empty one follows),
    /// and the buffer starts over; otherwise the next message starts after the NUL byte.
    pub fn next_message(&mut self) -> (r: Vec<u8>)
        requires
            old(self).wf(),
            old(self).complete(),
        ensures
            ({
                let p = old(self).pending();
                let i = first_nul(p);
                let mp = old(self).spec_msg_pos();
                &&& i < p.len()
                &&& r@ == p.subrange(0, i)
                &&& r@ == take_frame(p).0
                &&& final(self).pending() == take_frame(p).1
                &&& final(self).spec_buffer() == old(self).spec_buffer()
                &&& final(self).wf()
                &&& if old(self).spec_buffer()[mp + i + 1] == 0 {
                    final(self).spec_read_pos() == 0 && final(self).spec_msg_pos() == 0
                } else {
                    &&& final(self).spec_read_pos() == old(self).spec_read_pos()
                    &&& final(self).spec_msg_pos() == mp + i + 1
                }
            }),
    {
        let ghost p = self.pending();
        proof {
            lemma_first_nul(p);
        }
        let all = heap_as_slice(&self.buffer);
        let rest = slice_subrange(all, self.msg_pos, all.len());
        let found = memchr(0, rest);
        let i = match found {
            Some(i) => i,
            None => {
                proof {
                    assert(rest@[self.read_pos - 1 - self.msg_pos] == 0);
                }
                0
            },
        };
        proof {
            assert(i + self.msg_pos < self.read_pos) by {
                if i + self.msg_pos >= self.read_pos {
                    assert(rest@[self.read_pos - 1 - self.msg_pos] == 0);
                }
            }
            assert forall|j: int| 0 <= j < i implies p[j] != 0 by {
                assert(p[j] == rest@[j]);
            }
            assert(p[i as int] == 0);
            lemma_first_nul_at(p, i as int);
        }
        let null_index = self.msg_pos + i;
        let mut msg: Vec<u8> = Vec::new();
        let mut k = self.msg_pos;
        while k < null_index
            invariant
                self.msg_pos <= k <= null_index,
                null_index < heap_bytes(self.buffer).len(),
                msg@ == heap_bytes(self.buffer).subrange(self.msg_pos as int, k as int),
            decreases null_index - k,
        {
            msg.push(heap_get(&self.buffer, k));
            k = k + 1;
        }
        assert(msg@ =~= p.subrange(0, i as int));
        if heap_get(&self.buffer, null_index + 1) == 0 {
            self.read_pos = 0;
            self.msg_pos = 0;
            proof {
                assert(self.pending() =~= Seq::<u8>::empty());
                if (i + 1) < p.len() {
                    assert(p[i + 1] == heap_bytes(self.buffer)[null_index + 1]);
                }
            }
        } else {
            self.msg_pos = null_index + 1;
            proof {
                if self.msg_pos == self.read_pos {
                    assert(heap_bytes(self.buffer)[self.read_pos as int] == 0);
                }
                assert(p[i + 1] == heap_bytes(self.buffer)[null_index + 1]);
                assert(self.pending() =~= p.subrange(i + 1, p.len() as int));
            }
        }
        msg
    }
}

} // verus!
