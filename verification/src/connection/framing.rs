//! Message framing: each message followed by a NUL byte.

use vstd::prelude::*;

verus! {

/// The size by which the connection buffers start and grow.
pub const BUFFER_SIZE: usize = 4096;

/// The size that the connection buffers may not grow beyond.
pub const MAX_BUFFER_SIZE: usize = 104857600;

/// The bytes of some messages, each followed by a NUL byte.
pub open spec fn frames(msgs: Seq<Seq<u8>>) -> Seq<u8>
    decreases msgs.len(),
{
    if msgs.len() == 0 {
        seq![]
    } else {
        msgs[0] + seq![0u8] + frames(msgs.drop_first())
    }
}

/// A message that can be framed and read back: not empty, and without a NUL byte.
pub open spec fn framable(m: Seq<u8>) -> bool {
    m.len() > 0 && forall|i: int| 0 <= i < m.len() ==> m[i] != 0
}

/// The position of the first NUL byte, or the length where there is none.
pub open spec fn first_nul(b: Seq<u8>) -> int
    decreases b.len(),
{
    if b.len() == 0 {
        0
    } else if b[0] == 0 {
        0
    } else {
        1 + first_nul(b.drop_first())
    }
}

pub proof fn lemma_first_nul(b: Seq<u8>)
    ensures
        0 <= first_nul(b) <= b.len(),
        forall|j: int| 0 <= j < first_nul(b) ==> b[j] != 0,
        first_nul(b) < b.len() ==> b[first_nul(b)] == 0,
    decreases b.len(),
{
    if b.len() > 0 && b[0] != 0 {
        lemma_first_nul(b.drop_first());
        assert forall|j: int| 0 <= j < first_nul(b) implies b[j] != 0 by {
            if j > 0 {
                assert(b[j] == b.drop_first()[j - 1]);
            }
        }
    }
}

/// The first NUL byte is at the first position that holds one, with none before it.
pub proof fn lemma_first_nul_at(b: Seq<u8>, i: int)
    requires
        0 <= i < b.len(),
        b[i] == 0,
        forall|j: int| 0 <= j < i ==> b[j] != 0,
    ensures
        first_nul(b) == i,
    decreases i,
{
    if i > 0 {
        let t = b.drop_first();
        assert forall|j: int| 0 <= j < i - 1 implies t[j] != 0 by {
            assert(t[j] == b[j + 1]);
        }
        lemma_first_nul_at(t, i - 1);
    }
}

/// Framing one more message appends it and its NUL byte.
pub proof fn lemma_frames_push(msgs: Seq<Seq<u8>>, m: Seq<u8>)
    ensures
        frames(msgs.push(m)) == frames(msgs) + m + seq![0u8],
    decreases msgs.len(),
{
    if msgs.len() == 0 {
        assert(msgs.push(m).drop_first() =~= Seq::<Seq<u8>>::empty());
        assert(frames(msgs.push(m)) =~= m + seq![0u8] + frames(Seq::<Seq<u8>>::empty()));
        assert(frames(msgs.push(m)) =~= frames(msgs) + m + seq![0u8]);
    } else {
        assert(msgs.push(m).drop_first() =~= msgs.drop_first().push(m));
        lemma_frames_push(msgs.drop_first(), m);
        assert(frames(msgs.push(m)) =~= frames(msgs) + m + seq![0u8]);
    }
}

/// Taking a message from bytes read: the bytes before the first NUL byte, and what remains after
/// it. Where the NUL byte ends the bytes, or another NUL byte follows it, nothing remains.
pub open spec fn take_frame(p: Seq<u8>) -> (Seq<u8>, Seq<u8>) {
    let i = first_nul(p);
    (p.subrange(0, i), if i + 1 >= p.len() || p[i + 1] == 0 {
        seq![]
    } else {
        p.subrange(i + 1, p.len() as int)
    })
}

/// Enqueueing a message after framed messages gives the frames of all of them.
pub proof fn law_enqueue_frames(msgs: Seq<Seq<u8>>, m: Seq<u8>)
    ensures
        frames(msgs) + m + seq![0u8] == frames(msgs.push(m)),
{
    lemma_frames_push(msgs, m);
}

/// Messages are read back as they were framed: from the frames of messages that are not empty
/// and hold no NUL byte, the message taken is the first one, and what remains is the frames of the
/// others.
pub proof fn law_frames_read_back(msgs: Seq<Seq<u8>>)
    requires
        msgs.len() > 0,
        forall|k: int| 0 <= k < msgs.len() ==> framable(#[trigger] msgs[k]),
    ensures
        take_frame(frames(msgs)) == (msgs[0], frames(msgs.drop_first())),
{
    let f = frames(msgs);
    let m = msgs[0];
    let rest = frames(msgs.drop_first());
    assert(framable(m));
    assert(f == m + seq![0u8] + rest);
    assert forall|j: int| 0 <= j < m.len() implies f[j] != 0 by {
        assert(f[j] == m[j]);
    }
    assert(f[m.len() as int] == 0);
    lemma_first_nul_at(f, m.len() as int);
    assert(f.subrange(0, m.len() as int) =~= m);
    if msgs.len() == 1 {
        assert(msgs.drop_first() =~= Seq::<Seq<u8>>::empty());
        assert(rest =~= Seq::<u8>::empty());
    } else {
        let others = msgs.drop_first();
        assert(framable(others[0]));
        assert(rest == others[0] + seq![0u8] + frames(others.drop_first()));
        assert(f[m.len() + 1int] == others[0][0]);
        assert(f.subrange(m.len() + 1int, f.len() as int) =~= rest);
    }
}

} // verus!
