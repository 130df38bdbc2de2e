//! Chains of calls: several calls sent at once, and the replies read back for them.
//!
//! A call that is oneway gets no reply. Any other call gets one final reply, possibly after
//! replies that say more are to come (`continues` set to `true`), or an error reply.

use vstd::prelude::*;

verus! {

/// What reading one reply gave.
#[derive(Debug, Clone, Copy, PartialEq, Eq)]
pub enum ReplyOutcome {
    /// A reply, which says whether more replies follow for the same call.
    Reply { continues: Option<bool> },
    /// An error reply of the method.
    MethodError,
    /// Reading or decoding the reply failed.
    Failure,
}

/// Whether a reply outcome ends a call: an error does, and so does a reply that does not say that
/// more follow.
pub open spec fn ends_call(o: ReplyOutcome) -> bool {
    match o {
        ReplyOutcome::Reply { continues } => continues != Some(true),
        _ => true,
    }
}

/// The number of calls among these that are answered: those that are not oneway.
pub open spec fn answered(oneway: Seq<bool>) -> nat
    decreases oneway.len(),
{
    if oneway.len() == 0 {
        0
    } else {
        answered(oneway.drop_last()) + if oneway.last() {
            0nat
        } else {
            1nat
        }
    }
}

/// The counts of a chain of calls: how many calls it holds, and how many of them get replies.
#[derive(Debug)]
pub struct Chain {
    call_count: usize,
    reply_count: usize,
}

impl Chain {
    #[verifier::type_invariant]
    spec fn counts_ordered(self) -> bool {
        self.reply_count <= self.call_count
    }

    /// How many calls the chain holds.
    pub closed spec fn spec_call_count(self) -> nat {
        self.call_count as nat
    }

    /// How many of its calls get replies.
    pub closed spec fn spec_reply_count(self) -> nat {
        self.reply_count as nat
    }

    /// Starts a chain with a first call; a oneway call gets no reply.
    pub fn new(oneway: bool) -> (r: Self)
        ensures
            r.spec_call_count() == 1,
            r.spec_reply_count() == answered(seq![oneway]),
    {
        proof {
            assert(seq![oneway].drop_last() =~= Seq::<bool>::empty());
            assert(answered(Seq::<bool>::empty()) == 0);
            assert(seq![oneway].last() == oneway);
        }
        Chain { call_count: 1, reply_count: if oneway { 0 } else { 1 } }
    }

    /// Appends a call to the chain; a oneway call gets no reply.
    pub fn append(self, oneway: bool) -> (r: Self)
        requires
            self.spec_call_count() < usize::MAX,
        ensures
            r.spec_call_count() == self.spec_call_count() + 1,
            r.spec_reply_count() == self.spec_reply_count() + if oneway {
                0nat
            } else {
                1nat
            },
    {
        proof {
            use_type_invariant(&self);
        }
        Chain {
            call_count: self.call_count + 1,
            reply_count: if oneway { self.reply_count } else { self.reply_count + 1 },
        }
    }

    /// How many calls the chain holds.
    pub fn call_count(&self) -> (r: usize)
        ensures
            r == self.spec_call_count(),
    {
        self.call_count
    }

    /// How many replies the chain waits for: one final reply per call that is not oneway.
    pub fn reply_count(&self) -> (r: usize)
        ensures
            r == self.spec_reply_count(),
    {
        self.reply_count
    }

    /// The stream of replies for the calls of the chain, once they are sent. Where every call is
    /// oneway, no reply comes and the stream is done from the start.
    pub fn send(self) -> (r: ReplyStream)
        ensures
            r.spec_call_count() == self.spec_reply_count(),
            r.spec_current_index() == 0,
            r.spec_done() == (self.spec_reply_count() == 0),
    {
        ReplyStream::new(self.reply_count)
    }
}

/// Appending a call to a chain adds one to the replies it waits for, unless the call is oneway:
/// so a chain waits for one final reply per call that is not oneway.
pub proof fn law_chain_reply_count(oneway: Seq<bool>, b: bool)
    ensures
        answered(oneway.push(b)) == answered(oneway) + if b {
            0nat
        } else {
            1nat
        },
{
    assert(oneway.push(b).drop_last() =~= oneway);
}

/// At most as many calls are answered as there are.
pub proof fn lemma_answered_bound(oneway: Seq<bool>)
    ensures
        answered(oneway) <= oneway.len(),
    decreases oneway.len(),
{
    if oneway.len() > 0 {
        lemma_answered_bound(oneway.drop_last());
    }
}

/// The state of a reply stream: how many calls have ended, and whether it is done.
pub struct StreamModel {
    pub index: nat,
    pub done: bool,
}

/// What one reply does to a reply stream waiting for `count` calls. A done stream yields nothing
/// more. A failure ends the stream; a reply that ends a call, or an error, counts the call as
/// ended, and once as many calls as expected have ended the stream is done.
pub open spec fn stream_step(count: nat, m: StreamModel, o: ReplyOutcome) -> StreamModel {
    if m.done {
        m
    } else if o is Failure {
        StreamModel { index: m.index, done: true }
    } else {
        let index = if ends_call(o) {
            m.index + 1
        } else {
            m.index
        };
        StreamModel { index, done: index >= count }
    }
}

/// The state of a reply stream waiting for `count` calls after the given replies. Before any
/// reply it is done exactly when it waits for none.
pub open spec fn stream_run(count: nat, os: Seq<ReplyOutcome>) -> StreamModel
    decreases os.len(),
{
    if os.len() == 0 {
        StreamModel { index: 0, done: count == 0 }
    } else {
        stream_step(count, stream_run(count, os.drop_last()), os.last())
    }
}

/// How many of the replies end a call, without being a failure.
pub open spec fn calls_ended(os: Seq<ReplyOutcome>) -> nat
    decreases os.len(),
{
    if os.len() == 0 {
        0
    } else {
        calls_ended(os.drop_last()) + if ends_call(os.last()) && !(os.last() is Failure) {
            1nat
        } else {
            0nat
        }
    }
}

/// Whether some reply is a failure.
pub open spec fn has_failure(os: Seq<ReplyOutcome>) -> bool {
    exists|i: int| 0 <= i < os.len() && os[i] is Failure
}

/// A reply stream is done exactly when a reply failed or as many calls have ended as it waits
/// for; so one that waits for no call (a chain of oneway calls) is done before any reply.
pub proof fn law_reply_stream_done(count: nat, os: Seq<ReplyOutcome>)
    ensures
        stream_run(count, os).done <==> (has_failure(os) || calls_ended(os) >= count),
    decreases os.len(),
{
    lemma_stream_run(count, os);
}

proof fn lemma_stream_run(count: nat, os: Seq<ReplyOutcome>)
    ensures
        !stream_run(count, os).done ==> stream_run(count, os).index == calls_ended(os)
            && !has_failure(os),
        stream_run(count, os).index <= calls_ended(os),
        stream_run(count, os).done <==> (has_failure(os) || calls_ended(os) >= count),
    decreases os.len(),
{
    if os.len() > 0 {
        let init = os.drop_last();
        lemma_stream_run(count, init);
        assert forall|i: int| 0 <= i < init.len() implies init[i] == os[i] by {}
        if has_failure(init) {
            let i = choose|i: int| 0 <= i < init.len() && init[i] is Failure;
            assert(os[i] is Failure);
        }
        if os.last() is Failure {
            assert(os[os.len() - 1] is Failure);
        }
        if has_failure(os) && !has_failure(init) {
            let i = choose|i: int| 0 <= i < os.len() && os[i] is Failure;
            if i < init.len() {
                assert(init[i] is Failure);
            }
        }
    }
}

/// The state of a stream of replies for a chain of calls.
#[derive(Debug)]
pub struct ReplyStream {
    call_count: usize,
    current_index: usize,
    done: bool,
}

impl ReplyStream {
    #[verifier::type_invariant]
    spec fn index_in_range(self) -> bool {
        !self.done ==> (self.current_index < self.call_count || self.current_index == 0)
    }

    /// How many calls the stream waits for.
    pub closed spec fn spec_call_count(self) -> nat {
        self.call_count as nat
    }

    /// How many calls have ended.
    pub closed spec fn spec_current_index(self) -> nat {
        self.current_index as nat
    }

    /// Whether the stream yields no more replies.
    pub closed spec fn spec_done(self) -> bool {
        self.done
    }

    /// The state of the stream.
    pub open spec fn model(self) -> StreamModel {
        StreamModel { index: self.spec_current_index(), done: self.spec_done() }
    }

    /// A stream waiting for replies to `call_count` calls; waiting for none, it is done.
    pub fn new(call_count: usize) -> (r: Self)
        ensures
            r.spec_call_count() == call_count,
            r.spec_done() == (call_count == 0),
            r.model() == stream_run(call_count as nat, Seq::empty()),
    {
        ReplyStream { call_count, current_index: 0, done: call_count == 0 }
    }

    /// Whether the stream yields no more replies.
    pub fn is_done(&self) -> (r: bool)
        ensures
            r == self.spec_done(),
    {
        self.done
    }

    /// Takes account of one reply read from the stream.
    pub fn record(&mut self, o: ReplyOutcome)
        requires
            !old(self).spec_done(),
        ensures
            final(self).spec_call_count() == old(self).spec_call_count(),
            final(self).model() == stream_step(old(self).spec_call_count(), old(self).model(), o),
    {
        proof {
            use_type_invariant(&*self);
        }
        let mut index = self.current_index;
        let mut done = false;
        match o {
            ReplyOutcome::Reply { continues } => {
                if !matches!(continues, Some(true)) {
                    index = index + 1;
                }
            },
            ReplyOutcome::MethodError => {
                index = index + 1;
            },
            ReplyOutcome::Failure => {
                done = true;
            },
        }
        if index >= self.call_count {
            done = true;
        }
        *self = ReplyStream { call_count: self.call_count, current_index: index, done };
    }
}

/// The state of the replies to a chain of calls, read one at a time.
#[derive(Debug)]
pub struct Replies {
    call_count: usize,
    current_index: usize,
}

impl Replies {
    #[verifier::type_invariant]
    spec fn index_in_range(self) -> bool {
        self.current_index <= self.call_count
    }

    /// How many calls the replies are for.
    pub closed spec fn spec_call_count(self) -> nat {
        self.call_count as nat
    }

    /// How many calls have ended.
    pub closed spec fn spec_current_index(self) -> nat {
        self.current_index as nat
    }

    /// Replies for `call_count` calls, none read yet.
    pub fn new(call_count: usize) -> (r: Self)
        ensures
            r.spec_call_count() == call_count,
            r.spec_current_index() == 0,
    {
        Replies { call_count, current_index: 0 }
    }

    /// How many calls the replies are for.
    pub fn len(&self) -> (r: usize)
        ensures
            r == self.spec_call_count(),
    {
        self.call_count
    }

    /// Whether there are no replies to read.
    pub fn is_empty(&self) -> (r: bool)
        ensures
            r == (self.spec_call_count() == 0),
    {
        self.call_count == 0
    }

    /// Whether another reply is to be read: not all calls have ended.
    pub fn has_next(&self) -> (r: bool)
        ensures
            r == (self.spec_current_index() < self.spec_call_count()),
    {
        self.current_index < self.call_count
    }

    /// Takes account of one reply read: all but a reply saying that more follow end a call.
    pub fn record(&mut self, o: ReplyOutcome)
        requires
            old(self).spec_current_index() < old(self).spec_call_count(),
        ensures
            final(self).spec_call_count() == old(self).spec_call_count(),
            final(self).spec_current_index() == old(self).spec_current_index() + if ends_call(o) {
                1nat
            } else {
                0nat
            },
    {
        if ends_call_exec(o) {
            *self = Replies { call_count: self.call_count, current_index: self.current_index + 1 };
        }
    }
}

/// Whether a reply outcome ends a call.
pub fn ends_call_exec(o: ReplyOutcome) -> (r: bool)
    ensures
        r == ends_call(o),
{
    match o {
        ReplyOutcome::Reply { continues } => !matches!(continues, Some(true)),
        _ => true,
    }
}

} // verus!
