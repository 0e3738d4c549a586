//! The output side: text in, bytes out to a sink that may not take them
//! right away.

use crate::error::Blocked;
use crate::ring::RingBuffer;
use vstd::prelude::*;
use vstd::string::StringSliceAdditionalSpecFns;

verus! {

/// The number of bytes that a [`LightCliOutput`] queues before they have to
/// be flushed.
pub const OUTPUT_BYTES: usize = 128;

/// What a flush asks the caller to do next.
#[derive(Debug, PartialEq, Eq)]
pub enum Flush<E> {
    /// Write this byte to the sink and report what the sink answered.
    Send(u8),
    /// The flush has ended: with success when the queue is empty, with
    /// "would block" or the sink's failure otherwise.
    Done(Result<(), Blocked<E>>),
}

/// What queueing the bytes of `text` from `start` on does to a queue of
/// `cap` bytes that holds `queue`: the bytes queued afterwards, and the
/// position in `text` of the first byte that found no room.
pub open spec fn write_step(queue: Seq<u8>, cap: nat, text: Seq<u8>, start: nat) -> (Seq<u8>, nat) {
    if start >= text.len() || queue.len() >= cap {
        (queue, start)
    } else {
        let room = (cap - queue.len()) as nat;
        let end = if text.len() - start <= room {
            text.len()
        } else {
            start + room
        };
        (queue + text.subrange(start as int, end as int), end)
    }
}

/// What one step of a flush does to the bytes queued: the bytes queued
/// afterwards, and what the caller is to do next.
///
/// `sent` is what the sink answered to the byte that the step before asked
/// to send, or `None` when the flush begins. A byte that the sink took
/// leaves the queue; one that it did not take stays at the front.
pub open spec fn flush_step<E>(queue: Seq<u8>, sent: Option<Result<(), Blocked<E>>>) -> (
    Seq<u8>,
    Flush<E>,
) {
    match sent {
        Some(Err(e)) => (queue, Flush::Done(Err(e))),
        _ => {
            let rest = if sent is Some && queue.len() > 0 {
                queue.drop_first()
            } else {
                queue
            };
            if rest.len() == 0 {
                (rest, Flush::Done(Ok(())))
            } else {
                (rest, Flush::Send(rest[0]))
            }
        },
    }
}

/// A bounded queue of bytes on their way to a non-blocking sink.
///
/// Its view is the sequence of bytes queued, oldest first.
pub struct LightCliOutput {
    rb: RingBuffer<OUTPUT_BYTES>,
}

impl LightCliOutput {
    /// The bytes queued, oldest first.
    pub closed spec fn view(&self) -> Seq<u8> {
        self.rb@
    }

    /// The number of bytes that can be queued.
    pub open spec fn output_capacity() -> nat {
        RingBuffer::<OUTPUT_BYTES>::spec_capacity()
    }

    /// An empty queue.
    pub fn new() -> (r: Self)
        ensures
            r@ == Seq::<u8>::empty(),
    {
        LightCliOutput { rb: RingBuffer::new() }
    }

    /// The byte that is sent next, or `None` when nothing is queued.
    pub fn peek(&self) -> (r: Option<u8>)
        ensures
            self@.len() == 0 ==> r.is_none(),
            self@.len() > 0 ==> r == Some(self@[0]),
    {
        self.rb.peek()
    }

    /// Queues the bytes of `s` from byte `start` on, as far as there is
    /// room, and says where it stopped: at the length of `s` when all of it
    /// is queued, before that when the queue has to be flushed first.
    pub fn write_str(&mut self, s: &str, start: usize) -> (end: usize)
        ensures
            (final(self)@, end as nat) == write_step(
                old(self)@,
                Self::output_capacity(),
                s.spec_bytes(),
                start as nat,
            ),
    {
        let bytes = s.as_bytes();
        if start >= bytes.len() {
            return start;
        }
        let mut at: usize = start;
        while at < bytes.len()
            invariant
                bytes@ == s.spec_bytes(),
                start <= at <= bytes.len(),
                self@ == old(self)@ + bytes@.subrange(start as int, at as int),
                at > start ==> self@.len() <= Self::output_capacity(),
            decreases bytes.len() - at,
        {
            match self.rb.enqueue(bytes[at]) {
                Ok(()) => {
                    at = at + 1;
                },
                Err(_) => {
                    return at;
                },
            }
        }
        at
    }

    /// One step of a flush.
    ///
    /// Begin with `sent` as `None`. As long as the answer is
    /// `Flush::Send(b)`, write `b` to the sink and call again with what the
    /// sink answered. `Flush::Done` ends the flush: with `Ok` when the queue
    /// is empty, and with the sink's answer when it would block or failed,
    /// in which case the bytes not yet taken stay queued in their order.
    pub fn flush<E>(&mut self, sent: Option<Result<(), Blocked<E>>>) -> (r: Flush<E>)
        ensures
            (final(self)@, r) == flush_step(old(self)@, sent),
    {
        match sent {
            Some(Err(e)) => {
                return Flush::Done(Err(e));
            },
            Some(Ok(())) => {
                let _ = self.rb.dequeue();
            },
            None => {},
        }
        match self.peek() {
            None => Flush::Done(Ok(())),
            Some(b) => Flush::Send(b),
        }
    }
}

/// What a flush does when the sink gives `answers` to the bytes it is
/// offered, one answer for each byte: the bytes queued afterwards, the
/// bytes that the sink took, and how the flush ended (`None` while it still
/// waits for an answer).
pub open spec fn flush_from<E>(
    queue: Seq<u8>,
    sent: Option<Result<(), Blocked<E>>>,
    answers: Seq<Result<(), Blocked<E>>>,
) -> (Seq<u8>, Seq<u8>, Option<Result<(), Blocked<E>>>)
    decreases answers.len(),
{
    let (rest, action) = flush_step(queue, sent);
    match action {
        Flush::Done(r) => (rest, Seq::empty(), Some(r)),
        Flush::Send(b) => if answers.len() == 0 {
            (rest, Seq::empty(), None)
        } else {
            let (left, taken, r) = flush_from(rest, Some(answers[0]), answers.drop_first());
            if answers[0] is Ok {
                (left, seq![b] + taken, r)
            } else {
                (left, taken, r)
            }
        },
    }
}

/// A whole flush, from its first step on.
pub open spec fn flush_run<E>(queue: Seq<u8>, answers: Seq<Result<(), Blocked<E>>>) -> (
    Seq<u8>,
    Seq<u8>,
    Option<Result<(), Blocked<E>>>,
) {
    flush_from(queue, None, answers)
}

/// What the sink takes during a flush and what stays queued are, one after
/// the other, what the steps had to work on.
proof fn lemma_flush_from_order<E>(
    queue: Seq<u8>,
    sent: Option<Result<(), Blocked<E>>>,
    answers: Seq<Result<(), Blocked<E>>>,
)
    ensures
        ({
            let (left, taken, r) = flush_from(queue, sent, answers);
            &&& taken + left == flush_step(queue, sent).0
            &&& (r == Some(Ok::<(), Blocked<E>>(())) ==> left.len() == 0)
            &&& (r is None ==> taken.len() == answers.len())
        }),
    decreases answers.len(),
{
    let (rest, action) = flush_step(queue, sent);
    if let Flush::Send(b) = action {
        if answers.len() > 0 {
            lemma_flush_from_order(rest, Some(answers[0]), answers.drop_first());
            if answers[0] is Ok {
                assert(seq![b] + rest.drop_first() =~= rest);
            }
        }
    }
}

/// A flush of an empty queue ends with success at its first step, whatever
/// the sink would answer, and changes nothing.
pub proof fn law_flush_empty<E>(answers: Seq<Result<(), Blocked<E>>>)
    ensures
        flush_step(Seq::<u8>::empty(), None::<Result<(), Blocked<E>>>) == (
            Seq::<u8>::empty(),
            Flush::Done(Ok::<(), Blocked<E>>(())),
        ),
        flush_run(Seq::<u8>::empty(), answers) == (
            Seq::<u8>::empty(),
            Seq::<u8>::empty(),
            Some(Ok::<(), Blocked<E>>(())),
        ),
{
}

/// A flush hands the bytes out in the order in which they were queued and
/// loses none: the bytes that the sink took, followed by the bytes that
/// stay queued, are the bytes that were queued before. A flush that ends
/// with success leaves nothing queued; one that is interrupted leaves the
/// bytes not yet taken, in their order, for the next flush.
pub proof fn law_flush_order<E>(queue: Seq<u8>, answers: Seq<Result<(), Blocked<E>>>)
    ensures
        ({
            let (left, taken, r) = flush_run(queue, answers);
            &&& taken + left == queue
            &&& taken == queue.take(taken.len() as int)
            &&& left == queue.skip(taken.len() as int)
            &&& (r == Some(Ok::<(), Blocked<E>>(())) ==> left.len() == 0 && taken == queue)
        }),
{
    lemma_flush_from_order(queue, None, answers);
}

/// One use of an output queue: text is written to it, or it is flushed to
/// a sink that gives these answers.
pub enum Operation<E> {
    Write(Seq<u8>),
    Flush(Seq<Result<(), Blocked<E>>>),
}

/// What a series of writes and flushes does to a queue of `cap` bytes that
/// holds `queue`: the bytes queued afterwards, all the bytes that the
/// writes have queued, and all the bytes that the sink has taken.
pub open spec fn run_operations<E>(queue: Seq<u8>, cap: nat, operations: Seq<Operation<E>>) -> (
    Seq<u8>,
    Seq<u8>,
    Seq<u8>,
)
    decreases operations.len(),
{
    if operations.len() == 0 {
        (queue, Seq::empty(), Seq::empty())
    } else {
        let (q, queued, taken) = run_operations(queue, cap, operations.drop_last());
        match operations.last() {
            Operation::Write(text) => {
                let (q2, end) = write_step(q, cap, text, 0);
                (q2, queued + text.take(end as int), taken)
            },
            Operation::Flush(answers) => {
                let (q2, took, _) = flush_run(q, answers);
                (q2, queued, taken + took)
            },
        }
    }
}

/// Over any series of writes and flushes, the bytes that the sink has taken
/// followed by the bytes still queued are the bytes queued at the start
/// followed by the bytes that the writes have queued: every byte leaves in
/// the order in which it came, and once the queue is empty the sink has
/// taken them all.
pub proof fn law_output_order<E>(queue: Seq<u8>, cap: nat, operations: Seq<Operation<E>>)
    ensures
        ({
            let (left, queued, taken) = run_operations(queue, cap, operations);
            &&& taken + left == queue + queued
            &&& (left.len() == 0 ==> taken == queue + queued)
        }),
    decreases operations.len(),
{
    if operations.len() > 0 {
        law_output_order(queue, cap, operations.drop_last());
        let (q, queued, _) = run_operations(queue, cap, operations.drop_last());
        match operations.last() {
            Operation::Write(text) => {
                let added = text.take(write_step(q, cap, text, 0).1 as int);
                assert((queue + queued) + added =~= queue + (queued + added));
            },
            Operation::Flush(answers) => {
                law_flush_order(q, answers);
            },
        }
    }
}

} // verus!
