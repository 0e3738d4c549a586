//! A bounded first-in first-out byte queue.

use crate::error::Error;
use vstd::prelude::*;

verus! {

/// The largest capacity, in bytes, that a [`RingBuffer`] can have.
pub const MAX_RING_BYTES: usize = 128;

/// The slots of the backing queue, which keeps one of them free.
pub const RING_SLOTS: usize = 129;

/// `heapless::spsc::Queue`, a queue of at most `N - 1` items that is stored
/// in place.
#[verifier::external_type_specification]
#[verifier::external_body]
#[verifier::reject_recursive_types(T)]
pub struct ExQueue<T, const N: usize>(heapless::spsc::Queue<T, N>);

/// The bytes that a queue holds, oldest first.
pub uninterp spec fn queue_items(q: heapless::spsc::Queue<u8, RING_SLOTS>) -> Seq<u8>;

/// `heapless::spsc::Queue::new`: a queue that holds nothing.
#[verifier::external_body]
fn queue_new() -> (q: heapless::spsc::Queue<u8, RING_SLOTS>)
    ensures
        queue_items(q) == Seq::<u8>::empty(),
{
    heapless::spsc::Queue::new()
}

/// `heapless::spsc::Queue::len`: the number of bytes held.
#[verifier::external_body]
fn queue_len(q: &heapless::spsc::Queue<u8, RING_SLOTS>) -> (n: usize)
    ensures
        n == queue_items(*q).len(),
{
    q.len()
}

/// `heapless::spsc::Queue::enqueue`: appends `item` unless all but one of
/// the slots are taken, in which case the queue is left as it was. It does
/// not panic.
#[verifier::external_body]
fn queue_enqueue(q: &mut heapless::spsc::Queue<u8, RING_SLOTS>, item: u8) -> (stored: bool)
    ensures
        stored <==> queue_items(*old(q)).len() < RING_SLOTS - 1,
        stored ==> queue_items(*final(q)) == queue_items(*old(q)).push(item),
        !stored ==> queue_items(*final(q)) == queue_items(*old(q)),
    no_unwind
{
    q.enqueue(item).is_ok()
}

/// `heapless::spsc::Queue::dequeue`: removes and returns the oldest byte, or
/// returns `None` and changes nothing when the queue is empty. It does not
/// panic.
#[verifier::external_body]
fn queue_dequeue(q: &mut heapless::spsc::Queue<u8, RING_SLOTS>) -> (item: Option<u8>)
    ensures
        queue_items(*old(q)).len() == 0 ==> item.is_none() && queue_items(*final(q))
            == queue_items(*old(q)),
        queue_items(*old(q)).len() > 0 ==> item == Some(queue_items(*old(q))[0])
            && queue_items(*final(q)) == queue_items(*old(q)).drop_first(),
    no_unwind
{
    q.dequeue()
}

/// `heapless::spsc::Queue::peek`: the oldest byte, or `None` when the queue
/// is empty.
#[verifier::external_body]
fn queue_peek(q: &heapless::spsc::Queue<u8, RING_SLOTS>) -> (item: Option<u8>)
    ensures
        queue_items(*q).len() == 0 ==> item.is_none(),
        queue_items(*q).len() > 0 ==> item == Some(queue_items(*q)[0]),
{
    q.peek().copied()
}

/// A queue of at most `N` bytes, and never more than [`MAX_RING_BYTES`].
///
/// Its view is the sequence of bytes it holds, oldest first.
pub struct RingBuffer<const N: usize> {
    queue: heapless::spsc::Queue<u8, RING_SLOTS>,
}

impl<const N: usize> RingBuffer<N> {
    /// The bytes held, oldest first.
    pub closed spec fn view(&self) -> Seq<u8> {
        queue_items(self.queue)
    }

    /// The number of bytes that the buffer can hold.
    pub open spec fn spec_capacity() -> nat {
        if N <= MAX_RING_BYTES {
            N as nat
        } else {
            MAX_RING_BYTES as nat
        }
    }

    /// The buffer holds no more than its capacity.
    #[verifier::type_invariant]
    spec fn bounded(&self) -> bool {
        self@.len() <= Self::spec_capacity()
    }

    /// An empty buffer.
    pub fn new() -> (r: Self)
        ensures
            r@ == Seq::<u8>::empty(),
    {
        RingBuffer { queue: queue_new() }
    }

    /// The number of bytes that the buffer can hold.
    pub fn capacity(&self) -> (n: usize)
        ensures
            n == Self::spec_capacity(),
    {
        if N <= MAX_RING_BYTES {
            N
        } else {
            MAX_RING_BYTES
        }
    }

    /// The number of bytes held, which is never more than the capacity.
    pub fn len(&self) -> (n: usize)
        ensures
            n == self@.len(),
            n <= Self::spec_capacity(),
    {
        proof {
            use_type_invariant(self);
        }
        queue_len(&self.queue)
    }

    /// Whether the buffer holds nothing.
    pub fn is_empty(&self) -> (b: bool)
        ensures
            b <==> self@.len() == 0,
    {
        queue_len(&self.queue) == 0
    }

    /// Appends `item`, or reports that the buffer is full and leaves it as it
    /// was.
    pub fn enqueue(&mut self, item: u8) -> (r: Result<(), Error>)
        ensures
            old(self)@.len() < Self::spec_capacity() ==> r.is_ok() && final(self)@ == old(
                self,
            )@.push(item),
            old(self)@.len() >= Self::spec_capacity() ==> r == Err::<(), Error>(
                Error::CapacityExceeded,
            ) && final(self)@ == old(self)@,
            final(self)@.len() <= Self::spec_capacity(),
    {
        proof {
            use_type_invariant(&*self);
        }
        if queue_len(&self.queue) >= self.capacity() {
            return Err(Error::CapacityExceeded);
        }
        if queue_enqueue(&mut self.queue, item) {
            Ok(())
        } else {
            Err(Error::CapacityExceeded)
        }
    }

    /// Removes and returns the oldest byte, or returns `None` when the buffer
    /// is empty.
    pub fn dequeue(&mut self) -> (r: Option<u8>)
        ensures
            old(self)@.len() == 0 ==> r.is_none() && final(self)@ == old(self)@,
            old(self)@.len() > 0 ==> r == Some(old(self)@[0]) && final(self)@ == old(
                self,
            )@.drop_first(),
    {
        proof {
            use_type_invariant(&*self);
        }
        queue_dequeue(&mut self.queue)
    }

    /// The oldest byte, or `None` when the buffer is empty. The buffer is not
    /// changed.
    pub fn peek(&self) -> (r: Option<u8>)
        ensures
            self@.len() == 0 ==> r.is_none(),
            self@.len() > 0 ==> r == Some(self@[0]),
    {
        queue_peek(&self.queue)
    }
}

} // verus!
