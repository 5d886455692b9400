//! A pool of reusable byte buffers for the request path.
//!
//! Idle buffers wait in a bounded `crossbeam` queue, oldest first. Taking a
//! buffer from an empty pool makes a fresh one and counts the allocation;
//! giving one back to a full pool drops it.
use vstd::prelude::*;
use crossbeam::queue::ArrayQueue;

verus! {

#[verifier::external_type_specification]
#[verifier::external_body]
#[verifier::reject_recursive_types(T)]
pub struct ExArrayQueue<T>(ArrayQueue<T>);

/// The buffers a queue holds, oldest first.
pub uninterp spec fn queued(q: ArrayQueue<Vec<u8>>) -> Seq<Seq<u8>>;

/// The number of items the queue was made to hold.
pub uninterp spec fn queue_capacity(q: ArrayQueue<Vec<u8>>) -> nat;

/// `ArrayQueue::new`: an empty queue with room for `cap` items. The crate
/// panics on a zero capacity and on one whose successor has no next power
/// of two in 64 bits.
#[verifier::external_body]
fn queue_new(cap: usize) -> (q: ArrayQueue<Vec<u8>>)
    requires
        0 < cap,
        (cap as int) < 0x8000_0000_0000_0000,
    ensures
        queued(q) == Seq::<Seq<u8>>::empty(),
        queue_capacity(q) == cap,
{
    ArrayQueue::new(cap)
}

/// `ArrayQueue::push_mut`: appends the item when the queue is below its
/// capacity; otherwise hands it back unchanged and leaves the queue as it
/// was. Its body has no panicking path, so it does not unwind.
#[verifier::external_body]
fn queue_push(q: &mut ArrayQueue<Vec<u8>>, v: Vec<u8>) -> (r: Result<(), Vec<u8>>)
    ensures
        queue_capacity(*final(q)) == queue_capacity(*old(q)),
        queued(*old(q)).len() < queue_capacity(*old(q)) ==> r is Ok && queued(*final(q))
            == queued(*old(q)).push(v@),
        queued(*old(q)).len() >= queue_capacity(*old(q)) ==> (r matches Err(w) && w == v
            && queued(*final(q)) == queued(*old(q))),
    no_unwind
{
    q.push_mut(v)
}

/// `ArrayQueue::pop_mut`: removes and returns the oldest item, or `None`
/// when the queue is empty. Its body has no panicking path, so it does not
/// unwind.
#[verifier::external_body]
fn queue_pop(q: &mut ArrayQueue<Vec<u8>>) -> (r: Option<Vec<u8>>)
    ensures
        queue_capacity(*final(q)) == queue_capacity(*old(q)),
        queued(*old(q)).len() == 0 ==> r is None && queued(*final(q)) == queued(*old(q)),
        queued(*old(q)).len() > 0 ==> (r matches Some(b) && b@ == queued(*old(q))[0]
            && queued(*final(q)) == queued(*old(q)).drop_first()),
    no_unwind
{
    q.pop_mut()
}

/// Reusable byte buffers, each made with room for `buffer_size` bytes.
pub struct BufferPool {
    queue: ArrayQueue<Vec<u8>>,
    cap: usize,
    allocations: usize,
}

impl BufferPool {
    #[verifier::type_invariant]
    spec fn inv(self) -> bool {
        &&& 0 < queue_capacity(self.queue)
        &&& queued(self.queue).len() <= queue_capacity(self.queue)
        &&& forall|i: int| 0 <= i < queued(self.queue).len() ==> #[trigger] queued(self.queue)[i]
            == Seq::<u8>::empty()
    }

    /// How many idle buffers the pool holds now.
    pub closed spec fn idle(&self) -> nat {
        queued(self.queue).len()
    }

    /// The most idle buffers the pool keeps.
    pub closed spec fn slots(&self) -> nat {
        queue_capacity(self.queue)
    }

    /// The room each fresh buffer is made with.
    pub closed spec fn buffer_size(&self) -> usize {
        self.cap
    }

    /// How many buffers were made because the pool was empty.
    pub closed spec fn allocation_count(&self) -> usize {
        self.allocations
    }

    /// A pool of `capacity` slots, filled with `capacity` empty buffers.
    pub fn new(capacity: usize, buffer_size: usize) -> (r: BufferPool)
        requires
            0 < capacity,
            (capacity as int) < 0x8000_0000_0000_0000,
        ensures
            r.slots() == capacity,
            r.idle() == capacity,
            r.buffer_size() == buffer_size,
            r.allocation_count() == 0,
    {
        let mut queue = queue_new(capacity);
        let mut i: usize = 0;
        while i < capacity
            invariant
                i <= capacity,
                queue_capacity(queue) == capacity,
                queued(queue).len() == i,
                forall|j: int| 0 <= j < queued(queue).len() ==> #[trigger] queued(queue)[j]
                    == Seq::<u8>::empty(),
            decreases capacity - i,
        {
            let fresh: Vec<u8> = Vec::with_capacity(buffer_size);
            let _ = queue_push(&mut queue, fresh);
            i = i + 1;
        }
        BufferPool { queue, cap: buffer_size, allocations: 0 }
    }

    /// Takes an idle buffer, or makes a fresh one when none is idle. The
    /// buffer comes back empty.
    pub fn acquire(&mut self) -> (r: Vec<u8>)
        requires
            old(self).idle() > 0 || old(self).allocation_count() < usize::MAX,
        ensures
            r@ == Seq::<u8>::empty(),
            final(self).slots() == old(self).slots(),
            final(self).buffer_size() == old(self).buffer_size(),
            old(self).idle() > 0 ==> final(self).idle() == old(self).idle() - 1
                && final(self).allocation_count() == old(self).allocation_count(),
            old(self).idle() == 0 ==> final(self).idle() == 0 && final(self).allocation_count()
                == old(self).allocation_count() + 1,
    {
        proof {
            use_type_invariant(&*self);
        }
        let popped = queue_pop(&mut self.queue);
        let buf = match popped {
            Some(mut b) => {
                b.clear();
                b
            },
            None => {
                self.allocations = self.allocations + 1;
                Vec::with_capacity(self.cap)
            },
        };
        buf
    }

    /// Gives a buffer back: it is emptied and kept when a slot is free,
    /// dropped otherwise.
    pub fn release(&mut self, buf: Vec<u8>)
        ensures
            final(self).slots() == old(self).slots(),
            final(self).buffer_size() == old(self).buffer_size(),
            final(self).allocation_count() == old(self).allocation_count(),
            old(self).idle() < old(self).slots() ==> final(self).idle() == old(self).idle() + 1,
            old(self).idle() == old(self).slots() ==> final(self).idle() == old(self).idle(),
    {
        proof {
            use_type_invariant(&*self);
        }
        let mut buf = buf;
        buf.clear();
        let _ = queue_push(&mut self.queue, buf);
    }

    /// How many buffers were made because the pool was empty.
    pub fn allocations(&self) -> (r: usize)
        ensures
            r == self.allocation_count(),
    {
        self.allocations
    }
}

} // verus!
