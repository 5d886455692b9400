//! A pool of equal-sized byte buffers handed out by index: a buffer is
//! acquired, filled, and released back to the pool.
use vstd::prelude::*;

verus! {

/// A pool of `count` buffers of `buffer_size` bytes each, with a stack of
/// the indices of those not in use.
pub struct BufferRing {
    buffers: Vec<Vec<u8>>,
    available: Vec<usize>,
    buffer_size: usize,
}

impl BufferRing {
    /// The bytes of the buffers, in order.
    pub closed spec fn contents(&self) -> Seq<Seq<u8>> {
        self.buffers@.map_values(|b: Vec<u8>| b@)
    }

    /// The sizes of the buffers, in order.
    pub open spec fn sizes(&self) -> Seq<nat> {
        self.contents().map_values(|b: Seq<u8>| b.len())
    }

    /// The indices of the buffers not in use; the last is handed out next.
    pub closed spec fn free(&self) -> Seq<usize> {
        self.available@
    }

    /// The size every buffer was made with.
    pub closed spec fn size(&self) -> usize {
        self.buffer_size
    }

    /// A pool of `count` zeroed buffers of `buffer_size` bytes, all free
    /// (`0, 1, ..., count - 1` on the stack).
    pub fn new(count: usize, buffer_size: usize) -> (r: BufferRing)
        ensures
            r.contents().len() == count,
            forall|i: int| 0 <= i < count ==> #[trigger] r.contents()[i] == Seq::new(
                buffer_size as nat,
                |j: int| 0u8,
            ),
            r.free().len() == count,
            forall|i: int| 0 <= i < count ==> r.free()[i] == i,
            r.size() == buffer_size,
    {
        let mut buffers: Vec<Vec<u8>> = Vec::new();
        let mut available: Vec<usize> = Vec::new();
        let mut i: usize = 0;
        while i < count
            invariant
                i <= count,
                buffers@.len() == i,
                available@.len() == i,
                forall|k: int| 0 <= k < i ==> (#[trigger] buffers@[k])@ == Seq::new(buffer_size as nat, |j: int| 0u8),
                forall|k: int| 0 <= k < i ==> #[trigger] available@[k] == k,
            decreases count - i,
        {
            let mut b: Vec<u8> = Vec::new();
            let mut j: usize = 0;
            while j < buffer_size
                invariant
                    j <= buffer_size,
                    b@ == Seq::new(j as nat, |k: int| 0u8),
                decreases buffer_size - j,
            {
                b.push(0);
                assert(b@ =~= Seq::new((j + 1) as nat, |k: int| 0u8));
                j = j + 1;
            }
            buffers.push(b);
            available.push(i);
            i = i + 1;
        }
        let r = BufferRing { buffers, available, buffer_size };
        assert(r.contents().len() == count);
        r
    }

    /// Takes a free buffer's index (the most recently freed), or `None` when
    /// all are in use.
    pub fn acquire(&mut self) -> (r: Option<usize>)
        ensures
            old(self).free().len() == 0 ==> r is None && final(self).free() == old(self).free(),
            old(self).free().len() > 0 ==> r == Some(old(self).free().last()) && final(self).free()
                == old(self).free().drop_last(),
            final(self).contents() == old(self).contents(),
            final(self).size() == old(self).size(),
    {
        self.available.pop()
    }

    /// The buffer with index `id`, for writing: what is written through it
    /// is what buffer `id` then holds; the free stack is left alone.
    pub fn buffer_mut(&mut self, id: usize) -> (r: Option<&mut [u8]>)
        ensures
            (id < old(self).contents().len()) == (r is Some),
            r matches Some(b) ==> b@ == old(self).contents()[id as int] && final(self).contents()
                == old(self).contents().update(id as int, final(b)@),
            r is None ==> final(self).contents() == old(self).contents(),
            final(self).free() == old(self).free(),
            final(self).size() == old(self).size(),
    {
        if id < self.buffers.len() {
            let b = &mut self.buffers[id];
            Some(b.as_mut_slice())
        } else {
            None
        }
    }

    /// The buffer with index `id`.
    pub fn buffer(&self, id: usize) -> (r: Option<&[u8]>)
        ensures
            (id < self.contents().len()) == (r is Some),
            r matches Some(b) ==> b@ == self.contents()[id as int],
    {
        if id < self.buffers.len() {
            Some(self.buffers[id].as_slice())
        } else {
            None
        }
    }

    /// Returns buffer `id` to the pool (the index is not checked).
    pub fn release(&mut self, id: usize)
        ensures
            final(self).free() == old(self).free().push(id),
            final(self).contents() == old(self).contents(),
            final(self).size() == old(self).size(),
    {
        self.available.push(id);
    }

    /// The number of free buffers.
    pub fn available_count(&self) -> (r: usize)
        ensures
            r == self.free().len(),
    {
        self.available.len()
    }

    /// The number of buffers in the pool.
    pub fn total_count(&self) -> (r: usize)
        ensures
            r == self.contents().len(),
    {
        self.buffers.len()
    }

    /// The size of each buffer, in bytes.
    pub fn buffer_size(&self) -> (r: usize)
        ensures
            r == self.size(),
    {
        self.buffer_size
    }

    /// Whether some buffer is free.
    pub fn has_available(&self) -> (r: bool)
        ensures
            r == (self.free().len() > 0),
    {
        self.available.len() > 0
    }
}

/// Releasing the buffer just acquired puts the pool's free stack back as
/// it was.
pub proof fn law_acquire_then_release(free: Seq<usize>)
    requires
        free.len() > 0,
    ensures
        free.drop_last().push(free.last()) == free,
{
    assert(free.drop_last().push(free.last()) =~= free);
}

} // verus!
