//! Output batching: many small writes gathered into one.
use vstd::prelude::*;

verus! {

/// The buffers one after another.
pub open spec fn flattened(bufs: Seq<Seq<u8>>) -> Seq<u8>
    decreases bufs.len(),
{
    if bufs.len() == 0 {
        seq![]
    } else {
        flattened(bufs.drop_last()) + bufs.last()
    }
}

/// The bytes of a list of buffers.
pub open spec fn bufs_view(v: Seq<Vec<u8>>) -> Seq<Seq<u8>> {
    v.map_values(|b: Vec<u8>| b@)
}

/// Writes gathered for one flush.
pub struct BatchedWriter {
    buffers: Vec<Vec<u8>>,
    total_size: usize,
}

impl BatchedWriter {
    #[verifier::type_invariant]
    spec fn inv(self) -> bool {
        self.total_size == flattened(bufs_view(self.buffers@)).len()
    }

    /// The buffers written, in order.
    pub closed spec fn written(&self) -> Seq<Seq<u8>> {
        bufs_view(self.buffers@)
    }

    /// Nothing written.
    pub fn new() -> (r: BatchedWriter)
        ensures
            r.written().len() == 0,
    {
        let w = BatchedWriter { buffers: Vec::new(), total_size: 0 };
        assert(bufs_view(w.buffers@) =~= Seq::<Seq<u8>>::empty());
        w
    }

    /// Adds a buffer. The total size must stay within `usize`.
    pub fn push(&mut self, data: Vec<u8>)
        requires
            flattened(old(self).written()).len() + data@.len() <= usize::MAX,
        ensures
            final(self).written() == old(self).written().push(data@),
    {
        proof {
            use_type_invariant(&*self);
        }
        let ghost before = self.written();
        let n = data.len();
        let mut w = BatchedWriter::new();
        std::mem::swap(&mut w, self);
        proof {
            use_type_invariant(&w);
        }
        let BatchedWriter { buffers, total_size } = w;
        let mut bufs = buffers;
        bufs.push(data);
        assert(bufs_view(bufs@) =~= before.push(data@));
        assert(bufs_view(bufs@).drop_last() =~= before);
        *self = BatchedWriter { buffers: bufs, total_size: total_size + n };
    }

    /// The number of bytes written.
    pub fn total_size(&self) -> (r: usize)
        ensures
            r == flattened(self.written()).len(),
    {
        proof {
            use_type_invariant(self);
        }
        self.total_size
    }

    /// Whether nothing was written.
    pub fn is_empty(&self) -> (r: bool)
        ensures
            r == (self.written().len() == 0),
    {
        self.buffers.len() == 0
    }

    /// The buffers written, in order.
    pub fn into_buffers(self) -> (r: Vec<Vec<u8>>)
        ensures
            bufs_view(r@) == self.written(),
    {
        let BatchedWriter { buffers, total_size: _ } = self;
        buffers
    }

    /// All bytes written, in one buffer.
    pub fn into_flattened(self) -> (r: Vec<u8>)
        ensures
            r@ == flattened(self.written()),
    {
        let ghost w = self.written();
        let mut out: Vec<u8> = Vec::new();
        let mut i: usize = 0;
        while i < self.buffers.len()
            invariant
                i <= self.buffers@.len(),
                w == bufs_view(self.buffers@),
                out@ == flattened(w.subrange(0, i as int)),
            decreases self.buffers.len() - i,
        {
            let b = &self.buffers[i];
            let mut j: usize = 0;
            let ghost start = out@;
            while j < b.len()
                invariant
                    j <= b@.len(),
                    out@ == start + b@.subrange(0, j as int),
                decreases b.len() - j,
            {
                out.push(b[j]);
                assert(b@.subrange(0, j + 1) =~= b@.subrange(0, j as int).push(b@[j as int]));
                assert(out@ =~= start + b@.subrange(0, j + 1));
                j = j + 1;
            }
            assert(b@.subrange(0, b@.len() as int) =~= b@);
            assert(w.subrange(0, i + 1).drop_last() =~= w.subrange(0, i as int));
            i = i + 1;
        }
        assert(w.subrange(0, w.len() as int) =~= w);
        out
    }
}

impl Default for BatchedWriter {
    fn default() -> (r: BatchedWriter)
        ensures
            r.written().len() == 0,
    {
        BatchedWriter::new()
    }
}

} // verus!
