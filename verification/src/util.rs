use vstd::prelude::*;

verus! {

/// Two growable buffers and a direction bit.  Each `swap` hands out the pair
/// as (source, destination) and flips the bit, so the roles alternate
/// between successive calls: a pipeline reads one buffer while writing the
/// other, with no allocation per frame after warm-up.
pub struct BufferBank<T> {
    buff0: Vec<T>,
    buff1: Vec<T>,
    direction: bool,
}

impl<T> BufferBank<T> {
    /// The buffer the next `swap` hands out as source.
    pub closed spec fn src_view(&self) -> Seq<T> {
        if self.direction {
            self.buff0@
        } else {
            self.buff1@
        }
    }

    /// The buffer the next `swap` hands out as destination.
    pub closed spec fn dst_view(&self) -> Seq<T> {
        if self.direction {
            self.buff1@
        } else {
            self.buff0@
        }
    }

    /// An empty bank; the first `swap` returns (`buff0`, `buff1`)
    /// equivalents in the roles (source, destination).
    pub fn new() -> (r: Self)
        ensures
            r.src_view() == Seq::<T>::empty(),
            r.dst_view() == Seq::<T>::empty(),
    {
        BufferBank { buff0: Vec::new(), buff1: Vec::new(), direction: true }
    }

    /// Borrows the two buffers as (source, destination) and flips the
    /// direction, so the buffer written through `dst` is the source of the
    /// next call.
    pub fn swap(&mut self) -> (r: (&mut Vec<T>, &mut Vec<T>))
        ensures
            r.0@ == old(self).src_view(),
            r.1@ == old(self).dst_view(),
            final(self).src_view() == final(r.1)@,
            final(self).dst_view() == final(r.0)@,
    {
        let result = if self.direction {
            (&mut self.buff0, &mut self.buff1)
        } else {
            (&mut self.buff1, &mut self.buff0)
        };
        self.direction = !self.direction;
        result
    }
}

} // verus!
