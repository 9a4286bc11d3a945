use vstd::prelude::*;
use vstd::slice::SliceAdditionalExecFns;

verus! {

/// How many items a `put` of `src_len` items accepts when the buffer already
/// holds `len` items out of `cap` cells.  In overwrite mode every item is
/// accepted; otherwise only as many as fit in the free space.
pub open spec fn ring_accept(len: int, src_len: int, cap: int, overwrite: bool) -> int {
    if overwrite {
        src_len
    } else if src_len <= cap - len {
        src_len
    } else {
        cap - len
    }
}

/// The logical contents after a `put`: the accepted prefix of `src` is
/// appended, and in overwrite mode the oldest items beyond `cap` are dropped.
pub open spec fn ring_after_put<T>(contents: Seq<T>, src: Seq<T>, cap: int, overwrite: bool) -> Seq<
    T,
> {
    if overwrite {
        let total = contents.len() + src.len();
        if total <= cap {
            contents + src
        } else {
            (contents + src).skip(total - cap)
        }
    } else {
        contents + src.take(ring_accept(contents.len() as int, src.len() as int, cap, overwrite))
    }
}

/// Index of logical position `i` in a ring of `cap` cells whose oldest item
/// sits at `start`; `start + i` wraps around the backing at most once.
pub open spec fn wrap_index(start: int, i: int, cap: int) -> int {
    if start + i < cap {
        start + i
    } else {
        start + i - cap
    }
}

/// Fixed-capacity FIFO queue over a contiguous backing of `capacity` cells,
/// with a read pointer, a write pointer and a size.  With `overwrite` set, a
/// `put` into a full buffer drops the oldest items instead of truncating the
/// write.
pub struct RingBuf<T: Copy> {
    mem: Vec<T>,
    rp: usize,
    wp: usize,
    size: usize,
    overwrite: bool,
}

impl<T: Copy> RingBuf<T> {
    /// Number of backing cells.
    pub closed spec fn cap(&self) -> int {
        self.mem@.len() as int
    }

    /// Whether a full buffer drops its oldest items to accept new ones.
    pub closed spec fn is_overwrite(&self) -> bool {
        self.overwrite
    }

    /// Structural invariant: the pointers stay inside the backing and the
    /// write pointer mirrors read pointer plus size.
    pub closed spec fn wf(&self) -> bool {
        &&& self.mem@.len() >= 1
        &&& self.size <= self.mem@.len()
        &&& self.rp < self.mem@.len()
        &&& self.wp == wrap_index(self.rp as int, self.size as int, self.mem@.len() as int)
    }

    /// The queued items, oldest first: `size` cells starting at the read
    /// pointer, wrapping around the backing.
    pub closed spec fn contents(&self) -> Seq<T> {
        Seq::new(
            self.size as nat,
            |i: int| self.mem@[wrap_index(self.rp as int, i, self.mem@.len() as int)],
        )
    }

    /// A fresh, empty buffer of `capacity` cells.  Every cell starts as a copy
    /// of `fill`; the fill value is never returned by `get`, which only reads
    /// cells that a `put` wrote.
    pub fn new(capacity: usize, overwrite: bool, fill: T) -> (r: Self)
        requires
            capacity >= 1,
        ensures
            r.wf(),
            r.cap() == capacity,
            r.is_overwrite() == overwrite,
            r.contents() == Seq::<T>::empty(),
    {
        let mut mem: Vec<T> = Vec::new();
        let mut i: usize = 0;
        while i < capacity
            invariant
                i <= capacity,
                mem@.len() == i,
            decreases capacity - i,
        {
            mem.push(fill);
            i += 1;
        }
        let r = RingBuf { mem, rp: 0, wp: 0, size: 0, overwrite };
        proof {
            assert(r.contents() =~= Seq::<T>::empty());
        }
        r
    }

    /// Appends one item, dropping the oldest item first when the buffer is
    /// full (the caller only does this in overwrite mode).
    fn push_one(&mut self, x: T)
        requires
            old(self).wf(),
        ensures
            final(self).wf(),
            final(self).cap() == old(self).cap(),
            final(self).is_overwrite() == old(self).is_overwrite(),
            final(self).contents() == if old(self).contents().len() == old(self).cap() {
                old(self).contents().skip(1).push(x)
            } else {
                old(self).contents().push(x)
            },
    {
        let cap = self.mem.len();
        let w = self.wp;
        self.mem[w] = x;
        self.wp = if self.wp + 1 == cap {
            0
        } else {
            self.wp + 1
        };
        if self.size == cap {
            self.rp = if self.rp + 1 == cap {
                0
            } else {
                self.rp + 1
            };
        } else {
            self.size = self.size + 1;
        }
        proof {
            if old(self).contents().len() == old(self).cap() {
                assert(self.contents() =~= old(self).contents().skip(1).push(x));
            } else {
                assert(self.contents() =~= old(self).contents().push(x));
            }
        }
    }

    /// Writes `src` into the buffer.  Without overwrite only as much as fits
    /// is accepted; with overwrite everything is accepted and the oldest items
    /// give way.  Returns the number of items accepted.
    pub fn put(&mut self, src: &[T]) -> (n: usize)
        requires
            old(self).wf(),
        ensures
            final(self).wf(),
            final(self).cap() == old(self).cap(),
            final(self).is_overwrite() == old(self).is_overwrite(),
            n == ring_accept(
                old(self).contents().len() as int,
                src@.len() as int,
                old(self).cap(),
                old(self).is_overwrite(),
            ),
            final(self).contents() == ring_after_put(
                old(self).contents(),
                src@,
                old(self).cap(),
                old(self).is_overwrite(),
            ),
    {
        let cap = self.mem.len();
        let limit: usize = if self.overwrite {
            src.len()
        } else {
            let free = cap - self.size;
            if src.len() <= free {
                src.len()
            } else {
                free
            }
        };
        let mut k: usize = 0;
        while k < limit
            invariant
                old(self).wf(),
                self.wf(),
                self.cap() == old(self).cap(),
                self.is_overwrite() == old(self).is_overwrite(),
                cap == self.cap(),
                k <= limit,
                limit <= src@.len(),
                limit == ring_accept(
                    old(self).contents().len() as int,
                    src@.len() as int,
                    old(self).cap(),
                    old(self).is_overwrite(),
                ),
                self.contents() == ring_after_put(
                    old(self).contents(),
                    src@.take(k as int),
                    old(self).cap(),
                    old(self).is_overwrite(),
                ),
            decreases limit - k,
        {
            let x = *vstd::slice::slice_index_get(src, k);
            self.push_one(x);
            proof {
                lemma_ring_put_step(old(self).contents(), src@, cap as int, self.is_overwrite(), k as int, limit as int);
            }
            k += 1;
        }
        proof {
            if !self.is_overwrite() {
                assert(src@.take(limit as int) =~= src@.take(limit as int).take(limit as int));
            } else {
                assert(src@.take(src@.len() as int) =~= src@);
            }
        }
        limit
    }

    /// Reads up to `dst.len()` items into the front of `dst`, oldest first,
    /// removing them from the buffer.  Returns the number of items read; the
    /// rest of `dst` is left as it was.
    pub fn get(&mut self, dst: &mut [T]) -> (n: usize)
        requires
            old(self).wf(),
        ensures
            final(self).wf(),
            final(self).cap() == old(self).cap(),
            final(self).is_overwrite() == old(self).is_overwrite(),
            n == if old(dst)@.len() <= old(self).contents().len() {
                old(dst)@.len() as int
            } else {
                old(self).contents().len() as int
            },
            final(dst)@ == old(self).contents().take(n as int) + old(dst)@.skip(n as int),
            final(self).contents() == old(self).contents().skip(n as int),
    {
        let n: usize = if dst.len() <= self.size {
            dst.len()
        } else {
            self.size
        };
        let cap = self.mem.len();
        proof {
            assert(old(self).contents().skip(0) =~= old(self).contents());
        }
        let mut k: usize = 0;
        while k < n
            invariant
                old(self).wf(),
                self.wf(),
                self.cap() == old(self).cap(),
                self.is_overwrite() == old(self).is_overwrite(),
                cap == self.cap(),
                k <= n,
                n <= old(self).contents().len(),
                n <= dst@.len(),
                dst@.len() == old(dst)@.len(),
                self.mem@ == old(self).mem@,
                self.size == old(self).size - k,
                self.rp == wrap_index(old(self).rp as int, k as int, cap as int),
                self.contents() == old(self).contents().skip(k as int),
                forall|i: int| 0 <= i < k ==> dst@[i] == old(self).contents()[i],
                forall|i: int| k <= i < dst@.len() ==> dst@[i] == old(dst)@[i],
            decreases n - k,
        {
            let r = self.rp;
            let x = self.mem[r];
            dst[k] = x;
            proof {
                assert(wrap_index(self.rp as int, 0, cap as int) == self.rp as int);
                assert(x == self.contents()[0]);
                assert(old(self).contents().skip(k as int)[0] == old(self).contents()[k as int]);
            }
            self.rp = if self.rp + 1 == cap {
                0
            } else {
                self.rp + 1
            };
            self.size = self.size - 1;
            proof {
                assert(self.contents() =~= old(self).contents().skip(k + 1));
            }
            k += 1;
        }
        proof {
            assert(dst@ =~= old(self).contents().take(n as int) + old(dst)@.skip(n as int));
        }
        n
    }

    /// Drops the `n` oldest items without copying them out; the counterpart
    /// of `get` for a caller that already inspected them through `runs`.
    pub fn advance(&mut self, n: usize)
        requires
            old(self).wf(),
            n <= old(self).contents().len(),
        ensures
            final(self).wf(),
            final(self).cap() == old(self).cap(),
            final(self).is_overwrite() == old(self).is_overwrite(),
            final(self).contents() == old(self).contents().skip(n as int),
    {
        let cap = self.mem.len();
        self.rp = if n < cap - self.rp {
            self.rp + n
        } else {
            n - (cap - self.rp)
        };
        self.size = self.size - n;
        proof {
            assert(self.contents() =~= old(self).contents().skip(n as int));
        }
    }

    /// Borrows the queued items in place as the two contiguous runs the
    /// wrap-around splits them into: the first run from the read pointer to
    /// the end of the backing, the second from its start.
    pub fn runs(&self) -> (r: (&[T], &[T]))
        requires
            self.wf(),
        ensures
            r.0@ + r.1@ == self.contents(),
            r.0@.len() == if self.contents().len() <= self.cap() - self.ring_rp() {
                self.contents().len() as int
            } else {
                self.cap() - self.ring_rp()
            },
    {
        let cap = self.mem.len();
        let first_len: usize = if self.size <= cap - self.rp {
            self.size
        } else {
            cap - self.rp
        };
        let second_len: usize = self.size - first_len;
        let first = vstd::slice::slice_subrange(self.mem.as_slice(), self.rp, self.rp + first_len);
        let second = vstd::slice::slice_subrange(self.mem.as_slice(), 0, second_len);
        proof {
            assert(first@ + second@ =~= self.contents());
        }
        (first, second)
    }

    /// The read pointer, for stating where the wrap splits the contents.
    pub closed spec fn ring_rp(&self) -> int {
        self.rp as int
    }

    /// Number of items currently queued.
    pub fn len(&self) -> (n: usize)
        ensures
            n == self.contents().len(),
    {
        self.size
    }

    /// Whether this buffer drops its oldest items to accept new writes.
    pub fn overwrite_mode(&self) -> (b: bool)
        ensures
            b == self.is_overwrite(),
    {
        self.overwrite
    }

    /// Number of backing cells.
    pub fn capacity(&self) -> (n: usize)
        ensures
            n == self.cap(),
    {
        self.mem.len()
    }
}

/// The buffer contents after a sequence of `put`s, oldest write first.
pub open spec fn ring_after_puts<T>(
    contents: Seq<T>,
    writes: Seq<Seq<T>>,
    cap: int,
    overwrite: bool,
) -> Seq<T>
    decreases writes.len(),
{
    if writes.len() == 0 {
        contents
    } else {
        ring_after_puts(ring_after_put(contents, writes[0], cap, overwrite), writes.skip(1), cap, overwrite)
    }
}

/// All written items in write order, as one sequence.
pub open spec fn concat_writes<T>(writes: Seq<Seq<T>>) -> Seq<T>
    decreases writes.len(),
{
    if writes.len() == 0 {
        Seq::<T>::empty()
    } else {
        writes[0] + concat_writes(writes.skip(1))
    }
}

/// Total number of items over a sequence of writes.
pub open spec fn total_write_len<T>(writes: Seq<Seq<T>>) -> nat
    decreases writes.len(),
{
    if writes.len() == 0 {
        0
    } else {
        writes[0].len() + total_write_len(writes.skip(1))
    }
}

/// Round trip, write side: any sequence of writes whose total, together with
/// what the buffer already holds, stays within the capacity leaves the buffer
/// holding the old contents followed by every written item in write order —
/// in either mode, since nothing is truncated or dropped.  With empty starting
/// contents, a read of the total length therefore returns exactly the written
/// sequence (`get` returns a `take` of the contents).
pub proof fn lemma_puts_concat<T>(contents: Seq<T>, writes: Seq<Seq<T>>, cap: int, overwrite: bool)
    requires
        cap >= 1,
        contents.len() + total_write_len(writes) <= cap,
    ensures
        ring_after_puts(contents, writes, cap, overwrite) == contents + concat_writes(writes),
    decreases writes.len(),
{
    if writes.len() == 0 {
        assert(contents + concat_writes(writes) =~= contents);
    } else {
        let first = writes[0];
        let rest = writes.skip(1);
        assert(ring_after_put(contents, first, cap, overwrite) =~= contents + first);
        lemma_puts_concat(contents + first, rest, cap, overwrite);
        assert((contents + first) + concat_writes(rest) =~= contents + (first + concat_writes(
            rest,
        )));
    }
}

/// Concatenating the writes yields as many items as were written.
pub proof fn lemma_concat_writes_len<T>(writes: Seq<Seq<T>>)
    ensures
        concat_writes(writes).len() == total_write_len(writes),
    decreases writes.len(),
{
    if writes.len() > 0 {
        lemma_concat_writes_len(writes.skip(1));
    }
}

/// Round trip: starting from an empty buffer, any sequence of writes
/// totaling no more than the capacity leaves the buffer holding exactly the
/// written items in write order, so reads totaling that many items return
/// the written sequence.
pub proof fn lemma_put_get_round_trip<T>(writes: Seq<Seq<T>>, cap: int, overwrite: bool)
    requires
        cap >= 1,
        total_write_len(writes) <= cap,
    ensures
        ring_after_puts(Seq::<T>::empty(), writes, cap, overwrite) == concat_writes(writes),
        ring_after_puts(Seq::<T>::empty(), writes, cap, overwrite).take(
            total_write_len(writes) as int,
        ) == concat_writes(writes),
{
    lemma_puts_concat(Seq::<T>::empty(), writes, cap, overwrite);
    lemma_concat_writes_len(writes);
    assert(Seq::<T>::empty() + concat_writes(writes) =~= concat_writes(writes));
    assert(concat_writes(writes).take(total_write_len(writes) as int) =~= concat_writes(writes));
}

/// Round trip, read side: items read in chunks come out as the one
/// concatenated prefix, so chunked reads reconstruct the written sequence.
pub proof fn lemma_get_in_chunks<T>(s: Seq<T>, n1: int, n2: int)
    requires
        0 <= n1,
        0 <= n2,
        n1 + n2 <= s.len(),
    ensures
        s.take(n1) + s.skip(n1).take(n2) == s.take(n1 + n2),
{
    assert(s.take(n1) + s.skip(n1).take(n2) =~= s.take(n1 + n2));
}

/// Overwrite preservation: writing a sequence at least as long as the
/// capacity leaves the buffer holding exactly the last `cap` items of that
/// sequence, whatever it held before; a full read then returns them.
pub proof fn lemma_overwrite_keeps_last<T>(contents: Seq<T>, src: Seq<T>, cap: int)
    requires
        cap >= 1,
        contents.len() <= cap,
        src.len() >= cap,
    ensures
        ring_after_put(contents, src, cap, true) == src.skip(src.len() - cap),
{
    assert(ring_after_put(contents, src, cap, true) =~= src.skip(src.len() - cap));
}

/// One step of `put`: accepting item `k` of `src` commutes with the
/// sequence-level description of the buffer contents.
proof fn lemma_ring_put_step<T>(
    contents: Seq<T>,
    src: Seq<T>,
    cap: int,
    overwrite: bool,
    k: int,
    limit: int,
)
    requires
        cap >= 1,
        contents.len() <= cap,
        0 <= k < limit,
        limit <= src.len(),
        limit == ring_accept(contents.len() as int, src.len() as int, cap, overwrite),
    ensures
        ring_after_put(contents, src.take(k + 1), cap, overwrite) == if ring_after_put(
            contents,
            src.take(k),
            cap,
            overwrite,
        ).len() == cap {
            ring_after_put(contents, src.take(k), cap, overwrite).skip(1).push(src[k])
        } else {
            ring_after_put(contents, src.take(k), cap, overwrite).push(src[k])
        },
{
    let before = ring_after_put(contents, src.take(k), cap, overwrite);
    let after = ring_after_put(contents, src.take(k + 1), cap, overwrite);
    if overwrite {
        if contents.len() + k + 1 <= cap {
            assert(after =~= before.push(src[k]));
        } else if contents.len() + k <= cap {
            assert(before.len() == cap);
            assert(after =~= before.skip(1).push(src[k]));
        } else {
            assert(before.len() == cap);
            assert(after =~= before.skip(1).push(src[k]));
        }
    } else {
        assert(src.take(k).take(ring_accept(contents.len() as int, k, cap, overwrite)) =~= src.take(
            k,
        ));
        assert(src.take(k + 1).take(ring_accept(contents.len() as int, k + 1, cap, overwrite))
            =~= src.take(k + 1));
        assert(before.len() < cap);
        assert(after =~= before.push(src[k]));
    }
}

} // verus!
