use vstd::prelude::*;
use vstd::rwlock::{RwLock, RwLockPredicate, WriteHandle};
use std::sync::Arc;
use crate::ringbuf::{RingBuf, ring_accept, ring_after_put};
use crate::traits::SdrError;

verus! {

/// The single-producer/single-consumer state both endpoints of a stream
/// share under its lock: a ring buffer, the blocking policy of each end, and
/// one closed flag per endpoint.
pub struct StreamBuf<T: Copy> {
    ring: RingBuf<T>,
    block_read: bool,
    block_write: bool,
    read_closed: bool,
    write_closed: bool,
}

/// The configuration a stream is created with; the lock's invariant pins the
/// shared state to it for the stream's whole life.
pub struct StreamConfig {
    pub capacity: int,
    pub overwrite: bool,
    pub block_read: bool,
    pub block_write: bool,
}

impl<T: Copy> RwLockPredicate<StreamBuf<T>> for StreamConfig {
    open spec fn inv(self, v: StreamBuf<T>) -> bool {
        &&& v.wf()
        &&& v.cap() == self.capacity
        &&& v.is_overwrite() == self.overwrite
        &&& v.blocks_read() == self.block_read
        &&& v.blocks_write() == self.block_write
    }
}

/// What one locked read step decided.
pub enum ReadStep {
    /// This many items were copied out; always at least one.
    Data(usize),
    /// The buffer is drained and the writer is gone: end of stream.
    Eof,
    /// Nothing to read now; a blocking reader retries, a non-blocking one
    /// reports `WouldBlock`.
    Empty,
}

/// What one locked write step decided.
pub enum WriteStep {
    /// This many items were accepted; always at least one.
    Accepted(usize),
    /// The write side is closed.
    Closed,
    /// The buffer is full and may not be overwritten; a blocking writer
    /// retries, a non-blocking one reports `WouldBlock`.
    Full,
}

impl<T: Copy> StreamBuf<T> {
    /// Structural invariant: the ring's own.
    pub closed spec fn wf(&self) -> bool {
        self.ring.wf()
    }

    /// The queued items, oldest first.
    pub closed spec fn contents(&self) -> Seq<T> {
        self.ring.contents()
    }

    /// The fixed capacity.
    pub closed spec fn cap(&self) -> int {
        self.ring.cap()
    }

    /// Whether a full buffer drops its oldest items to accept new writes.
    pub closed spec fn is_overwrite(&self) -> bool {
        self.ring.is_overwrite()
    }

    /// Whether an empty read waits rather than failing.
    pub closed spec fn blocks_read(&self) -> bool {
        self.block_read
    }

    /// Whether a full write waits rather than failing.
    pub closed spec fn blocks_write(&self) -> bool {
        self.block_write
    }

    /// Whether the reading endpoint has been closed.
    pub closed spec fn is_read_closed(&self) -> bool {
        self.read_closed
    }

    /// Whether the writing endpoint has been closed.
    pub closed spec fn is_write_closed(&self) -> bool {
        self.write_closed
    }

    /// Everything but the queued items and returns is unchanged.
    pub open spec fn same_shape(&self, other: &Self) -> bool {
        &&& self.cap() == other.cap()
        &&& self.is_overwrite() == other.is_overwrite()
        &&& self.blocks_read() == other.blocks_read()
        &&& self.blocks_write() == other.blocks_write()
        &&& self.is_read_closed() == other.is_read_closed()
        &&& self.is_write_closed() == other.is_write_closed()
    }

    /// One read step against the shared state.  Returns data whenever any is
    /// queued; end of stream exactly when the buffer is drained, the writer
    /// is closed and this is a blocking reader — and never while items
    /// remain; `Empty` otherwise, leaving everything unchanged.
    pub fn read_step(&mut self, dst: &mut [T]) -> (r: ReadStep)
        requires
            old(self).wf(),
            old(dst)@.len() >= 1,
        ensures
            final(self).wf(),
            final(self).same_shape(old(self)),
            final(dst)@.len() == old(dst)@.len(),
            match r {
                ReadStep::Data(n) => {
                    &&& old(self).contents().len() >= 1
                    &&& 1 <= n <= old(dst)@.len()
                    &&& n == if old(dst)@.len() <= old(self).contents().len() {
                        old(dst)@.len() as int
                    } else {
                        old(self).contents().len() as int
                    }
                    &&& final(dst)@ == old(self).contents().take(n as int) + old(dst)@.skip(
                        n as int,
                    )
                    &&& final(self).contents() == old(self).contents().skip(n as int)
                },
                ReadStep::Eof => {
                    &&& old(self).contents().len() == 0
                    &&& old(self).is_write_closed()
                    &&& old(self).blocks_read()
                    &&& final(self).contents() == old(self).contents()
                    &&& final(dst)@ == old(dst)@
                },
                ReadStep::Empty => {
                    &&& old(self).contents().len() == 0
                    &&& !(old(self).is_write_closed() && old(self).blocks_read())
                    &&& final(self).contents() == old(self).contents()
                    &&& final(dst)@ == old(dst)@
                },
            },
    {
        if self.ring.len() == 0 {
            if self.block_read && self.write_closed {
                ReadStep::Eof
            } else {
                ReadStep::Empty
            }
        } else {
            let n = self.ring.get(dst);
            ReadStep::Data(n)
        }
    }

    /// One write step against the shared state.  Refused when the write side
    /// is closed; `Full` when nothing can be accepted without overwriting;
    /// otherwise accepts as much of `src` as the policy allows: everything in
    /// overwrite mode, what fits in the free space without it.
    pub fn write_step(&mut self, src: &[T]) -> (r: WriteStep)
        requires
            old(self).wf(),
            src@.len() >= 1,
        ensures
            final(self).wf(),
            final(self).same_shape(old(self)),
            match r {
                WriteStep::Accepted(n) => {
                    &&& !old(self).is_write_closed()
                    &&& old(self).is_overwrite() || old(self).contents().len() < old(self).cap()
                    &&& n == ring_accept(
                        old(self).contents().len() as int,
                        src@.len() as int,
                        old(self).cap(),
                        old(self).is_overwrite(),
                    )
                    &&& n >= 1
                    &&& final(self).contents() == ring_after_put(
                        old(self).contents(),
                        src@,
                        old(self).cap(),
                        old(self).is_overwrite(),
                    )
                },
                WriteStep::Closed => {
                    &&& old(self).is_write_closed()
                    &&& final(self).contents() == old(self).contents()
                },
                WriteStep::Full => {
                    &&& !old(self).is_write_closed()
                    &&& !old(self).is_overwrite()
                    &&& old(self).contents().len() == old(self).cap()
                    &&& final(self).contents() == old(self).contents()
                },
            },
    {
        if self.write_closed {
            WriteStep::Closed
        } else if !self.ring.overwrite_mode() && self.ring.len() == self.ring.capacity() {
            WriteStep::Full
        } else {
            let n = self.ring.put(src);
            WriteStep::Accepted(n)
        }
    }

    /// Marks the reading endpoint closed; everything else is untouched.
    pub fn close_read(&mut self)
        requires
            old(self).wf(),
        ensures
            final(self).wf(),
            final(self).is_read_closed(),
            final(self).is_write_closed() == old(self).is_write_closed(),
            final(self).contents() == old(self).contents(),
            final(self).cap() == old(self).cap(),
            final(self).is_overwrite() == old(self).is_overwrite(),
            final(self).blocks_read() == old(self).blocks_read(),
            final(self).blocks_write() == old(self).blocks_write(),
    {
        self.read_closed = true;
    }

    /// Marks the writing endpoint closed; everything else is untouched.  A
    /// blocking reader that drains the rest will then see end of stream.
    pub fn close_write(&mut self)
        requires
            old(self).wf(),
        ensures
            final(self).wf(),
            final(self).is_write_closed(),
            final(self).is_read_closed() == old(self).is_read_closed(),
            final(self).contents() == old(self).contents(),
            final(self).cap() == old(self).cap(),
            final(self).is_overwrite() == old(self).is_overwrite(),
            final(self).blocks_read() == old(self).blocks_read(),
            final(self).blocks_write() == old(self).blocks_write(),
    {
        self.write_closed = true;
    }

    /// Number of queued items.
    pub fn len(&self) -> (n: usize)
        requires
            self.wf(),
        ensures
            n == self.contents().len(),
    {
        self.ring.len()
    }
}

/// Blocking wake: after a put of at least one item into a buffer that has
/// room for it — any put in overwrite mode, any put into a non-full buffer
/// otherwise — the buffer is non-empty.  By the contract of `read_step`, a
/// reader that was waiting on an empty buffer therefore completes with data
/// on its next step rather than waiting again.
pub proof fn lemma_blocking_wake<T>(contents: Seq<T>, src: Seq<T>, cap: int, overwrite: bool)
    requires
        cap >= 1,
        contents.len() <= cap,
        src.len() >= 1,
        overwrite || contents.len() < cap,
    ensures
        ring_after_put(contents, src, cap, overwrite).len() >= 1,
{
}

/// The reading endpoint of a stream.
pub struct StreamReader<T: Copy> {
    shared: Arc<RwLock<StreamBuf<T>, StreamConfig>>,
}

/// The writing endpoint of a stream.
pub struct StreamWriter<T: Copy> {
    shared: Arc<RwLock<StreamBuf<T>, StreamConfig>>,
}

/// Relies on std's Arc::clone: the returned handle is the same shared
/// allocation, so both stream endpoints operate on one lock.
#[verifier::external_body]
fn clone_shared<T: Copy>(a: &Arc<RwLock<StreamBuf<T>, StreamConfig>>) -> (r: Arc<
    RwLock<StreamBuf<T>, StreamConfig>,
>)
    ensures
        r == *a,
{
    Arc::clone(a)
}

/// Creates a linked reader/writer pair over a fresh buffer of `capacity`
/// cells, every cell starting as a copy of `fill` (never readable: `get`
/// only returns items a `put` accepted).  The combination of overwrite and
/// blocking writes is contradictory — overwrite exists so a writer need
/// never wait — and is rejected, as is an empty buffer.
pub fn new_stream<T: Copy>(
    capacity: usize,
    overwrite: bool,
    block_write: bool,
    block_read: bool,
    fill: T,
) -> (r: Result<(StreamReader<T>, StreamWriter<T>), SdrError>)
    ensures
        match r {
            Ok(pair) => {
                &&& !(overwrite && block_write)
                &&& capacity >= 1
                &&& pair.0.config() == (StreamConfig {
                    capacity: capacity as int,
                    overwrite,
                    block_read,
                    block_write,
                })
                &&& pair.1.config() == pair.0.config()
            },
            Err(e) => {
                &&& e == SdrError::InvalidInput
                &&& (overwrite && block_write) || capacity == 0
            },
        },
{
    if overwrite && block_write {
        return Err(SdrError::InvalidInput);
    }
    if capacity == 0 {
        return Err(SdrError::InvalidInput);
    }
    let buf = StreamBuf {
        ring: RingBuf::new(capacity, overwrite, fill),
        block_read,
        block_write,
        read_closed: false,
        write_closed: false,
    };
    let ghost config = StreamConfig {
        capacity: capacity as int,
        overwrite,
        block_read,
        block_write,
    };
    let lock = RwLock::<StreamBuf<T>, StreamConfig>::new(buf, Ghost(config));
    let shared = Arc::new(lock);
    let shared2 = clone_shared(&shared);
    Ok((StreamReader { shared }, StreamWriter { shared: shared2 }))
}

impl<T: Copy> StreamReader<T> {
    /// The configuration this endpoint's stream was created with.
    pub closed spec fn config(&self) -> StreamConfig {
        self.shared.pred()
    }

    /// Reads up to `dst.len()` items into the front of `dst` in one locked
    /// step, never waiting.  An empty `dst` is refused.  `Ok(0)` is end of
    /// stream: the writer is closed and the buffer drained — it only arises
    /// on a blocking reader.  `Err(WouldBlock)` means nothing was available:
    /// a blocking reader calls again (its writer will fill the buffer or
    /// close), a non-blocking one passes the error on, as its stream would.
    pub fn get(&self, dst: &mut [T]) -> (r: Result<usize, SdrError>)
        ensures
            final(dst)@.len() == old(dst)@.len(),
            match r {
                Ok(n) => {
                    &&& old(dst)@.len() >= 1
                    &&& n <= old(dst)@.len()
                    &&& (n == 0 ==> self.config().block_read && final(dst)@ == old(dst)@)
                    &&& (n >= 1 ==> exists|s: Seq<T>|
                        {
                            &&& s.len() == n
                            &&& final(dst)@ == s + old(dst)@.skip(n as int)
                        })
                },
                Err(e) => {
                    &&& (e == SdrError::InvalidInput <==> old(dst)@.len() == 0)
                    &&& (e == SdrError::InvalidInput || e == SdrError::WouldBlock)
                    &&& final(dst)@ == old(dst)@
                },
            },
    {
        if dst.len() == 0 {
            return Err(SdrError::InvalidInput);
        }
        let (mut buf, handle) = self.shared.acquire_write();
        let ghost pre = buf.contents();
        let step = buf.read_step(dst);
        handle.release_write(buf);
        match step {
            ReadStep::Data(n) => {
                proof {
                    assert(pre.take(n as int).len() == n);
                    assert(dst@ == pre.take(n as int) + old(dst)@.skip(n as int));
                }
                Ok(n)
            },
            ReadStep::Eof => Ok(0),
            ReadStep::Empty => Err(SdrError::WouldBlock),
        }
    }

    /// Closes the reading side.  The stream stays usable for the writer,
    /// whose writes still land in the buffer as configured.
    pub fn close(&self) {
        let (mut buf, handle) = self.shared.acquire_write();
        buf.close_read();
        handle.release_write(buf);
    }

    /// Borrows the queued items in place, holding the stream's lock until
    /// the returned view is finished: zero-copy reading for large bursts.
    /// Fails with `WouldBlock` when nothing is queued; a blocking reader
    /// calls again.
    pub fn peek<'a>(&'a self) -> (r: Result<PeekIter<'a, T>, SdrError>)
        ensures
            match r {
                Ok(view) => view.wf() && view.contents().len() >= 1 && view.pending() == 0,
                Err(e) => e == SdrError::WouldBlock,
            },
    {
        let (buf, handle) = self.shared.acquire_write();
        if buf.len() == 0 {
            handle.release_write(buf);
            return Err(SdrError::WouldBlock);
        }
        Ok(PeekIter { buf, handle, consume: 0 })
    }
}

impl<T: Copy> StreamWriter<T> {
    /// The configuration this endpoint's stream was created with.
    pub closed spec fn config(&self) -> StreamConfig {
        self.shared.pred()
    }

    /// Writes `src` in one locked step, never waiting.  An empty `src` is
    /// refused; a closed stream fails with `Closed`.  `Err(WouldBlock)`
    /// means the buffer was full in non-overwrite mode: a blocking writer
    /// calls again once the reader drains, a non-blocking one passes the
    /// error on.  `Ok(n)` accepted `n >= 1` items: all of them in overwrite
    /// mode, as many as fit otherwise.
    pub fn put(&self, src: &[T]) -> (r: Result<usize, SdrError>)
        ensures
            match r {
                Ok(n) => {
                    &&& src@.len() >= 1
                    &&& 1 <= n <= src@.len()
                    &&& (self.config().overwrite ==> n == src@.len())
                },
                Err(e) => {
                    &&& (e == SdrError::InvalidInput <==> src@.len() == 0)
                    &&& e == SdrError::InvalidInput || e == SdrError::WouldBlock || e
                        == SdrError::Closed
                    &&& (e == SdrError::WouldBlock ==> !self.config().overwrite)
                },
            },
    {
        if src.len() == 0 {
            return Err(SdrError::InvalidInput);
        }
        let (mut buf, handle) = self.shared.acquire_write();
        let step = buf.write_step(src);
        handle.release_write(buf);
        match step {
            WriteStep::Accepted(n) => Ok(n),
            WriteStep::Closed => Err(SdrError::Closed),
            WriteStep::Full => Err(SdrError::WouldBlock),
        }
    }

    /// Reports in one locked step whether the reader has drained the buffer.
    /// `Err(WouldBlock)` while items remain: a blocking writer calls again
    /// until it gets `Ok`, a non-blocking one passes the error on.
    pub fn drain(&mut self) -> (r: Result<(), SdrError>)
        ensures
            r is Ok || r == Err::<(), SdrError>(SdrError::WouldBlock),
    {
        let (buf, handle) = self.shared.acquire_write();
        let n = buf.len();
        handle.release_write(buf);
        if n > 0 {
            Err(SdrError::WouldBlock)
        } else {
            Ok(())
        }
    }

    /// Closes the writing side: later writes fail with `Closed`, and a
    /// blocking reader sees end of stream once the buffer is drained.
    pub fn close(&self) {
        let (mut buf, handle) = self.shared.acquire_write();
        buf.close_write();
        handle.release_write(buf);
    }
}

/// A borrowed view of everything queued in a stream, taken by
/// `StreamReader::peek`.  It holds the stream's lock; `finish` consumes the
/// items marked by `consume` and releases it.
pub struct PeekIter<'a, T: Copy> {
    buf: StreamBuf<T>,
    handle: WriteHandle<'a, StreamBuf<T>, StreamConfig>,
    consume: usize,
}

impl<'a, T: Copy> PeekIter<'a, T> {
    /// The view is still entitled to put the state back: the lock's
    /// invariant holds and the pending consumption stays within bounds.
    pub closed spec fn wf(&self) -> bool {
        &&& self.handle.rwlock().inv(self.buf)
        &&& self.consume <= self.buf.contents().len()
    }

    /// The items on view, oldest first.
    pub closed spec fn contents(&self) -> Seq<T> {
        self.buf.contents()
    }

    /// How many items `finish` will consume.
    pub closed spec fn pending(&self) -> int {
        self.consume as int
    }

    /// Number of items on view.
    pub fn len(&self) -> (n: usize)
        requires
            self.wf(),
        ensures
            n == self.contents().len(),
    {
        self.buf.len()
    }

    /// The items in place, as the two contiguous runs the ring's wrap
    /// splits them into; the second run is empty when the items are
    /// contiguous.
    pub fn runs(&self) -> (r: (&[T], &[T]))
        requires
            self.wf(),
        ensures
            r.0@ + r.1@ == self.contents(),
    {
        self.buf.ring_runs()
    }

    /// Sets how many items `finish` consumes, replacing any earlier setting.
    /// At most what is on view.
    pub fn consume(&mut self, consume: usize)
        requires
            old(self).wf(),
            consume <= old(self).contents().len(),
        ensures
            final(self).wf(),
            final(self).contents() == old(self).contents(),
            final(self).pending() == consume,
    {
        self.consume = consume;
    }

    /// Consumes the marked items — the oldest `pending()` ones leave the
    /// stream — and releases the lock.
    pub fn finish(self)
        requires
            self.wf(),
    {
        let PeekIter { mut buf, handle, consume } = self;
        buf.advance_ring(consume);
        handle.release_write(buf);
    }
}

impl<T: Copy> StreamBuf<T> {
    /// The ring's runs, for the peek view.
    pub fn ring_runs(&self) -> (r: (&[T], &[T]))
        requires
            self.wf(),
        ensures
            r.0@ + r.1@ == self.contents(),
    {
        self.ring.runs()
    }

    /// Drops the `n` oldest items in place, for the peek view.
    pub fn advance_ring(&mut self, n: usize)
        requires
            old(self).wf(),
            n <= old(self).contents().len(),
        ensures
            final(self).wf(),
            final(self).same_shape(old(self)),
            final(self).contents() == old(self).contents().skip(n as int),
    {
        self.ring.advance(n);
    }
}

} // verus!
