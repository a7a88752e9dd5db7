//! Pipes: a fixed 32-byte ring buffer shared by a read end and a write end.
use vstd::prelude::*;

use super::File;
use crate::security::api::{IpcError, IpcObject, IpcResult, ResourceId};

verus! {

/// Capacity of a pipe buffer in bytes.
pub const RING_BUFFER_SIZE: usize = 32;

/// Fill state of the ring; head == tail means either empty or full.
#[derive(Clone, Copy, Debug, PartialEq, Eq, Structural)]
pub enum RingBufferStatus {
    Full,
    Empty,
    Normal,
}

/// One end of a pipe. `B` is the shared handle to the ring buffer.
pub struct Pipe<B> {
    readable: bool,
    writable: bool,
    buffer: B,
    object: IpcObject,
}

impl<B> Pipe<B> {
    /// Whether this is the read end.
    pub closed spec fn is_read_end(&self) -> bool {
        self.readable
    }

    /// Whether this is the write end.
    pub closed spec fn is_write_end(&self) -> bool {
        self.writable
    }

    /// The shared buffer handle.
    pub closed spec fn shared_buffer(&self) -> B {
        self.buffer
    }

    /// The stable audit metadata of the pipe.
    pub closed spec fn object(&self) -> IpcObject {
        self.object
    }

    /// The read end of a pipe over `buffer`.
    pub fn read_end_with_buffer(buffer: B, object: IpcObject) -> (r: Self)
        ensures
            r.is_read_end(),
            !r.is_write_end(),
            r.shared_buffer() == buffer,
            r.object() == object,
    {
        Self { readable: true, writable: false, buffer, object }
    }

    /// The write end of a pipe over `buffer`.
    pub fn write_end_with_buffer(buffer: B, object: IpcObject) -> (r: Self)
        ensures
            !r.is_read_end(),
            r.is_write_end(),
            r.shared_buffer() == buffer,
            r.object() == object,
    {
        Self { readable: false, writable: true, buffer, object }
    }

    /// The shared buffer handle.
    pub fn buffer(&self) -> (r: &B)
        ensures
            *r == self.shared_buffer(),
    {
        &self.buffer
    }
}

impl<B> File for Pipe<B> {
    open spec fn spec_readable(&self) -> bool {
        self.is_read_end()
    }

    open spec fn spec_writable(&self) -> bool {
        self.is_write_end()
    }

    open spec fn spec_ipc_object(&self) -> Option<IpcObject> {
        Some(self.object())
    }

    fn readable(&self) -> (r: bool) {
        self.readable
    }

    fn writable(&self) -> (r: bool) {
        self.writable
    }

    /// Both ends share the stable audit metadata of the pipe.
    fn ipc_object(&self) -> (r: Option<IpcObject>) {
        Some(self.object)
    }
}

/// Slot of the `i`-th buffered byte when the oldest is at `head`.
pub open spec fn pipe_slot(head: int, i: int) -> int {
    if head + i < RING_BUFFER_SIZE {
        head + i
    } else {
        head + i - RING_BUFFER_SIZE
    }
}

/// The ring buffer shared by both ends of a pipe; `W` is the handle it keeps
/// to the write end, which answers whether every writer is gone (in the
/// kernel, whether a weak reference to the write end can no longer be
/// upgraded).
pub struct PipeRingBuffer<W> {
    arr: Vec<u8>,
    head: usize,
    tail: usize,
    status: RingBufferStatus,
    write_end: Option<W>,
}

impl<W: Fn() -> bool> PipeRingBuffer<W> {
    /// Number of buffered bytes.
    pub closed spec fn count(&self) -> int {
        if self.status == RingBufferStatus::Empty {
            0
        } else if self.status == RingBufferStatus::Full {
            RING_BUFFER_SIZE as int
        } else if self.tail > self.head {
            self.tail - self.head
        } else {
            self.tail + RING_BUFFER_SIZE - self.head
        }
    }

    /// Buffered bytes, oldest first.
    pub closed spec fn view(&self) -> Seq<u8> {
        Seq::new(self.count() as nat, |i: int| self.arr@[pipe_slot(self.head as int, i)])
    }

    /// Whether a write end has been attached.
    pub closed spec fn has_write_end(&self) -> bool {
        self.write_end is Some
    }

    /// Asked whether every writer is gone, the handle to the write end
    /// answered `closed`.
    pub closed spec fn writers_answer(&self, closed: bool) -> bool {
        self.write_end matches Some(handle) && call_ensures(handle, (), closed)
    }

    /// Ring invariant: head and tail meet exactly when empty or full.
    pub closed spec fn wf(&self) -> bool {
        &&& self.arr@.len() == RING_BUFFER_SIZE
        &&& self.head < RING_BUFFER_SIZE
        &&& self.tail < RING_BUFFER_SIZE
        &&& (self.status == RingBufferStatus::Normal <==> self.head != self.tail)
        &&& self.tail == pipe_slot(self.head as int, self.count()) || self.count()
            == RING_BUFFER_SIZE
        &&& self.write_end matches Some(handle) ==> call_requires(handle, ())
    }

    /// An empty buffer without a write end.
    pub fn new() -> (r: Self)
        ensures
            r.wf(),
            r.view() == Seq::<u8>::empty(),
            !r.has_write_end(),
    {
        let mut arr: Vec<u8> = Vec::new();
        let mut i: usize = 0;
        while i < RING_BUFFER_SIZE
            invariant
                i <= RING_BUFFER_SIZE,
                arr@.len() == i,
            decreases RING_BUFFER_SIZE - i,
        {
            arr.push(0);
            i = i + 1;
        }
        let r = Self { arr, head: 0, tail: 0, status: RingBufferStatus::Empty, write_end: None };
        assert(r.view() =~= Seq::<u8>::empty());
        r
    }

    /// Remember the write end, to detect when all writers are gone.
    pub fn set_write_end(&mut self, write_end: W)
        requires
            old(self).wf(),
            call_requires(write_end, ()),
        ensures
            final(self).wf(),
            final(self).view() == old(self).view(),
            final(self).has_write_end(),
    {
        self.write_end = Some(write_end);
    }

    /// Append one byte; the buffer must have room for it.
    pub fn write_byte(&mut self, byte: u8)
        requires
            old(self).wf(),
            old(self).view().len() < RING_BUFFER_SIZE,
        ensures
            final(self).wf(),
            final(self).view() == old(self).view().push(byte),
            final(self).has_write_end() == old(self).has_write_end(),
    {
        let ghost old_view = self.view();
        let ghost old_tail = self.tail;
        self.status = RingBufferStatus::Normal;
        self.arr.set(self.tail, byte);
        self.tail = (self.tail + 1) % RING_BUFFER_SIZE;
        if self.tail == self.head {
            self.status = RingBufferStatus::Full;
        }
        assert(self.count() == old_view.len() + 1);
        assert(self.view() =~= old_view.push(byte)) by {
            assert forall|i: int| 0 <= i < old_view.len() implies self.view()[i] == old_view[i] by {
                assert(pipe_slot(self.head as int, i) != old_tail);
            }
            assert(pipe_slot(self.head as int, old_view.len() as int) == old_tail);
        }
    }

    /// Remove and return the oldest byte; the buffer must not be empty.
    pub fn read_byte(&mut self) -> (r: u8)
        requires
            old(self).wf(),
            old(self).view().len() > 0,
        ensures
            final(self).wf(),
            r == old(self).view()[0],
            final(self).view() == old(self).view().drop_first(),
            final(self).has_write_end() == old(self).has_write_end(),
    {
        let ghost old_view = self.view();
        let ghost old_head = self.head;
        self.status = RingBufferStatus::Normal;
        let c = self.arr[self.head];
        self.head = (self.head + 1) % RING_BUFFER_SIZE;
        if self.head == self.tail {
            self.status = RingBufferStatus::Empty;
        }
        assert(self.count() == old_view.len() - 1);
        assert(self.view() =~= old_view.drop_first()) by {
            assert forall|i: int| 0 <= i < self.view().len() implies self.view()[i]
                == old_view.drop_first()[i] by {
                assert(pipe_slot(self.head as int, i) == pipe_slot(old_head as int, i + 1));
            }
        }
        c
    }

    /// Number of bytes that can be read now.
    pub fn available_read(&self) -> (r: usize)
        requires
            self.wf(),
        ensures
            r == self.view().len(),
    {
        if self.status == RingBufferStatus::Empty {
            0
        } else if self.tail > self.head {
            self.tail - self.head
        } else {
            self.tail + RING_BUFFER_SIZE - self.head
        }
    }

    /// Number of bytes that can be written now; together with the readable
    /// bytes it always makes up the whole capacity.
    pub fn available_write(&self) -> (r: usize)
        requires
            self.wf(),
        ensures
            r == RING_BUFFER_SIZE - self.view().len(),
    {
        if self.status == RingBufferStatus::Full {
            0
        } else {
            RING_BUFFER_SIZE - self.available_read()
        }
    }

    /// Whether every write end has been dropped, so that an empty buffer
    /// means end of file: the answer of the handle to the write end, which
    /// must have been attached.
    pub fn all_write_ends_closed(&self) -> (r: bool)
        requires
            self.wf(),
            self.has_write_end(),
        ensures
            self.writers_answer(r),
    {
        match &self.write_end {
            Some(write_end) => write_end(),
            None => true,
        }
    }

    /// Move up to `max` buffered bytes out, oldest first.
    pub fn read_bytes(&mut self, max: usize) -> (r: Vec<u8>)
        requires
            old(self).wf(),
        ensures
            final(self).wf(),
            r@.len() == vstd::math::min(max as int, old(self).view().len() as int),
            r@ == old(self).view().take(r@.len() as int),
            final(self).view() == old(self).view().skip(r@.len() as int),
            final(self).has_write_end() == old(self).has_write_end(),
    {
        let available = self.available_read();
        let n = if max < available {
            max
        } else {
            available
        };
        let mut out: Vec<u8> = Vec::new();
        let mut k: usize = 0;
        while k < n
            invariant
                self.wf(),
                n <= old(self).view().len(),
                k <= n,
                out@ == old(self).view().take(k as int),
                self.view() == old(self).view().skip(k as int),
                self.has_write_end() == old(self).has_write_end(),
            decreases n - k,
        {
            let b = self.read_byte();
            out.push(b);
            k = k + 1;
            assert(out@ =~= old(self).view().take(k as int));
            assert(self.view() =~= old(self).view().skip(k as int));
        }
        out
    }

    /// Move as many bytes of `data` in as there is room for, in order;
    /// returns how many were taken.
    pub fn write_bytes(&mut self, data: &[u8]) -> (r: usize)
        requires
            old(self).wf(),
        ensures
            final(self).wf(),
            r == vstd::math::min(data@.len() as int, RING_BUFFER_SIZE - old(self).view().len()),
            final(self).view() == old(self).view() + data@.take(r as int),
            final(self).has_write_end() == old(self).has_write_end(),
    {
        let room = self.available_write();
        let n = if data.len() < room {
            data.len()
        } else {
            room
        };
        let mut k: usize = 0;
        while k < n
            invariant
                self.wf(),
                n <= data@.len(),
                n <= RING_BUFFER_SIZE - old(self).view().len(),
                k <= n,
                self.view() == old(self).view() + data@.take(k as int),
                self.has_write_end() == old(self).has_write_end(),
            decreases n - k,
        {
            self.write_byte(data[k]);
            k = k + 1;
            assert(self.view() =~= old(self).view() + data@.take(k as int));
        }
        n
    }
}

/// What one round of a blocking pipe read does.
#[derive(Debug)]
pub enum ReadStep {
    /// Bytes taken from the buffer, oldest first.
    Data(Vec<u8>),
    /// Nothing is buffered and every writer is gone: end of file.
    Eof,
    /// Nothing is buffered yet: the reader yields and tries again.
    Wait,
}

impl<W: Fn() -> bool> PipeRingBuffer<W> {
    /// One round of a blocking read that still wants `remaining` bytes:
    /// whatever is buffered, up to `remaining`, is taken; an empty buffer
    /// means end of file once every writer is gone, and waiting before.
    pub fn read_step(&mut self, remaining: usize) -> (r: ReadStep)
        requires
            old(self).wf(),
            old(self).has_write_end(),
        ensures
            final(self).wf(),
            final(self).has_write_end(),
            old(self).view().len() > 0 ==> (r matches ReadStep::Data(bytes) && bytes@ == old(
                self,
            ).view().take(vstd::math::min(remaining as int, old(self).view().len() as int))
                && final(self).view() == old(self).view().skip(bytes@.len() as int)),
            old(self).view().len() == 0 ==> final(self).view() == old(self).view() && (
            r is Eof && old(self).writers_answer(true) || r is Wait && old(self).writers_answer(
                false,
            )),
    {
        if self.available_read() == 0 {
            if self.all_write_ends_closed() {
                ReadStep::Eof
            } else {
                ReadStep::Wait
            }
        } else {
            ReadStep::Data(self.read_bytes(remaining))
        }
    }

    /// One round of a blocking write of `data`: `None` while the buffer is
    /// full (the writer yields and tries again), otherwise the number of
    /// leading bytes of `data` that went in.
    pub fn write_step(&mut self, data: &[u8]) -> (r: Option<usize>)
        requires
            old(self).wf(),
        ensures
            final(self).wf(),
            final(self).has_write_end() == old(self).has_write_end(),
            old(self).view().len() == RING_BUFFER_SIZE ==> r is None && final(self).view() == old(
                self,
            ).view(),
            old(self).view().len() < RING_BUFFER_SIZE ==> (r matches Some(n) && n
                == vstd::math::min(data@.len() as int, RING_BUFFER_SIZE - old(self).view().len())
                && final(self).view() == old(self).view() + data@.take(n as int)),
    {
        if self.available_write() == 0 {
            None
        } else {
            Some(self.write_bytes(data))
        }
    }
}

/// Bytes leave a pipe buffer in the order they entered it: after
/// `write_bytes` put the first `written` bytes of `data` behind the `held`
/// ones, what `read_bytes` then takes is a prefix of `held` followed by
/// `data`, and nothing else.
pub proof fn lemma_pipe_fifo(
    held: Seq<u8>,
    data: Seq<u8>,
    written: int,
    after_write: Seq<u8>,
    max: int,
    taken: Seq<u8>,
)
    requires
        held.len() <= RING_BUFFER_SIZE,
        written == vstd::math::min(data.len() as int, RING_BUFFER_SIZE - held.len()),
        after_write == held + data.take(written),
        0 <= max,
        taken.len() == vstd::math::min(max, after_write.len() as int),
        taken == after_write.take(taken.len() as int),
    ensures
        taken == (held + data).take(taken.len() as int),
        taken.len() <= held.len() + data.len(),
{
    assert(taken =~= (held + data).take(taken.len() as int));
}

/// The FIFO invariant of a pipe over any interleaving of writes and reads:
/// of everything ever written (`written`), the bytes handed out so far
/// (`read`) are the oldest ones, and the buffer holds exactly the rest.
pub open spec fn fifo_holds(buffered: Seq<u8>, written: Seq<u8>, read: Seq<u8>) -> bool {
    &&& read.is_prefix_of(written)
    &&& buffered == written.skip(read.len() as int)
}

/// A write keeps the FIFO invariant: the bytes it accepted (as
/// `write_bytes`/`write_step` state them) join the end of what was written.
pub proof fn lemma_fifo_write(
    buffered: Seq<u8>,
    written: Seq<u8>,
    read: Seq<u8>,
    accepted: Seq<u8>,
)
    requires
        fifo_holds(buffered, written, read),
    ensures
        fifo_holds(buffered + accepted, written + accepted, read),
{
    assert(read =~= (written + accepted).take(read.len() as int));
    assert(buffered + accepted =~= (written + accepted).skip(read.len() as int));
}

/// A read keeps the FIFO invariant: the bytes it took (as
/// `read_bytes`/`read_step` state them, the oldest buffered ones) join the
/// end of what was read.
pub proof fn lemma_fifo_read(buffered: Seq<u8>, written: Seq<u8>, read: Seq<u8>, taken: Seq<u8>)
    requires
        fifo_holds(buffered, written, read),
        taken == buffered.take(taken.len() as int),
        taken.len() <= buffered.len(),
    ensures
        fifo_holds(buffered.skip(taken.len() as int), written, read + taken),
{
    assert(read + taken =~= written.take((read + taken).len() as int));
    assert(buffered.skip(taken.len() as int) =~= written.skip((read + taken).len() as int));
}

/// Everything the writes of a trace put into a pipe, in order. A step is
/// a write (`true`) with the bytes it accepted, or a read (`false`) with
/// the bytes it took.
pub open spec fn trace_written(steps: Seq<(bool, Seq<u8>)>) -> Seq<u8>
    decreases steps.len(),
{
    if steps.len() == 0 {
        Seq::empty()
    } else if steps.last().0 {
        trace_written(steps.drop_last()) + steps.last().1
    } else {
        trace_written(steps.drop_last())
    }
}

/// Everything the reads of a trace took out of a pipe, in order.
pub open spec fn trace_read(steps: Seq<(bool, Seq<u8>)>) -> Seq<u8>
    decreases steps.len(),
{
    if steps.len() == 0 {
        Seq::empty()
    } else if steps.last().0 {
        trace_read(steps.drop_last())
    } else {
        trace_read(steps.drop_last()) + steps.last().1
    }
}

/// One step as the buffer operations state it, from the buffered bytes
/// `before` to `after`: a write (`write_byte`, `write_bytes`, `write_step`)
/// appends the bytes it accepted; a read (`read_byte`, `read_bytes`,
/// `read_step`) takes the oldest bytes.
pub open spec fn pipe_step(before: Seq<u8>, step: (bool, Seq<u8>), after: Seq<u8>) -> bool {
    if step.0 {
        after == before + step.1
    } else {
        &&& step.1.len() <= before.len()
        &&& step.1 == before.take(step.1.len() as int)
        &&& after == before.skip(step.1.len() as int)
    }
}

/// Pipe FIFO order over any interleaving of writes and reads on a buffer
/// that started empty: the bytes read so far are the oldest bytes written,
/// in order, with none lost or duplicated, and the buffer holds exactly
/// the bytes written and not yet read. `views[k]` is the buffered bytes
/// before step `k`.
pub proof fn lemma_pipe_fifo_trace(views: Seq<Seq<u8>>, steps: Seq<(bool, Seq<u8>)>)
    requires
        views.len() == steps.len() + 1,
        views[0] == Seq::<u8>::empty(),
        forall|k: int| 0 <= k < steps.len() ==> #[trigger] pipe_step(views[k], steps[k], views[k + 1]),
    ensures
        fifo_holds(views.last(), trace_written(steps), trace_read(steps)),
        views.last().len() == trace_written(steps).len() - trace_read(steps).len(),
    decreases steps.len(),
{
    if steps.len() == 0 {
        assert(Seq::<u8>::empty().is_prefix_of(Seq::<u8>::empty()));
        assert(Seq::<u8>::empty().skip(0) =~= Seq::<u8>::empty());
    } else {
        let n = steps.len() - 1;
        let prior_views = views.drop_last();
        let prior_steps = steps.drop_last();
        assert forall|k: int| 0 <= k < prior_steps.len() implies #[trigger] pipe_step(
            prior_views[k],
            prior_steps[k],
            prior_views[k + 1],
        ) by {
            assert(pipe_step(views[k], steps[k], views[k + 1]));
        }
        lemma_pipe_fifo_trace(prior_views, prior_steps);
        assert(prior_views.last() == views[n]);
        assert(pipe_step(views[n], steps[n], views[n + 1]));
        let step = steps[n];
        if step.0 {
            lemma_fifo_write(views[n], trace_written(prior_steps), trace_read(prior_steps), step.1);
        } else {
            lemma_fifo_read(views[n], trace_written(prior_steps), trace_read(prior_steps), step.1);
        }
    }
}

/// Hand out the next stable pipe id; ids are never reused, and allocation
/// fails with `ResourceExhausted` once the counter cannot advance.
pub fn allocate_pipe_id(next: &mut ResourceId) -> (r: IpcResult<ResourceId>)
    ensures
        *old(next) == u64::MAX ==> r == Err::<ResourceId, IpcError>(IpcError::ResourceExhausted)
            && *final(next) == *old(next),
        *old(next) < u64::MAX ==> r == Ok::<ResourceId, IpcError>(*old(next)) && *final(next)
            == *old(next) + 1,
{
    let id = *next;
    match id.checked_add(1) {
        Some(n) => {
            *next = n;
            Ok(id)
        },
        None => Err(IpcError::ResourceExhausted),
    }
}

} // verus!
