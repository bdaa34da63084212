//! Anonymous pipes: a 64 KiB byte FIFO with read and write ends.
//!
//! Blocking is the scheduler's part: the step functions here say whether a
//! read or write made progress, reached end of file or a broken pipe, or must
//! block, and which blocked process to wake.

use vstd::prelude::*;
use crate::ring::Ring;

verus! {

/// Capacity of a pipe buffer.
pub const PIPE_BUFFER_CAPACITY: usize = 65536;

/// A process identifier.
pub type Pid = u64;

/// The shared buffer of a pipe, with the number of open ends of each kind
/// and the processes blocked on it.
pub struct PipeBuffer {
    ring: Ring,
    write_end_count: usize,
    read_end_count: usize,
    blocked_reader: Option<Pid>,
    blocked_writer: Option<Pid>,
}

impl View for PipeBuffer {
    type V = Seq<u8>;

    /// The bytes in the pipe, oldest first.
    closed spec fn view(&self) -> Seq<u8> {
        self.ring@
    }
}

impl PipeBuffer {
    /// The ring is well formed with the pipe's capacity.
    pub closed spec fn wf(&self) -> bool {
        self.ring.wf() && self.ring.capacity() == PIPE_BUFFER_CAPACITY
    }

    /// Number of open write ends.
    pub closed spec fn writers(&self) -> usize {
        self.write_end_count
    }

    /// Number of open read ends.
    pub closed spec fn readers(&self) -> usize {
        self.read_end_count
    }

    /// The blocked reader, if any.
    pub closed spec fn spec_blocked_reader(&self) -> Option<Pid> {
        self.blocked_reader
    }

    /// The blocked writer, if any.
    pub closed spec fn spec_blocked_writer(&self) -> Option<Pid> {
        self.blocked_writer
    }

    /// An empty pipe with one read end and one write end.
    pub fn new() -> (p: Self)
        ensures
            p.wf(),
            p@ == Seq::<u8>::empty(),
            p.writers() == 1 && p.readers() == 1,
            p.spec_blocked_reader() is None && p.spec_blocked_writer() is None,
    {
        PipeBuffer { ring: Ring::new(PIPE_BUFFER_CAPACITY), write_end_count: 1, read_end_count: 1, blocked_reader: None, blocked_writer: None }
    }

    /// Bytes waiting to be read.
    pub fn available_to_read(&self) -> (n: usize)
        requires
            self.wf(),
        ensures
            n == self@.len(),
    {
        self.ring.len()
    }

    /// Free space.
    pub fn available_to_write(&self) -> (n: usize)
        requires
            self.wf(),
        ensures
            n == PIPE_BUFFER_CAPACITY - self@.len(),
    {
        self.ring.free()
    }

    /// No write end is open.
    pub fn is_write_closed(&self) -> (b: bool)
        ensures
            b == (self.writers() == 0),
    {
        self.write_end_count == 0
    }

    /// No read end is open.
    pub fn is_read_closed(&self) -> (b: bool)
        ensures
            b == (self.readers() == 0),
    {
        self.read_end_count == 0
    }

    /// Append as many bytes of `source_buffer` as fit; returns how many.
    pub fn write_bytes(&mut self, source_buffer: &[u8]) -> (n: usize)
        requires
            old(self).wf(),
        ensures
            final(self).wf(),
            n == (if source_buffer@.len() < PIPE_BUFFER_CAPACITY - old(self)@.len() { source_buffer@.len() as int } else { PIPE_BUFFER_CAPACITY - old(self)@.len() }),
            final(self)@ == old(self)@ + source_buffer@.subrange(0, n as int),
            final(self).same_ends(old(self)),
    {
        self.ring.push_bytes(source_buffer)
    }

    /// Move up to `destination_buffer.len()` bytes from the front of the
    /// pipe into it; returns how many.
    pub fn read_bytes(&mut self, destination_buffer: &mut [u8]) -> (n: usize)
        requires
            old(self).wf(),
        ensures
            final(self).wf(),
            n == (if old(destination_buffer)@.len() < old(self)@.len() { old(destination_buffer)@.len() } else { old(self)@.len() }),
            final(destination_buffer)@.len() == old(destination_buffer)@.len(),
            final(destination_buffer)@.subrange(0, n as int) == old(self)@.subrange(0, n as int),
            final(destination_buffer)@.subrange(n as int, old(destination_buffer)@.len() as int)
                == old(destination_buffer)@.subrange(n as int, old(destination_buffer)@.len() as int),
            final(self)@ == old(self)@.subrange(n as int, old(self)@.len() as int),
            final(self).same_ends(old(self)),
    {
        self.ring.pop_bytes(destination_buffer)
    }

    /// End counts and blocked processes are as in `other`.
    pub closed spec fn same_ends(&self, other: &Self) -> bool {
        &&& self.write_end_count == other.write_end_count
        &&& self.read_end_count == other.read_end_count
        &&& self.blocked_reader == other.blocked_reader
        &&& self.blocked_writer == other.blocked_writer
    }

    /// Record the blocked reader.
    pub fn set_blocked_reader(&mut self, pid: Option<Pid>)
        ensures
            final(self).spec_blocked_reader() == pid,
            final(self)@ == old(self)@,
            final(self).wf() == old(self).wf(),
            final(self).writers() == old(self).writers() && final(self).readers() == old(self).readers(),
            final(self).spec_blocked_writer() == old(self).spec_blocked_writer(),
    {
        self.blocked_reader = pid;
    }

    /// The blocked reader, if any.
    pub fn blocked_reader(&self) -> (p: Option<Pid>)
        ensures
            p == self.spec_blocked_reader(),
    {
        self.blocked_reader
    }

    /// Forget the blocked reader and return it, so that the caller wakes it.
    pub fn wake_blocked_reader(&mut self) -> (p: Option<Pid>)
        ensures
            p == old(self).spec_blocked_reader(),
            final(self).spec_blocked_reader() is None,
            final(self)@ == old(self)@,
            final(self).wf() == old(self).wf(),
            final(self).writers() == old(self).writers() && final(self).readers() == old(self).readers(),
            final(self).spec_blocked_writer() == old(self).spec_blocked_writer(),
    {
        let p = self.blocked_reader;
        self.blocked_reader = None;
        p
    }

    /// Record the blocked writer.
    pub fn set_blocked_writer(&mut self, pid: Option<Pid>)
        ensures
            final(self).spec_blocked_writer() == pid,
            final(self)@ == old(self)@,
            final(self).wf() == old(self).wf(),
            final(self).writers() == old(self).writers() && final(self).readers() == old(self).readers(),
            final(self).spec_blocked_reader() == old(self).spec_blocked_reader(),
    {
        self.blocked_writer = pid;
    }

    /// The blocked writer, if any.
    pub fn blocked_writer(&self) -> (p: Option<Pid>)
        ensures
            p == self.spec_blocked_writer(),
    {
        self.blocked_writer
    }
}

/// Which end of a pipe a handle is.
#[derive(Clone, Copy, PartialEq, Eq, Structural, Debug)]
pub enum PipeEnd {
    ReadEnd,
    WriteEnd,
}

/// One end of a pipe.
pub struct PipeHandle {
    end: PipeEnd,
}

impl PipeHandle {
    /// Which end this handle is.
    pub closed spec fn spec_end(&self) -> PipeEnd {
        self.end
    }

    /// A handle for the given end.
    pub fn new_end(end: PipeEnd) -> (h: PipeHandle)
        ensures
            h.spec_end() == end,
    {
        PipeHandle { end }
    }

    /// Which end this handle is.
    pub fn end(&self) -> (e: PipeEnd)
        ensures
            e == self.spec_end(),
    {
        self.end
    }

    /// Another read end of the same pipe (the read end count grows by one,
    /// wrapping).
    pub fn clone_read_end(read_handle: &PipeHandle, buf: &mut PipeBuffer) -> (h: PipeHandle)
        requires
            read_handle.spec_end() == PipeEnd::ReadEnd,
        ensures
            h.spec_end() == PipeEnd::ReadEnd,
            final(buf).readers() == old(buf).readers().wrapping_add(1),
            final(buf).writers() == old(buf).writers(),
            final(buf)@ == old(buf)@,
            final(buf).wf() == old(buf).wf(),
    {
        buf.read_end_count = buf.read_end_count.wrapping_add(1);
        PipeHandle { end: PipeEnd::ReadEnd }
    }

    /// Another write end of the same pipe (the write end count grows by
    /// one, wrapping).
    pub fn clone_write_end(write_handle: &PipeHandle, buf: &mut PipeBuffer) -> (h: PipeHandle)
        requires
            write_handle.spec_end() == PipeEnd::WriteEnd,
        ensures
            h.spec_end() == PipeEnd::WriteEnd,
            final(buf).writers() == old(buf).writers().wrapping_add(1),
            final(buf).readers() == old(buf).readers(),
            final(buf)@ == old(buf)@,
            final(buf).wf() == old(buf).wf(),
    {
        buf.write_end_count = buf.write_end_count.wrapping_add(1);
        PipeHandle { end: PipeEnd::WriteEnd }
    }

    /// Close this end: its count drops by one (wrapping); when the last end
    /// of its kind closes, the process blocked at the other end is returned
    /// to be woken.  The second result tells whether no end at all is left,
    /// so the buffer can be freed.
    pub fn close(self, buf: &mut PipeBuffer) -> (r: (Option<Pid>, bool))
        ensures
            final(buf)@ == old(buf)@,
            final(buf).wf() == old(buf).wf(),
            self.spec_end() == PipeEnd::ReadEnd ==> final(buf).readers() == old(buf).readers().wrapping_sub(1)
                && final(buf).writers() == old(buf).writers()
                && r.0 == (if old(buf).readers() == 1 { old(buf).spec_blocked_writer() } else { None }),
            self.spec_end() == PipeEnd::WriteEnd ==> final(buf).writers() == old(buf).writers().wrapping_sub(1)
                && final(buf).readers() == old(buf).readers()
                && r.0 == (if old(buf).writers() == 1 { old(buf).spec_blocked_reader() } else { None }),
            r.1 == (final(buf).writers() == 0 && final(buf).readers() == 0),
    {
        let wake = match self.end {
            PipeEnd::ReadEnd => {
                let previous = buf.read_end_count;
                buf.read_end_count = previous.wrapping_sub(1);
                if previous == 1 { buf.blocked_writer } else { None }
            },
            PipeEnd::WriteEnd => {
                let previous = buf.write_end_count;
                buf.write_end_count = previous.wrapping_sub(1);
                if previous == 1 { buf.blocked_reader } else { None }
            },
        };
        (wake, buf.write_end_count == 0 && buf.read_end_count == 0)
    }
}

/// A new pipe: its buffer, its read end and its write end.
pub fn pipe_create() -> (r: (PipeBuffer, PipeHandle, PipeHandle))
    ensures
        r.0.wf(),
        r.0@ == Seq::<u8>::empty(),
        r.0.readers() == 1 && r.0.writers() == 1,
        r.1.spec_end() == PipeEnd::ReadEnd,
        r.2.spec_end() == PipeEnd::WriteEnd,
{
    (PipeBuffer::new(), PipeHandle { end: PipeEnd::ReadEnd }, PipeHandle { end: PipeEnd::WriteEnd })
}

/// Outcome of one attempt to read from a pipe.
#[derive(Clone, Copy, PartialEq, Eq, Structural, Debug)]
pub enum PipeReadStep {
    /// `n` bytes were read; `wake` is the blocked writer to wake.
    Read { n: usize, wake: Option<Pid> },
    /// The pipe is empty and has no writer left: end of file.
    Eof,
    /// The pipe is empty: the reader must block and retry.
    Block,
}

/// One attempt of a blocking read: read what is there (waking a blocked
/// writer), report end of file when the pipe is empty with no writers, or
/// ask to block.
pub fn pipe_read_step(buf: &mut PipeBuffer, destination: &mut [u8]) -> (r: PipeReadStep)
    requires
        old(buf).wf(),
    ensures
        final(buf).wf(),
        old(buf)@.len() > 0 ==> r == (PipeReadStep::Read {
            n: (if old(destination)@.len() < old(buf)@.len() { old(destination)@.len() } else { old(buf)@.len() }) as usize,
            wake: old(buf).spec_blocked_writer(),
        }) && final(buf)@ == old(buf)@.subrange(r->n as int, old(buf)@.len() as int)
            && final(destination)@.subrange(0, r->n as int) == old(buf)@.subrange(0, r->n as int)
            && final(buf).spec_blocked_writer() is None,
        old(buf)@.len() == 0 ==> final(buf)@ == old(buf)@ && final(destination)@ == old(destination)@
            && r == (if old(buf).writers() == 0 { PipeReadStep::Eof } else { PipeReadStep::Block }),
        final(destination)@.len() == old(destination)@.len(),
        final(buf).writers() == old(buf).writers() && final(buf).readers() == old(buf).readers(),
{
    if buf.available_to_read() > 0 {
        let n = buf.read_bytes(destination);
        let wake = buf.blocked_writer;
        buf.blocked_writer = None;
        return PipeReadStep::Read { n, wake };
    }
    if buf.is_write_closed() {
        return PipeReadStep::Eof;
    }
    PipeReadStep::Block
}

/// Outcome of a blocking write.
#[derive(Clone, Copy, PartialEq, Eq, Structural, Debug)]
pub enum PipeWriteResult {
    /// Everything was written.
    Written(usize),
    /// The read side closed after this many bytes.
    BrokenPipe(usize),
}

/// Outcome of one attempt to write to a pipe.
#[derive(Clone, Copy, PartialEq, Eq, Structural, Debug)]
pub enum PipeWriteStep {
    /// `n` bytes were written; `wake` is the blocked reader to wake.
    Wrote { n: usize, wake: Option<Pid> },
    /// No read end is open.
    BrokenPipe,
    /// The pipe is full: the writer must block and retry.
    Block,
}

/// One attempt of a blocking write of a non-empty `source`: fail when no
/// reader is left, write what fits (waking a blocked reader), or ask to
/// block when the pipe is full.
pub fn pipe_write_step(buf: &mut PipeBuffer, source: &[u8]) -> (r: PipeWriteStep)
    requires
        old(buf).wf(),
    ensures
        final(buf).wf(),
        old(buf).readers() == 0 ==> r == PipeWriteStep::BrokenPipe && final(buf)@ == old(buf)@,
        old(buf).readers() != 0 && (source@.len() == 0 || old(buf)@.len() == PIPE_BUFFER_CAPACITY)
            ==> r == PipeWriteStep::Block && final(buf)@ == old(buf)@,
        r matches PipeWriteStep::Wrote { n, wake } ==> n > 0 && wake == old(buf).spec_blocked_reader()
            && final(buf)@ == old(buf)@ + source@.subrange(0, n as int)
            && n == (if source@.len() < PIPE_BUFFER_CAPACITY - old(buf)@.len() { source@.len() as int } else { PIPE_BUFFER_CAPACITY - old(buf)@.len() }),
        final(buf).writers() == old(buf).writers() && final(buf).readers() == old(buf).readers(),
{
    if buf.is_read_closed() {
        return PipeWriteStep::BrokenPipe;
    }
    let written = buf.write_bytes(source);
    if written > 0 {
        let wake = buf.blocked_reader;
        buf.blocked_reader = None;
        PipeWriteStep::Wrote { n: written, wake }
    } else {
        PipeWriteStep::Block
    }
}

} // verus!
