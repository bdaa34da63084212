//! Named pipes (FIFOs): a 4 KiB byte FIFO with reader and writer counts.

use vstd::prelude::*;
use crate::inode::{alloc_inode_number, DirEntry, FsError, InodeStat, InodeType};
use crate::pipe::Pid;
use crate::ring::Ring;

verus! {

/// Capacity of a FIFO.
pub const FIFO_BUFFER_CAPACITY: usize = 4096;

/// A FIFO inode: its buffer, open reader and writer counts, and the
/// processes blocked on it.
pub struct FifoInode {
    inode_number: u64,
    ring: Ring,
    writer_count: usize,
    reader_count: usize,
    blocked_reader_pid: Option<Pid>,
    blocked_writer_pid: Option<Pid>,
}

impl View for FifoInode {
    type V = Seq<u8>;

    /// The bytes in the FIFO, oldest first.
    closed spec fn view(&self) -> Seq<u8> {
        self.ring@
    }
}

/// Outcome of one attempt to read from a FIFO.
#[derive(Clone, Copy, PartialEq, Eq, Structural, Debug)]
pub enum FifoReadStep {
    /// `n` bytes were read; `wake` is the blocked writer to wake.
    Read { n: usize, wake: Option<Pid> },
    /// Empty with no writer left: end of file.
    Eof,
    /// Empty: the reader must block and retry.
    Block,
}

/// Outcome of one attempt to write to a FIFO.
#[derive(Clone, Copy, PartialEq, Eq, Structural, Debug)]
pub enum FifoWriteStep {
    /// `n` bytes were written; `wake` is the blocked reader to wake.
    Wrote { n: usize, wake: Option<Pid> },
    /// No reader is left.
    BrokenPipe,
    /// Full: the writer must block and retry.
    Block,
}

impl FifoInode {
    /// The ring is well formed with the FIFO's capacity.
    pub closed spec fn wf(&self) -> bool {
        self.ring.wf() && self.ring.capacity() == FIFO_BUFFER_CAPACITY
    }

    /// Open readers.
    pub closed spec fn readers(&self) -> usize {
        self.reader_count
    }

    /// Open writers.
    pub closed spec fn writers(&self) -> usize {
        self.writer_count
    }

    /// The process blocked reading, if any.
    pub closed spec fn spec_blocked_reader(&self) -> Option<Pid> {
        self.blocked_reader_pid
    }

    /// The process blocked writing, if any.
    pub closed spec fn spec_blocked_writer(&self) -> Option<Pid> {
        self.blocked_writer_pid
    }

    /// The inode number.
    pub closed spec fn spec_inode_number(&self) -> u64 {
        self.inode_number
    }

    /// An empty FIFO with one reader and one writer, numbered from
    /// `counter`.
    pub fn new(counter: &mut u64) -> (f: Self)
        ensures
            f.wf(),
            f@ == Seq::<u8>::empty(),
            f.readers() == 1 && f.writers() == 1,
            f.spec_inode_number() == *old(counter),
    {
        FifoInode {
            inode_number: alloc_inode_number(counter),
            ring: Ring::new(FIFO_BUFFER_CAPACITY),
            writer_count: 1,
            reader_count: 1,
            blocked_reader_pid: None,
            blocked_writer_pid: None,
        }
    }

    /// One more reader.
    pub fn increment_reader_count(&mut self)
        requires
            old(self).readers() < usize::MAX,
        ensures
            final(self).readers() == old(self).readers() + 1,
            final(self).writers() == old(self).writers(),
            final(self)@ == old(self)@,
            final(self).wf() == old(self).wf(),
    {
        self.reader_count = self.reader_count + 1;
    }

    /// One more writer.
    pub fn increment_writer_count(&mut self)
        requires
            old(self).writers() < usize::MAX,
        ensures
            final(self).writers() == old(self).writers() + 1,
            final(self).readers() == old(self).readers(),
            final(self)@ == old(self)@,
            final(self).wf() == old(self).wf(),
    {
        self.writer_count = self.writer_count + 1;
    }

    /// One reader fewer (not below zero); when none is left, the blocked
    /// writer is taken and returned to be woken.
    pub fn decrement_reader_count(&mut self) -> (wake: Option<Pid>)
        ensures
            final(self).readers() == (if old(self).readers() > 0 { old(self).readers() - 1 } else { 0 }),
            final(self).writers() == old(self).writers(),
            final(self)@ == old(self)@,
            final(self).wf() == old(self).wf(),
            final(self).readers() != 0 ==> wake is None,
    {
        if self.reader_count > 0 {
            self.reader_count = self.reader_count - 1;
        }
        if self.reader_count == 0 {
            let w = self.blocked_writer_pid;
            self.blocked_writer_pid = None;
            w
        } else {
            None
        }
    }

    /// One writer fewer (not below zero); when none is left, the blocked
    /// reader is taken and returned to be woken.
    pub fn decrement_writer_count(&mut self) -> (wake: Option<Pid>)
        ensures
            final(self).writers() == (if old(self).writers() > 0 { old(self).writers() - 1 } else { 0 }),
            final(self).readers() == old(self).readers(),
            final(self)@ == old(self)@,
            final(self).wf() == old(self).wf(),
            final(self).writers() != 0 ==> wake is None,
    {
        if self.writer_count > 0 {
            self.writer_count = self.writer_count - 1;
        }
        if self.writer_count == 0 {
            let r = self.blocked_reader_pid;
            self.blocked_reader_pid = None;
            r
        } else {
            None
        }
    }

    /// Always `Fifo`.
    pub fn inode_type(&self) -> (t: InodeType)
        ensures
            t == InodeType::Fifo,
    {
        InodeType::Fifo
    }

    /// Stat: mode 0o010666, size the number of buffered bytes.
    pub fn stat(&self) -> (s: InodeStat)
        requires
            self.wf(),
        ensures
            s == (InodeStat { inode_number: self.spec_inode_number(), size: self@.len() as u64, mode: 0o010666, nlinks: 1, uid: 0, gid: 0 }),
    {
        InodeStat { inode_number: self.inode_number, size: self.ring.len() as u64, mode: 0o010666, nlinks: 1, uid: 0, gid: 0 }
    }

    /// One attempt of a blocking read: read what is there (taking the
    /// blocked writer to wake), end of file when empty with no writers, or
    /// block.
    pub fn read_step(&mut self, destination: &mut [u8]) -> (r: FifoReadStep)
        requires
            old(self).wf(),
        ensures
            final(self).wf(),
            old(self)@.len() > 0 ==> (r matches FifoReadStep::Read { n, wake }
                && n == (if old(destination)@.len() < old(self)@.len() { old(destination)@.len() } else { old(self)@.len() })
                && final(self)@ == old(self)@.subrange(n as int, old(self)@.len() as int)
                && final(destination)@.subrange(0, n as int) == old(self)@.subrange(0, n as int)),
            old(self)@.len() == 0 ==> final(self)@ == old(self)@
                && r == (if old(self).writers() == 0 { FifoReadStep::Eof } else { FifoReadStep::Block }),
            final(destination)@.len() == old(destination)@.len(),
            final(self).readers() == old(self).readers() && final(self).writers() == old(self).writers(),
    {
        if self.ring.len() > 0 {
            let n = self.ring.pop_bytes(destination);
            let wake = self.blocked_writer_pid;
            self.blocked_writer_pid = None;
            return FifoReadStep::Read { n, wake };
        }
        if self.writer_count == 0 {
            return FifoReadStep::Eof;
        }
        FifoReadStep::Block
    }

    /// One attempt of a blocking write: broken pipe when no reader is left,
    /// write what fits (taking the blocked reader to wake), or block when
    /// full.
    pub fn write_step(&mut self, source: &[u8]) -> (r: FifoWriteStep)
        requires
            old(self).wf(),
        ensures
            final(self).wf(),
            old(self).readers() == 0 ==> r == FifoWriteStep::BrokenPipe && final(self)@ == old(self)@,
            r matches FifoWriteStep::Wrote { n, wake } ==> n > 0
                && final(self)@ == old(self)@ + source@.subrange(0, n as int)
                && n == (if source@.len() < FIFO_BUFFER_CAPACITY - old(self)@.len() { source@.len() as int } else { FIFO_BUFFER_CAPACITY - old(self)@.len() }),
            r == FifoWriteStep::Block ==> final(self)@ == old(self)@,
            old(self).readers() != 0 ==> ({
                let room = FIFO_BUFFER_CAPACITY - old(self)@.len();
                if source@.len() > 0 && room > 0 {
                    r matches FifoWriteStep::Wrote { n, wake } && wake == old(self).spec_blocked_reader()
                } else {
                    r == FifoWriteStep::Block
                }
            }),
            final(self).readers() == old(self).readers() && final(self).writers() == old(self).writers(),
    {
        if self.reader_count == 0 {
            return FifoWriteStep::BrokenPipe;
        }
        let written = self.ring.push_bytes(source);
        if written > 0 {
            let wake = self.blocked_reader_pid;
            self.blocked_reader_pid = None;
            FifoWriteStep::Wrote { n: written, wake }
        } else {
            FifoWriteStep::Block
        }
    }

    /// Record the process blocked reading.
    pub fn set_blocked_reader(&mut self, pid: Option<Pid>)
        ensures
            final(self)@ == old(self)@,
            final(self).wf() == old(self).wf(),
            final(self).readers() == old(self).readers() && final(self).writers() == old(self).writers(),
    {
        self.blocked_reader_pid = pid;
    }

    /// Record the process blocked writing.
    pub fn set_blocked_writer(&mut self, pid: Option<Pid>)
        ensures
            final(self)@ == old(self)@,
            final(self).wf() == old(self).wf(),
            final(self).readers() == old(self).readers() && final(self).writers() == old(self).writers(),
    {
        self.blocked_writer_pid = pid;
    }

    /// FIFOs cannot be truncated.
    pub fn truncate(&self, _new_size: u64) -> (r: Result<(), FsError>)
        ensures
            r == Err::<(), FsError>(FsError::NotSupported),
    {
        Err(FsError::NotSupported)
    }

    /// FIFOs have no children.
    pub fn readdir(&self, _index: usize) -> (r: Option<DirEntry>)
        ensures
            r is None,
    {
        None
    }

    /// FIFOs have no children.
    pub fn create(&self, _name: &str) -> (r: Result<(), FsError>)
        ensures
            r == Err::<(), FsError>(FsError::NotDirectory),
    {
        Err(FsError::NotDirectory)
    }

    /// FIFOs have no children.
    pub fn mkdir(&self, _name: &str) -> (r: Result<(), FsError>)
        ensures
            r == Err::<(), FsError>(FsError::NotDirectory),
    {
        Err(FsError::NotDirectory)
    }

    /// FIFOs have no children.
    pub fn unlink(&self, _name: &str) -> (r: Result<(), FsError>)
        ensures
            r == Err::<(), FsError>(FsError::NotDirectory),
    {
        Err(FsError::NotDirectory)
    }
}

} // verus!
