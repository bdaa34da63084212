//! Pseudo-terminals: pairs of 4 KiB byte FIFOs between a master and a
//! slave end.

use vstd::prelude::*;
use crate::inode::{alloc_inode_number, FsError, InodeStat, InodeType};
use crate::ring::Ring;
use crate::tty::Termios;

verus! {

/// Number of pseudo-terminal pairs.
pub const PTY_MAX: usize = 16;
/// Size of each direction's buffer.
pub const PTY_RING_BUFFER_SIZE: usize = 4096;

/// One pseudo-terminal pair.
pub struct PtyPair {
    pub allocated: bool,
    /// Bytes written by the master, read by the slave.
    pub master_to_slave: Ring,
    /// Bytes written by the slave, read by the master.
    pub slave_to_master: Ring,
    pub termios: Termios,
    pub window_rows: u16,
    pub window_cols: u16,
}

impl PtyPair {
    /// Both buffers are well formed with the pair's buffer size.
    pub open spec fn wf(&self) -> bool {
        &&& self.master_to_slave.wf() && self.master_to_slave.capacity() == PTY_RING_BUFFER_SIZE
        &&& self.slave_to_master.wf() && self.slave_to_master.capacity() == PTY_RING_BUFFER_SIZE
    }

    /// A free pair: empty buffers, cooked termios, a 24×80 window.
    pub fn new() -> (p: Self)
        ensures
            p.wf(),
            !p.allocated,
            p.master_to_slave@ == Seq::<u8>::empty() && p.slave_to_master@ == Seq::<u8>::empty(),
            p.window_rows == 24 && p.window_cols == 80,
    {
        PtyPair {
            allocated: false,
            master_to_slave: Ring::new(PTY_RING_BUFFER_SIZE),
            slave_to_master: Ring::new(PTY_RING_BUFFER_SIZE),
            termios: Termios::cooked_defaults(),
            window_rows: 24,
            window_cols: 80,
        }
    }
}

/// The table of pseudo-terminal pairs.
pub struct PtyTable {
    pub pairs: Vec<PtyPair>,
}

/// The bytes waiting in one direction of a pair: master to slave when
/// `to_slave`, else slave to master.
pub open spec fn direction(p: PtyPair, to_slave: bool) -> Seq<u8> {
    if to_slave { p.master_to_slave@ } else { p.slave_to_master@ }
}

/// Pair `index` of `new` is that of `old` with `changed` as the bytes of
/// direction `to_slave`; everything else in the table is as it was.
pub open spec fn only_direction_changed(old: Seq<PtyPair>, new: Seq<PtyPair>, index: int, to_slave: bool, changed: Seq<u8>) -> bool {
    &&& new.len() == old.len()
    &&& direction(new[index], to_slave) == changed
    &&& direction(new[index], !to_slave) == direction(old[index], !to_slave)
    &&& new[index].allocated == old[index].allocated
    &&& new[index].window_rows == old[index].window_rows && new[index].window_cols == old[index].window_cols
    &&& forall|j: int| 0 <= j < new.len() && j != index ==> #[trigger] new[j] == old[j]
}

/// A write of `src` into direction `to_slave` of pair `index` took `n`
/// bytes: as many as fit in the 4 KiB buffer of an allocated pair, none
/// for a free pair or an index past the table.
pub open spec fn pty_pushed(old: Seq<PtyPair>, new: Seq<PtyPair>, index: int, to_slave: bool, src: Seq<u8>, n: int) -> bool {
    if 0 <= index < PTY_MAX && old[index].allocated {
        let held = direction(old[index], to_slave);
        let room = PTY_RING_BUFFER_SIZE - held.len();
        &&& n == (if src.len() < room { src.len() as int } else { room })
        &&& only_direction_changed(old, new, index, to_slave, held + src.subrange(0, n))
    } else {
        n == 0 && new == old
    }
}

/// A read from direction `from_master` of pair `index` into a buffer that
/// was `dst` gave `n` bytes, the oldest of that direction, copied to the
/// front of `new_dst`; none for a free pair or an index past the table.
pub open spec fn pty_popped(old: Seq<PtyPair>, new: Seq<PtyPair>, index: int, from_master: bool, dst: Seq<u8>, new_dst: Seq<u8>, n: int) -> bool {
    if 0 <= index < PTY_MAX && old[index].allocated {
        let held = direction(old[index], from_master);
        &&& n == (if dst.len() < held.len() { dst.len() as int } else { held.len() as int })
        &&& new_dst.subrange(0, n) == held.subrange(0, n)
        &&& only_direction_changed(old, new, index, from_master, held.subrange(n, held.len() as int))
    } else {
        n == 0 && new == old && new_dst == dst
    }
}

/// What one side of an allocated pair writes into an empty direction the
/// other side reads back, in order: up to 4096 bytes go in, and a read
/// with room for them all returns exactly those bytes and leaves the
/// direction empty; the other direction is untouched throughout.
pub proof fn lemma_pty_write_then_read(t0: Seq<PtyPair>, t1: Seq<PtyPair>, t2: Seq<PtyPair>, index: int, to_slave: bool,
    src: Seq<u8>, n1: int, dst: Seq<u8>, new_dst: Seq<u8>, n2: int)
    requires
        0 <= index < PTY_MAX,
        t0[index].allocated,
        direction(t0[index], to_slave).len() == 0,
        pty_pushed(t0, t1, index, to_slave, src, n1),
        pty_popped(t1, t2, index, to_slave, dst, new_dst, n2),
        dst.len() >= n1,
    ensures
        n1 == (if src.len() < 4096 { src.len() as int } else { 4096 }),
        n2 == n1,
        new_dst.subrange(0, n2) == src.subrange(0, n1),
        direction(t2[index], to_slave).len() == 0,
        direction(t2[index], !to_slave) == direction(t0[index], !to_slave),
{
    let held = direction(t1[index], to_slave);
    assert(held =~= Seq::<u8>::empty() + src.subrange(0, n1));
    assert(held.subrange(0, n2) =~= src.subrange(0, n1));
}

impl PtyTable {
    /// Sixteen well-formed pairs.
    pub open spec fn wf(&self) -> bool {
        self.pairs@.len() == PTY_MAX && forall|i: int| 0 <= i < PTY_MAX ==> (#[trigger] self.pairs@[i]).wf()
    }

    /// Sixteen free pairs.
    pub fn new() -> (t: Self)
        ensures
            t.wf(),
            forall|i: int| 0 <= i < PTY_MAX ==> !(#[trigger] t.pairs@[i]).allocated,
    {
        let mut pairs: Vec<PtyPair> = Vec::new();
        let mut i: usize = 0;
        while i < PTY_MAX
            invariant
                i <= PTY_MAX,
                pairs@.len() == i,
                forall|k: int| 0 <= k < i ==> (#[trigger] pairs@[k]).wf() && !pairs@[k].allocated,
            decreases PTY_MAX - i,
        {
            pairs.push(PtyPair::new());
            i = i + 1;
        }
        PtyTable { pairs }
    }

    /// Allocate the first free pair, reset to empty buffers, cooked termios
    /// and a 24×80 window; `None` when all are in use.
    pub fn pty_allocate(&mut self) -> (r: Option<usize>)
        requires
            old(self).wf(),
        ensures
            final(self).wf(),
            r is None <==> forall|i: int| 0 <= i < PTY_MAX ==> (#[trigger] old(self).pairs@[i]).allocated,
            r matches Some(i) ==> i < PTY_MAX && !old(self).pairs@[i as int].allocated
                && (forall|k: int| 0 <= k < i ==> (#[trigger] old(self).pairs@[k]).allocated)
                && final(self).pairs@[i as int].allocated
                && final(self).pairs@[i as int].master_to_slave@ == Seq::<u8>::empty()
                && final(self).pairs@[i as int].slave_to_master@ == Seq::<u8>::empty(),
    {
        let mut i: usize = 0;
        while i < PTY_MAX
            invariant
                self.wf(),
                *self == *old(self),
                i <= PTY_MAX,
                forall|k: int| 0 <= k < i ==> (#[trigger] self.pairs@[k]).allocated,
            decreases PTY_MAX - i,
        {
            if !self.pairs[i].allocated {
                let mut fresh = PtyPair::new();
                fresh.allocated = true;
                self.pairs.set(i, fresh);
                return Some(i);
            }
            i = i + 1;
        }
        None
    }

    /// Mark pair `index` free (indices past the table are ignored).
    pub fn pty_free(&mut self, index: usize)
        requires
            old(self).wf(),
        ensures
            final(self).wf(),
            index < PTY_MAX ==> !final(self).pairs@[index as int].allocated,
    {
        if index < PTY_MAX {
            let mut p = self.pairs.remove(index);
            p.allocated = false;
            self.pairs.insert(index, p);
            assert forall|i: int| 0 <= i < PTY_MAX implies (#[trigger] self.pairs@[i]).wf() by {
                if i < index {
                    assert(self.pairs@[i] == old(self).pairs@[i]);
                } else if i > index {
                    assert(self.pairs@[i] == old(self).pairs@[i]);
                }
            }
        }
    }

    /// Bytes the master can read from an allocated pair (0 otherwise).
    pub fn pty_master_readable_count(&self, index: usize) -> (n: usize)
        requires
            self.wf(),
        ensures
            n == (if index < PTY_MAX && self.pairs@[index as int].allocated { self.pairs@[index as int].slave_to_master@.len() } else { 0 }),
    {
        if index < PTY_MAX && self.pairs[index].allocated {
            self.pairs[index].slave_to_master.len()
        } else {
            0
        }
    }

    /// Window size of an allocated pair ((0, 0) otherwise).
    pub fn pty_get_window_size(&self, index: usize) -> (r: (u16, u16))
        requires
            self.wf(),
        ensures
            r == (if index < PTY_MAX && self.pairs@[index as int].allocated {
                (self.pairs@[index as int].window_rows, self.pairs@[index as int].window_cols)
            } else {
                (0u16, 0u16)
            }),
    {
        if index < PTY_MAX && self.pairs[index].allocated {
            (self.pairs[index].window_rows, self.pairs[index].window_cols)
        } else {
            (0, 0)
        }
    }

    /// Set the window size of an allocated pair.
    pub fn pty_set_window_size(&mut self, index: usize, rows: u16, cols: u16)
        requires
            old(self).wf(),
        ensures
            final(self).wf(),
            index < PTY_MAX && old(self).pairs@[index as int].allocated ==>
                final(self).pairs@[index as int].window_rows == rows && final(self).pairs@[index as int].window_cols == cols,
    {
        if index < PTY_MAX && self.pairs[index].allocated {
            let mut p = self.pairs.remove(index);
            p.window_rows = rows;
            p.window_cols = cols;
            self.pairs.insert(index, p);
            assert forall|i: int| 0 <= i < PTY_MAX implies (#[trigger] self.pairs@[i]).wf() by {
                if i < index {
                    assert(self.pairs@[i] == old(self).pairs@[i]);
                } else if i > index {
                    assert(self.pairs@[i] == old(self).pairs@[i]);
                }
            }
        }
    }

    /// Move bytes through one direction of an allocated pair: write
    /// `source` into it (`to_slave` picks the master-to-slave direction) or
    /// read into `destination` from the other.
    fn transfer_write(&mut self, index: usize, to_slave: bool, source: &[u8]) -> (n: usize)
        requires
            old(self).wf(),
        ensures
            final(self).wf(),
            pty_pushed(old(self).pairs@, final(self).pairs@, index as int, to_slave, source@, n as int),
    {
        if index < PTY_MAX && self.pairs[index].allocated {
            let mut p = self.pairs.remove(index);
            let n = if to_slave { p.master_to_slave.push_bytes(source) } else { p.slave_to_master.push_bytes(source) };
            self.pairs.insert(index, p);
            assert forall|i: int| 0 <= i < PTY_MAX implies (#[trigger] self.pairs@[i]).wf() by {
                if i < index {
                    assert(self.pairs@[i] == old(self).pairs@[i]);
                } else if i > index {
                    assert(self.pairs@[i] == old(self).pairs@[i]);
                }
            }
            n
        } else {
            0
        }
    }

    fn transfer_read(&mut self, index: usize, from_master: bool, destination: &mut [u8]) -> (n: usize)
        requires
            old(self).wf(),
        ensures
            final(self).wf(),
            n <= old(destination)@.len(),
            final(destination)@.len() == old(destination)@.len(),
            pty_popped(old(self).pairs@, final(self).pairs@, index as int, from_master, old(destination)@,
                final(destination)@, n as int),
    {
        if index < PTY_MAX && self.pairs[index].allocated {
            let mut p = self.pairs.remove(index);
            let n = if from_master { p.master_to_slave.pop_bytes(destination) } else { p.slave_to_master.pop_bytes(destination) };
            self.pairs.insert(index, p);
            assert forall|i: int| 0 <= i < PTY_MAX implies (#[trigger] self.pairs@[i]).wf() by {
                if i < index {
                    assert(self.pairs@[i] == old(self).pairs@[i]);
                } else if i > index {
                    assert(self.pairs@[i] == old(self).pairs@[i]);
                }
            }
            n
        } else {
            0
        }
    }
}

/// The master end of a pseudo-terminal.
pub struct PtyMasterInode {
    pub inode_number: u64,
    pub pty_index: usize,
}

/// The slave end of a pseudo-terminal.
pub struct PtySlaveInode {
    pub inode_number: u64,
    pub pty_index: usize,
}

/// The master inode of pair `index`, numbered from `counter`.
pub fn pty_master_inode(index: usize, counter: &mut u64) -> (m: PtyMasterInode)
    ensures
        m.pty_index == index && m.inode_number == *old(counter),
{
    PtyMasterInode { inode_number: alloc_inode_number(counter), pty_index: index }
}

/// The slave inode of pair `index`, numbered from `counter`.
pub fn pty_slave_inode(index: usize, counter: &mut u64) -> (s: PtySlaveInode)
    ensures
        s.pty_index == index && s.inode_number == *old(counter),
{
    PtySlaveInode { inode_number: alloc_inode_number(counter), pty_index: index }
}

impl PtyMasterInode {
    /// Always `CharDevice`.
    pub fn inode_type(&self) -> (t: InodeType)
        ensures
            t == InodeType::CharDevice,
    {
        InodeType::CharDevice
    }

    /// Character device stat.
    pub fn stat(&self) -> (s: InodeStat)
        ensures
            s == (InodeStat { inode_number: self.inode_number, size: 0, mode: 0o020666, nlinks: 1, uid: 0, gid: 0 }),
    {
        InodeStat::char_device(self.inode_number)
    }

    /// Read what the slave wrote (0 bytes for a free pair).
    pub fn read_at(&self, table: &mut PtyTable, _offset: u64, destination: &mut [u8]) -> (r: Result<usize, FsError>)
        requires
            old(table).wf(),
        ensures
            final(table).wf(),
            r matches Ok(n) && n <= old(destination)@.len() && pty_popped(old(table).pairs@, final(table).pairs@,
                self.pty_index as int, false, old(destination)@, final(destination)@, n as int),
    {
        Ok(table.transfer_read(self.pty_index, false, destination))
    }

    /// Write for the slave to read (0 bytes for a free pair).
    pub fn write_at(&self, table: &mut PtyTable, _offset: u64, source: &[u8]) -> (r: Result<usize, FsError>)
        requires
            old(table).wf(),
        ensures
            final(table).wf(),
            r matches Ok(n) && pty_pushed(old(table).pairs@, final(table).pairs@, self.pty_index as int, true, source@, n as int),
    {
        Ok(table.transfer_write(self.pty_index, true, source))
    }

    /// Nothing to truncate.
    pub fn truncate(&self, _new_size: u64) -> (r: Result<(), FsError>)
        ensures
            r is Ok,
    {
        Ok(())
    }
}

impl PtySlaveInode {
    /// Always `CharDevice`.
    pub fn inode_type(&self) -> (t: InodeType)
        ensures
            t == InodeType::CharDevice,
    {
        InodeType::CharDevice
    }

    /// Character device stat.
    pub fn stat(&self) -> (s: InodeStat)
        ensures
            s == (InodeStat { inode_number: self.inode_number, size: 0, mode: 0o020666, nlinks: 1, uid: 0, gid: 0 }),
    {
        InodeStat::char_device(self.inode_number)
    }

    /// Read what the master wrote (0 bytes for a free pair).
    pub fn read_at(&self, table: &mut PtyTable, _offset: u64, destination: &mut [u8]) -> (r: Result<usize, FsError>)
        requires
            old(table).wf(),
        ensures
            final(table).wf(),
            r matches Ok(n) && n <= old(destination)@.len() && pty_popped(old(table).pairs@, final(table).pairs@,
                self.pty_index as int, true, old(destination)@, final(destination)@, n as int),
    {
        Ok(table.transfer_read(self.pty_index, true, destination))
    }

    /// Write for the master to read (0 bytes for a free pair).
    pub fn write_at(&self, table: &mut PtyTable, _offset: u64, source: &[u8]) -> (r: Result<usize, FsError>)
        requires
            old(table).wf(),
        ensures
            final(table).wf(),
            r matches Ok(n) && pty_pushed(old(table).pairs@, final(table).pairs@, self.pty_index as int, false, source@, n as int),
    {
        Ok(table.transfer_write(self.pty_index, false, source))
    }

    /// Nothing to truncate.
    pub fn truncate(&self, _new_size: u64) -> (r: Result<(), FsError>)
        ensures
            r is Ok,
    {
        Ok(())
    }
}

} // verus!
