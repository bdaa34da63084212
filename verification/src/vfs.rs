//! File descriptors and the per-process descriptor table.

use vstd::prelude::*;
use crate::pipe::{PipeEnd, PipeHandle};
use crate::procfs::ProcSnapshot;

verus! {

/// Most descriptors a process can have open (one bit each in the 16-word
/// close-on-exec and non-blocking masks).
pub const MAX_OPEN_FILE_DESCRIPTORS: usize = 1024;

/// An open file.
pub enum FileDescriptor {
    /// A boot-time RAM file.
    RamFsFile { data: &'static [u8], position: usize },
    /// One end of a pipe (the pipe is identified by `pipe`).
    Pipe { pipe: u64, handle: PipeHandle },
    /// The terminal.
    Tty,
    /// A /proc file snapshot.
    ProcFile(ProcSnapshot),
    /// A file of a mounted filesystem, by inode number.
    InoFile { inode: u64, position: u64 },
}

/// The kind of a descriptor, with its plain fields.
pub enum FdKind {
    RamFs { data: Seq<u8>, position: usize },
    Pipe { pipe: u64, end: PipeEnd },
    Tty,
    Proc { data: Seq<u8>, position: usize },
    Ino { inode: u64, position: u64 },
}

/// Seek origins.
pub const SEEK_SET: i32 = 0;
pub const SEEK_CUR: i32 = 1;
pub const SEEK_END: i32 = 2;

impl FileDescriptor {
    /// What the descriptor is, by value.
    pub open spec fn kind(&self) -> FdKind {
        match self {
            FileDescriptor::RamFsFile { data, position } => FdKind::RamFs { data: data@, position: *position },
            FileDescriptor::Pipe { pipe, handle } => FdKind::Pipe { pipe: *pipe, end: handle.spec_end() },
            FileDescriptor::Tty => FdKind::Tty,
            FileDescriptor::ProcFile(s) => FdKind::Proc { data: s.data@, position: s.position },
            FileDescriptor::InoFile { inode, position } => FdKind::Ino { inode: *inode, position: *position },
        }
    }

    /// A second descriptor for the same open file, at the same position.
    /// For a pipe end the caller also counts the new end on the pipe.
    pub fn dup(&self) -> (r: Option<FileDescriptor>)
        ensures
            r matches Some(d) && d.kind() == self.kind(),
    {
        match self {
            FileDescriptor::RamFsFile { data, position } => Some(FileDescriptor::RamFsFile { data, position: *position }),
            FileDescriptor::Pipe { pipe, handle } => {
                let h = match handle.end() {
                    PipeEnd::ReadEnd => PipeHandle::new_end(PipeEnd::ReadEnd),
                    PipeEnd::WriteEnd => PipeHandle::new_end(PipeEnd::WriteEnd),
                };
                Some(FileDescriptor::Pipe { pipe: *pipe, handle: h })
            },
            FileDescriptor::Tty => Some(FileDescriptor::Tty),
            FileDescriptor::ProcFile(snapshot) => {
                let data = copy_bytes(snapshot.data.as_slice());
                Some(FileDescriptor::ProcFile(ProcSnapshot { data, position: snapshot.position }))
            },
            FileDescriptor::InoFile { inode, position } => Some(FileDescriptor::InoFile { inode: *inode, position: *position }),
        }
    }

    /// Move the position: to `offset` (SEEK_SET), by `offset` (SEEK_CUR) or
    /// to `offset` past the end (SEEK_END); `file_size` is the inode's size
    /// for an inode file.  Returns the new position, -22 (EINVAL) for a bad
    /// origin or a position outside the file (RAM files) or below zero, and
    /// -1 for descriptors that cannot seek (terminals, pipes, proc files),
    /// which are left as they were.
    pub fn seek(&mut self, offset: i64, whence: i32, file_size: u64) -> (r: i64)
        requires
            *old(self) matches FileDescriptor::RamFsFile { data, position } ==> data@.len() <= i64::MAX
                && position <= i64::MAX
                && (whence == SEEK_CUR ==> i64::MIN <= position + offset <= i64::MAX)
                && (whence == SEEK_END ==> i64::MIN <= data@.len() + offset <= i64::MAX),
            *old(self) matches FileDescriptor::InoFile { inode, position } ==> file_size <= i64::MAX
                && (whence == SEEK_CUR ==> i64::MIN <= (position as i64) + offset <= i64::MAX)
                && (whence == SEEK_END ==> i64::MIN <= file_size + offset <= i64::MAX),
        ensures
            match *old(self) {
                FileDescriptor::RamFsFile { data, position } => {
                    let target: int = if whence == SEEK_SET { offset as int } else if whence == SEEK_CUR { position + offset } else { data@.len() + offset };
                    if whence != SEEK_SET && whence != SEEK_CUR && whence != SEEK_END {
                        r == -22 && *final(self) == *old(self)
                    } else if target < 0 || target > data@.len() {
                        r == -22 && *final(self) == *old(self)
                    } else {
                        r == target && *final(self) == (FileDescriptor::RamFsFile { data, position: target as usize })
                    }
                },
                FileDescriptor::InoFile { inode, position } => {
                    let target: int = if whence == SEEK_SET { offset as int } else if whence == SEEK_CUR { (position as i64) + offset } else { file_size + offset };
                    if whence != SEEK_SET && whence != SEEK_CUR && whence != SEEK_END {
                        r == -22 && *final(self) == *old(self)
                    } else if target < 0 {
                        r == -22 && *final(self) == *old(self)
                    } else {
                        r == target && *final(self) == (FileDescriptor::InoFile { inode, position: target as u64 })
                    }
                },
                _ => r == -1 && *final(self) == *old(self),
            },
    {
        match self {
            FileDescriptor::RamFsFile { data, position } => {
                let file_length = data.len() as i64;
                let new_position: i64 = if whence == SEEK_SET {
                    offset
                } else if whence == SEEK_CUR {
                    *position as i64 + offset
                } else if whence == SEEK_END {
                    file_length + offset
                } else {
                    return -22;
                };
                if new_position < 0 || new_position > file_length {
                    return -22;
                }
                *position = new_position as usize;
                new_position
            },
            FileDescriptor::InoFile { inode, position } => {
                let size = file_size as i64;
                let new_pos: i64 = if whence == SEEK_SET {
                    offset
                } else if whence == SEEK_CUR {
                    *position as i64 + offset
                } else if whence == SEEK_END {
                    size + offset
                } else {
                    return -22;
                };
                if new_pos < 0 {
                    return -22;
                }
                *position = new_pos as u64;
                new_pos
            },
            _ => -1,
        }
    }
}

/// A copy of a byte slice.
fn copy_bytes(src: &[u8]) -> (v: Vec<u8>)
    ensures
        v@ == src@,
{
    let mut v: Vec<u8> = Vec::new();
    crate::bytes::push_slice(&mut v, src);
    v
}

/// The word and bit of descriptor `fd` in a 16-word mask.
pub open spec fn mask_bit(mask: Seq<u64>, fd: int) -> bool {
    mask[fd / 64] & (1u64 << ((fd % 64) as u64)) != 0
}

/// Per-process file descriptor table.
pub struct FileDescriptorTable {
    slots: Vec<Option<FileDescriptor>>,
    /// Close-on-exec flags, one bit per descriptor.
    pub cloexec_mask: [u64; 16],
    /// Non-blocking flags, one bit per descriptor.
    pub nonblock_mask: [u64; 16],
}

/// What a slot holds, by value.
pub open spec fn slot_kind(s: Option<FileDescriptor>) -> Option<FdKind> {
    match s {
        Some(d) => Some(d.kind()),
        None => None,
    }
}

/// `after` is `before` with `k` installed in the lowest free slot (a new
/// slot at the end when none is free), `fd` being that slot; or, when no
/// slot is free and the table is at its limit, `fd` is -1 and nothing
/// changed.
pub open spec fn installed(before: Seq<Option<FdKind>>, after: Seq<Option<FdKind>>, k: FdKind, fd: i32) -> bool {
    &&& fd >= -1
    &&& fd == -1 <==> (forall|i: int| 0 <= i < before.len() ==> before[i] is Some) && before.len() >= MAX_OPEN_FILE_DESCRIPTORS
    &&& fd == -1 ==> after == before
    &&& fd >= 0 ==> {
        &&& forall|i: int| 0 <= i < fd ==> #[trigger] before[i] is Some
        &&& (fd < before.len() ==> before[fd as int] is None && after == before.update(fd as int, Some(k)))
        &&& (fd == before.len() ==> after == before.push(Some(k)))
        &&& fd <= before.len()
    }
}

/// An install that succeeds takes the lowest free descriptor: never one
/// above a free slot, and the descriptor then holds what was installed;
/// with a free slot in the table it always succeeds and the table keeps
/// its length.
pub proof fn lemma_install_takes_lowest_free(before: Seq<Option<FdKind>>, after: Seq<Option<FdKind>>, k: FdKind, fd: i32, j: int)
    requires
        installed(before, after, k, fd),
        0 <= j < before.len(),
        before[j] is None,
    ensures
        0 <= fd <= j,
        after.len() == before.len(),
        after[fd as int] == Some(k),
        forall|i: int| 0 <= i < before.len() && i != fd ==> after[i] == before[i],
{
    if fd >= 0 && fd > j {
        assert(before[j] is Some);
    }
}

impl FileDescriptorTable {
    /// The close-on-exec mask.
    pub closed spec fn spec_cloexec(&self) -> Seq<u64> {
        self.cloexec_mask@
    }

    /// The non-blocking mask.
    pub closed spec fn spec_nonblock(&self) -> Seq<u64> {
        self.nonblock_mask@
    }

    /// The slots, by value.
    pub closed spec fn spec_slots(&self) -> Seq<Option<FdKind>> {
        self.slots@.map_values(|s: Option<FileDescriptor>| slot_kind(s))
    }

    /// At most `MAX_OPEN_FILE_DESCRIPTORS` slots.
    pub closed spec fn wf(&self) -> bool {
        self.slots@.len() <= MAX_OPEN_FILE_DESCRIPTORS
    }

    /// Descriptors 0, 1 and 2 on the terminal; masks clear.
    pub fn new_with_tty() -> (t: Self)
        ensures
            t.wf(),
            t.spec_slots() == seq![Some(FdKind::Tty), Some(FdKind::Tty), Some(FdKind::Tty)],
            t.spec_cloexec() == Seq::new(16, |i: int| 0u64),
            t.spec_nonblock() == Seq::new(16, |i: int| 0u64),
    {
        let mut slots: Vec<Option<FileDescriptor>> = Vec::new();
        slots.push(Some(FileDescriptor::Tty));
        slots.push(Some(FileDescriptor::Tty));
        slots.push(Some(FileDescriptor::Tty));
        let t = FileDescriptorTable { slots, cloexec_mask: [0u64; 16], nonblock_mask: [0u64; 16] };
        assert(t.spec_slots() =~= seq![Some(FdKind::Tty), Some(FdKind::Tty), Some(FdKind::Tty)]);
        assert(t.cloexec_mask@ =~= Seq::new(16, |i: int| 0u64));
        assert(t.nonblock_mask@ =~= Seq::new(16, |i: int| 0u64));
        t
    }

    /// A table with no descriptors.
    pub fn empty() -> (t: Self)
        ensures
            t.wf(),
            t.spec_slots() == Seq::<Option<FdKind>>::empty(),
            t.spec_cloexec() == Seq::new(16, |i: int| 0u64),
            t.spec_nonblock() == Seq::new(16, |i: int| 0u64),
    {
        let t = FileDescriptorTable { slots: Vec::new(), cloexec_mask: [0u64; 16], nonblock_mask: [0u64; 16] };
        assert(t.spec_slots() =~= Seq::<Option<FdKind>>::empty());
        assert(t.cloexec_mask@ =~= Seq::new(16, |i: int| 0u64));
        assert(t.nonblock_mask@ =~= Seq::new(16, |i: int| 0u64));
        t
    }

    /// The table a forked child gets: each open descriptor duplicated, the
    /// same masks.
    pub fn clone_for_fork(&self) -> (t: Self)
        ensures
            t.spec_slots() == self.spec_slots(),
            t.spec_cloexec() == self.spec_cloexec(),
            t.spec_nonblock() == self.spec_nonblock(),
            t.wf() == self.wf(),
    {
        let n = self.slots.len();
        let mut new_slots: Vec<Option<FileDescriptor>> = Vec::new();
        let mut i: usize = 0;
        while i < n
            invariant
                n == self.slots@.len(),
                i <= n,
                new_slots@.len() == i,
                forall|k: int| 0 <= k < i ==> #[trigger] slot_kind(new_slots@[k]) == slot_kind(self.slots@[k]),
            decreases n - i,
        {
            let d = match &self.slots[i] {
                Some(fd) => fd.dup(),
                None => None,
            };
            new_slots.push(d);
            i = i + 1;
        }
        let t = FileDescriptorTable { slots: new_slots, cloexec_mask: self.cloexec_mask, nonblock_mask: self.nonblock_mask };
        assert(t.spec_slots() =~= self.spec_slots());
        t
    }

    /// Install `descriptor` in the lowest free slot (growing the table when
    /// none is free); returns the descriptor number, or -1 when the table is
    /// full.
    pub fn install(&mut self, descriptor: FileDescriptor) -> (fd: i32)
        requires
            old(self).wf(),
        ensures
            final(self).wf(),
            final(self).spec_cloexec() == old(self).spec_cloexec(),
            final(self).spec_nonblock() == old(self).spec_nonblock(),
            installed(old(self).spec_slots(), final(self).spec_slots(), descriptor.kind(), fd),
    {
        let n = self.slots.len();
        let mut index: usize = 0;
        while index < n
            invariant
                n == self.slots@.len(),
                n <= MAX_OPEN_FILE_DESCRIPTORS,
                self.slots@ == old(self).slots@,
                *self == *old(self),
                index <= n,
                forall|k: int| 0 <= k < index ==> #[trigger] self.slots@[k] is Some,
            decreases n - index,
        {
            if self.slots[index].is_none() {
                self.slots.set(index, Some(descriptor));
                proof {
                    assert(self.spec_slots() =~= old(self).spec_slots().update(index as int, Some(descriptor.kind())));
                }
                return index as i32;
            }
            index = index + 1;
        }
        if self.slots.len() >= MAX_OPEN_FILE_DESCRIPTORS {
            return -1;
        }
        let fd = self.slots.len() as i32;
        self.slots.push(Some(descriptor));
        proof {
            assert(self.spec_slots() =~= old(self).spec_slots().push(Some(descriptor.kind())));
        }
        fd
    }

    /// Install `descriptor` at slot `fd` (replacing what is there, growing
    /// the table with empty slots as needed); returns `fd`, or -1 when `fd`
    /// is beyond the limit.
    pub fn install_at(&mut self, fd: usize, descriptor: FileDescriptor) -> (r: i32)
        requires
            old(self).wf(),
        ensures
            final(self).wf(),
            final(self).spec_cloexec() == old(self).spec_cloexec(),
            final(self).spec_nonblock() == old(self).spec_nonblock(),
            fd >= MAX_OPEN_FILE_DESCRIPTORS ==> r == -1 && final(self).spec_slots() == old(self).spec_slots(),
            fd < MAX_OPEN_FILE_DESCRIPTORS ==> r == fd
                && final(self).spec_slots().len() == (if fd < old(self).spec_slots().len() { old(self).spec_slots().len() as int } else { fd + 1 })
                && final(self).spec_slots()[fd as int] == Some(descriptor.kind())
                && (forall|i: int| 0 <= i < final(self).spec_slots().len() && i != fd ==>
                    #[trigger] final(self).spec_slots()[i] == (if i < old(self).spec_slots().len() { old(self).spec_slots()[i] } else { None })),
    {
        if fd >= MAX_OPEN_FILE_DESCRIPTORS {
            return -1;
        }
        while self.slots.len() <= fd
            invariant
                fd < MAX_OPEN_FILE_DESCRIPTORS,
                old(self).slots@.len() <= self.slots@.len() <= fd + 1 || self.slots@.len() == old(self).slots@.len(),
                self.slots@.len() >= old(self).slots@.len(),
                self.slots@.len() <= MAX_OPEN_FILE_DESCRIPTORS,
                self.cloexec_mask == old(self).cloexec_mask,
                self.nonblock_mask == old(self).nonblock_mask,
                forall|i: int| 0 <= i < self.slots@.len() ==>
                    #[trigger] slot_kind(self.slots@[i]) == (if i < old(self).slots@.len() { slot_kind(old(self).slots@[i]) } else { None }),
            decreases fd + 1 - self.slots@.len(),
        {
            self.slots.push(None);
        }
        self.slots.set(fd, Some(descriptor));
        fd as i32
    }

    /// The descriptor at `fd`, if open.
    pub fn get(&self, fd: usize) -> (r: Option<&FileDescriptor>)
        ensures
            (fd < self.spec_slots().len() && self.spec_slots()[fd as int] is Some) <==> r is Some,
            r matches Some(d) ==> Some(d.kind()) == self.spec_slots()[fd as int],
    {
        if fd >= self.slots.len() {
            return None;
        }
        match &self.slots[fd] {
            Some(d) => Some(d),
            None => None,
        }
    }

    /// The descriptor at `fd`, if open, for changing it.
    pub fn get_mut(&mut self, fd: usize) -> (r: Option<&mut FileDescriptor>)
        ensures
            (fd < old(self).spec_slots().len() && old(self).spec_slots()[fd as int] is Some) <==> r is Some,
    {
        if fd >= self.slots.len() {
            return None;
        }
        let slot = &mut self.slots[fd];
        slot.as_mut()
    }

    /// Take the descriptor out of `fd` (which is then closed), so that the
    /// caller can release what it holds (a pipe end's count on its pipe);
    /// `None` when `fd` was not open.
    pub fn take(&mut self, fd: usize) -> (r: Option<FileDescriptor>)
        requires
            old(self).wf(),
        ensures
            final(self).wf(),
            (fd < old(self).spec_slots().len() && old(self).spec_slots()[fd as int] is Some) == r is Some,
            r matches Some(d) ==> Some(d.kind()) == old(self).spec_slots()[fd as int]
                && final(self).spec_slots() == old(self).spec_slots().update(fd as int, None),
            r is None ==> final(self).spec_slots() == old(self).spec_slots(),
            final(self).spec_cloexec() == old(self).spec_cloexec(),
            final(self).spec_nonblock() == old(self).spec_nonblock(),
    {
        if fd >= self.slots.len() {
            return None;
        }
        let mut slot: Option<FileDescriptor> = None;
        self.slots.set_and_swap(fd, &mut slot);
        proof {
            assert(old(self).slots@[fd as int] == slot);
            assert(self.spec_slots() =~= old(self).spec_slots().update(fd as int, None));
        }
        if slot.is_none() {
            assert(self.spec_slots() =~= old(self).spec_slots());
        }
        slot
    }

    /// Close `fd`; `false` when it was not open.  A pipe end's count on its
    /// pipe is the caller's to release (see `take`).
    pub fn close(&mut self, fd: usize) -> (ok: bool)
        requires
            old(self).wf(),
        ensures
            final(self).wf(),
            ok == (fd < old(self).spec_slots().len() && old(self).spec_slots()[fd as int] is Some),
            ok ==> final(self).spec_slots() == old(self).spec_slots().update(fd as int, None),
            !ok ==> final(self).spec_slots() == old(self).spec_slots(),
            final(self).spec_cloexec() == old(self).spec_cloexec(),
            final(self).spec_nonblock() == old(self).spec_nonblock(),
    {
        if fd >= self.slots.len() {
            return false;
        }
        if self.slots[fd].is_none() {
            return false;
        }
        self.slots.set(fd, None);
        assert(self.spec_slots() =~= old(self).spec_slots().update(fd as int, None));
        true
    }

    /// Set the bit of `fd` in a mask.
    pub fn mask_set(mask: &mut [u64; 16], fd: usize)
        requires
            fd < MAX_OPEN_FILE_DESCRIPTORS,
        ensures
            mask_bit(final(mask)@, fd as int),
            forall|j: int| 0 <= j < MAX_OPEN_FILE_DESCRIPTORS && j != fd ==> mask_bit(final(mask)@, j) == mask_bit(old(mask)@, j),
    {
        let word = fd / 64;
        let k = (fd % 64) as u64;
        let bit = 1u64 << k;
        mask[word] = mask[word] | bit;
        proof {
            lemma_mask_bits(old(mask)@[word as int], k, true);
            assert forall|j: int| 0 <= j < MAX_OPEN_FILE_DESCRIPTORS && j != fd implies mask_bit(final(mask)@, j) == mask_bit(old(mask)@, j) by {
                if j / 64 == fd / 64 {
                    lemma_mask_other_bit(old(mask)@[word as int], k, (j % 64) as u64, true);
                }
            }
        }
    }

    /// Clear the bit of `fd` in a mask.
    pub fn mask_clear(mask: &mut [u64; 16], fd: usize)
        requires
            fd < MAX_OPEN_FILE_DESCRIPTORS,
        ensures
            !mask_bit(final(mask)@, fd as int),
            forall|j: int| 0 <= j < MAX_OPEN_FILE_DESCRIPTORS && j != fd ==> mask_bit(final(mask)@, j) == mask_bit(old(mask)@, j),
    {
        let word = fd / 64;
        let k = (fd % 64) as u64;
        let bit = 1u64 << k;
        mask[word] = mask[word] & !bit;
        proof {
            lemma_mask_bits(old(mask)@[word as int], k, false);
            assert forall|j: int| 0 <= j < MAX_OPEN_FILE_DESCRIPTORS && j != fd implies mask_bit(final(mask)@, j) == mask_bit(old(mask)@, j) by {
                if j / 64 == fd / 64 {
                    lemma_mask_other_bit(old(mask)@[word as int], k, (j % 64) as u64, false);
                }
            }
        }
    }

    /// Whether the bit of `fd` is set in a mask.
    pub fn mask_test(mask: &[u64; 16], fd: usize) -> (b: bool)
        requires
            fd < MAX_OPEN_FILE_DESCRIPTORS,
        ensures
            b == mask_bit(mask@, fd as int),
    {
        let word = fd / 64;
        let k = (fd % 64) as u64;
        let bit = 1u64 << k;
        mask[word] & bit != 0
    }

    /// Close every descriptor (the table keeps its size).
    pub fn close_all(&mut self)
        requires
            old(self).wf(),
        ensures
            final(self).wf(),
            final(self).spec_slots() == Seq::new(old(self).spec_slots().len(), |i: int| None::<FdKind>),
            final(self).spec_cloexec() == old(self).spec_cloexec(),
            final(self).spec_nonblock() == old(self).spec_nonblock(),
    {
        let n = self.slots.len();
        let mut i: usize = 0;
        while i < n
            invariant
                n == self.slots@.len(),
                n == old(self).slots@.len(),
                i <= n,
                self.cloexec_mask == old(self).cloexec_mask,
                self.nonblock_mask == old(self).nonblock_mask,
                forall|k: int| 0 <= k < i ==> #[trigger] self.slots@[k] is None,
            decreases n - i,
        {
            self.slots.set(i, None);
            i = i + 1;
        }
        assert(self.spec_slots() =~= Seq::new(old(self).spec_slots().len(), |i: int| None::<FdKind>));
    }

    /// Make `destination_fd` a duplicate of `source_fd` (closing what was
    /// there), clear its close-on-exec bit and give it the non-blocking bit
    /// of `source_fd`; returns `destination_fd`, or
    /// -9 (EBADF) when `source_fd` is not open, or -1 when
    /// `destination_fd` is beyond the limit.
    pub fn dup2(&mut self, source_fd: usize, destination_fd: usize) -> (r: i32)
        requires
            old(self).wf(),
        ensures
            final(self).wf(),
            !(source_fd < old(self).spec_slots().len() && old(self).spec_slots()[source_fd as int] is Some)
                ==> r == -9 && final(self).spec_slots() == old(self).spec_slots(),
            (source_fd < old(self).spec_slots().len() && old(self).spec_slots()[source_fd as int] is Some) ==> {
                if source_fd == destination_fd {
                    r == destination_fd && final(self).spec_slots() == old(self).spec_slots()
                } else if destination_fd >= MAX_OPEN_FILE_DESCRIPTORS {
                    r == -1 && final(self).spec_slots() == old(self).spec_slots()
                } else {
                    &&& r == destination_fd
                    &&& final(self).spec_slots().len() == (if destination_fd < old(self).spec_slots().len() {
                        old(self).spec_slots().len() as int
                    } else {
                        destination_fd + 1
                    })
                    &&& final(self).spec_slots()[destination_fd as int] == old(self).spec_slots()[source_fd as int]
                    &&& forall|i: int| 0 <= i < final(self).spec_slots().len() && i != destination_fd ==>
                        #[trigger] final(self).spec_slots()[i] == (if i < old(self).spec_slots().len() { old(self).spec_slots()[i] } else { None })
                    &&& !mask_bit(final(self).spec_cloexec(), destination_fd as int)
                    &&& mask_bit(final(self).spec_nonblock(), destination_fd as int) == mask_bit(old(self).spec_nonblock(), source_fd as int)
                    &&& forall|j: int| 0 <= j < MAX_OPEN_FILE_DESCRIPTORS && j != destination_fd ==>
                        mask_bit(final(self).spec_cloexec(), j) == mask_bit(old(self).spec_cloexec(), j)
                            && mask_bit(final(self).spec_nonblock(), j) == mask_bit(old(self).spec_nonblock(), j)
                }
            },
            !((source_fd < old(self).spec_slots().len() && old(self).spec_slots()[source_fd as int] is Some)
                && source_fd != destination_fd && destination_fd < MAX_OPEN_FILE_DESCRIPTORS) ==>
                final(self).spec_cloexec() == old(self).spec_cloexec() && final(self).spec_nonblock() == old(self).spec_nonblock(),
    {
        if source_fd >= self.slots.len() || self.slots[source_fd].is_none() {
            return -9;
        }
        if source_fd == destination_fd {
            return destination_fd as i32;
        }
        let new_descriptor = match &self.slots[source_fd] {
            Some(descriptor) => descriptor.dup(),
            None => return -9,
        };
        let new_descriptor = match new_descriptor {
            Some(d) => d,
            None => return -9,
        };
        let result = self.install_at(destination_fd, new_descriptor);
        if result >= 0 {
            Self::mask_clear(&mut self.cloexec_mask, destination_fd);
            if Self::mask_test(&self.nonblock_mask, source_fd) {
                Self::mask_set(&mut self.nonblock_mask, destination_fd);
            } else {
                Self::mask_clear(&mut self.nonblock_mask, destination_fd);
            }
        }
        result
    }

    /// Duplicate `source_fd` into the lowest free slot; -9 (EBADF) when it
    /// is not open, -1 when the table is full.
    pub fn dup(&mut self, source_fd: usize) -> (r: i32)
        requires
            old(self).wf(),
        ensures
            final(self).wf(),
            !(source_fd < old(self).spec_slots().len() && old(self).spec_slots()[source_fd as int] is Some)
                ==> r == -9 && final(self).spec_slots() == old(self).spec_slots(),
            (source_fd < old(self).spec_slots().len() && old(self).spec_slots()[source_fd as int] is Some)
                ==> installed(old(self).spec_slots(), final(self).spec_slots(), old(self).spec_slots()[source_fd as int].unwrap(), r),
            final(self).spec_cloexec() == old(self).spec_cloexec(),
            final(self).spec_nonblock() == old(self).spec_nonblock(),
    {
        if source_fd >= self.slots.len() {
            return -9;
        }
        let new_descriptor = match &self.slots[source_fd] {
            Some(descriptor) => match descriptor.dup() {
                Some(d) => d,
                None => return -9,
            },
            None => return -9,
        };
        self.install(new_descriptor)
    }
}

proof fn lemma_mask_bits(w: u64, k: u64, set: bool)
    requires
        k < 64,
    ensures
        set ==> (w | (1u64 << k)) & (1u64 << k) != 0,
        !set ==> (w & !(1u64 << k)) & (1u64 << k) == 0,
{
    assert((w | (1u64 << k)) & (1u64 << k) != 0) by (bit_vector) requires k < 64u64;
    assert((w & !(1u64 << k)) & (1u64 << k) == 0) by (bit_vector) requires k < 64u64;
}

proof fn lemma_mask_other_bit(w: u64, k: u64, j: u64, set: bool)
    requires
        k < 64,
        j < 64,
        j != k,
    ensures
        set ==> (((w | (1u64 << k)) & (1u64 << j)) != 0) == ((w & (1u64 << j)) != 0),
        !set ==> (((w & !(1u64 << k)) & (1u64 << j)) != 0) == ((w & (1u64 << j)) != 0),
{
    assert((((w | (1u64 << k)) & (1u64 << j)) != 0) == ((w & (1u64 << j)) != 0)) by (bit_vector)
        requires k < 64u64, j < 64u64, j != k;
    assert((((w & !(1u64 << k)) & (1u64 << j)) != 0) == ((w & (1u64 << j)) != 0)) by (bit_vector)
        requires k < 64u64, j < 64u64, j != k;
}

} // verus!
