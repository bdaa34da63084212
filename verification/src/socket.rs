//! Unix domain sockets: socket state and receive buffers.

use vstd::prelude::*;
use crate::inode::{alloc_inode_number, DirEntry, FsError, InodeStat, InodeType};
use crate::pipe::Pid;
use crate::ring::Ring;
use crate::bytes::str_from_utf8;
use vstd::string::StringSliceAdditionalSpecFns;

verus! {

/// Number of sockets the kernel can have.
pub const SOCKET_TABLE_SIZE: usize = 64;
/// Longest accept queue.
pub const SOCKET_BACKLOG_MAX: usize = 8;
/// Receive buffer size.
pub const SOCKET_BUFFER_SIZE: usize = 65536;

/// Socket type.
#[derive(Clone, Copy, PartialEq, Eq, Structural, Debug)]
pub enum SocketType {
    Stream,
    Datagram,
}

/// Socket life cycle state.
#[derive(Clone, Copy, PartialEq, Eq, Structural, Debug)]
pub enum SocketState {
    Unbound,
    Bound,
    Listening,
    Connected,
    Closed,
}

/// A byte FIFO receive buffer.
pub struct SocketBuffer {
    ring: Ring,
}

impl View for SocketBuffer {
    type V = Seq<u8>;

    /// The buffered bytes, oldest first.
    closed spec fn view(&self) -> Seq<u8> {
        self.ring@
    }
}

impl SocketBuffer {
    /// The ring is well formed.
    pub closed spec fn wf(&self) -> bool {
        self.ring.wf()
    }

    /// The buffer's capacity.
    pub closed spec fn spec_capacity(&self) -> nat {
        self.ring.capacity()
    }

    /// An empty buffer of `capacity` bytes.
    pub fn new(capacity: usize) -> (b: Self)
        requires
            0 < capacity <= usize::MAX / 2,
        ensures
            b.wf(),
            b@ == Seq::<u8>::empty(),
            b.spec_capacity() == capacity,
    {
        SocketBuffer { ring: Ring::new(capacity) }
    }

    /// Bytes waiting.
    pub fn available_bytes(&self) -> (n: usize)
        requires
            self.wf(),
        ensures
            n == self@.len(),
    {
        self.ring.len()
    }

    /// Free space.
    pub fn free_bytes(&self) -> (n: usize)
        requires
            self.wf(),
        ensures
            n == self.spec_capacity() - self@.len(),
    {
        self.ring.free()
    }

    /// Append as much of `source` as fits; returns how much.
    pub fn write(&mut self, source: &[u8]) -> (n: usize)
        requires
            old(self).wf(),
        ensures
            final(self).wf(),
            final(self).spec_capacity() == old(self).spec_capacity(),
            n == (if source@.len() < old(self).spec_capacity() - old(self)@.len() { source@.len() as int } else { old(self).spec_capacity() - old(self)@.len() }),
            final(self)@ == old(self)@ + source@.subrange(0, n as int),
    {
        self.ring.push_bytes(source)
    }

    /// Take up to `destination.len()` bytes from the front; returns how many.
    pub fn read(&mut self, destination: &mut [u8]) -> (n: usize)
        requires
            old(self).wf(),
        ensures
            final(self).wf(),
            final(self).spec_capacity() == old(self).spec_capacity(),
            n == (if old(destination)@.len() < old(self)@.len() { old(destination)@.len() } else { old(self)@.len() }),
            final(destination)@.len() == old(destination)@.len(),
            final(destination)@.subrange(0, n as int) == old(self)@.subrange(0, n as int),
            final(self)@ == old(self)@.subrange(n as int, old(self)@.len() as int),
    {
        self.ring.pop_bytes(destination)
    }
}

/// A Unix domain socket.
pub struct UnixSocket {
    pub inode_number: u64,
    pub socket_type: SocketType,
    pub state: SocketState,
    /// The path it is bound to.
    pub bound_path: Option<Vec<u8>>,
    /// Table index of the connected peer.
    pub peer_index: Option<usize>,
    pub receive_buffer: SocketBuffer,
    /// Table indices of pending connections.
    pub accept_queue: Vec<usize>,
    pub receive_waiters: Vec<Pid>,
    pub accept_waiters: Vec<Pid>,
    pub shutdown_read: bool,
    pub shutdown_write: bool,
}

impl UnixSocket {
    /// A fresh unbound socket with an empty 64 KiB receive buffer,
    /// numbered from `counter`.
    pub fn new(socket_type: SocketType, counter: &mut u64) -> (s: Self)
        ensures
            s.socket_type == socket_type,
            s.state == SocketState::Unbound,
            s.bound_path is None && s.peer_index is None,
            s.receive_buffer.wf() && s.receive_buffer@ == Seq::<u8>::empty(),
            s.receive_buffer.spec_capacity() == SOCKET_BUFFER_SIZE,
            s.accept_queue@.len() == 0 && s.receive_waiters@.len() == 0 && s.accept_waiters@.len() == 0,
            !s.shutdown_read && !s.shutdown_write,
            s.inode_number == *old(counter),
            s@ == fresh_socket(socket_type, *old(counter)),
            *final(counter) == (*old(counter) + 1) % 0x1_0000_0000_0000_0000,
    {
        let s = UnixSocket {
            inode_number: alloc_inode_number(counter),
            socket_type,
            state: SocketState::Unbound,
            bound_path: None,
            peer_index: None,
            receive_buffer: SocketBuffer::new(SOCKET_BUFFER_SIZE),
            accept_queue: Vec::new(),
            receive_waiters: Vec::new(),
            accept_waiters: Vec::new(),
            shutdown_read: false,
            shutdown_write: false,
        };
        assert(s.accept_queue@ =~= Seq::<usize>::empty());
        assert(s.receive_waiters@ =~= Seq::<Pid>::empty());
        assert(s.accept_waiters@ =~= Seq::<Pid>::empty());
        s
    }
}

/// The first free slot of a socket table.
pub fn find_free_slot(entries: &[Option<UnixSocket>]) -> (r: Option<usize>)
    ensures
        r is None <==> forall|i: int| 0 <= i < entries@.len() ==> entries@[i] is Some,
        r matches Some(i) ==> i < entries@.len() && entries@[i as int] is None
            && forall|k: int| 0 <= k < i ==> entries@[k] is Some,
{
    let n = entries.len();
    let mut i: usize = 0;
    while i < n
        invariant
            n == entries@.len(),
            i <= n,
            forall|k: int| 0 <= k < i ==> entries@[k] is Some,
        decreases n - i,
    {
        if entries[i].is_none() {
            return Some(i);
        }
        i = i + 1;
    }
    None
}

/// The inode of a socket; its link count carries the socket tag (2 in the
/// high half) and the table index (low half).
pub struct SocketInode {
    pub inode_number: u64,
    pub table_index: usize,
}

impl SocketInode {
    /// The inode of socket `table_index`, numbered from `counter`.
    pub fn new(table_index: usize, counter: &mut u64) -> (s: Self)
        ensures
            s.table_index == table_index,
            s.spec_inode_number() == *old(counter),
    {
        SocketInode { inode_number: alloc_inode_number(counter), table_index }
    }

    /// The inode number.
    pub open spec fn spec_inode_number(&self) -> u64 {
        self.inode_number
    }

    /// Always `CharDevice`.
    pub fn inode_type(&self) -> (t: InodeType)
        ensures
            t == InodeType::CharDevice,
    {
        InodeType::CharDevice
    }

    /// Stat: mode 0o020666, link count tagged with the table index.
    pub fn stat(&self) -> (s: InodeStat)
        requires
            self.table_index <= u32::MAX,
        ensures
            s.inode_number == self.spec_inode_number(),
            s.mode == 0o020666 && s.size == 0,
            s.nlinks == ((2u64 << 32u64) | self.table_index as u64),
            s.nlinks >> 32u64 == 2,
            s.nlinks & 0xFFFF_FFFF == self.table_index,
    {
        let t = self.table_index as u64;
        let nlinks = (2u64 << 32u64) | t;
        assert(nlinks >> 32u64 == 2 && nlinks & 0xFFFF_FFFF == t) by (bit_vector)
            requires nlinks == (2u64 << 32u64) | t, t <= 0xFFFF_FFFFu64;
        InodeStat { inode_number: self.inode_number, size: 0, mode: 0o020666, nlinks, uid: 0, gid: 0 }
    }

    /// Sockets cannot be truncated.
    pub fn truncate(&self, _new_size: u64) -> (r: Result<(), FsError>)
        ensures
            r == Err::<(), FsError>(FsError::NotSupported),
    {
        Err(FsError::NotSupported)
    }

    /// Sockets have no children.
    pub fn readdir(&self, _index: usize) -> (r: Option<DirEntry>)
        ensures
            r is None,
    {
        None
    }

    /// Sockets have no children.
    pub fn unlink(&self, _name: &str) -> (r: Result<(), FsError>)
        ensures
            r == Err::<(), FsError>(FsError::NotDirectory),
    {
        Err(FsError::NotDirectory)
    }
}

/// The socket table index a descriptor's stat denotes: its link count must
/// carry the socket tag and an index inside the table.
pub fn socket_index_from_stat(stat: &InodeStat) -> (r: Option<usize>)
    ensures
        r is Some <==> (stat.nlinks >> 32u64 == 2 && (stat.nlinks & 0xFFFF_FFFF) < SOCKET_TABLE_SIZE),
        r matches Some(i) ==> i == stat.nlinks & 0xFFFF_FFFF,
{
    if (stat.nlinks >> 32u64) != 2 {
        return None;
    }
    let candidate = stat.nlinks & 0xFFFF_FFFF;
    if candidate < SOCKET_TABLE_SIZE as u64 {
        Some(candidate as usize)
    } else {
        None
    }
}

/// A socket by value.
pub struct SocketView {
    pub inode_number: u64,
    pub socket_type: SocketType,
    pub state: SocketState,
    pub bound_path: Option<Seq<u8>>,
    pub peer_index: Option<usize>,
    /// The receive buffer's bytes, oldest first.
    pub buffer: Seq<u8>,
    pub accept_queue: Seq<usize>,
    pub receive_waiters: Seq<Pid>,
    pub accept_waiters: Seq<Pid>,
    pub shutdown_read: bool,
    pub shutdown_write: bool,
}

impl View for UnixSocket {
    type V = SocketView;

    open spec fn view(&self) -> SocketView {
        SocketView {
            inode_number: self.inode_number,
            socket_type: self.socket_type,
            state: self.state,
            bound_path: match self.bound_path {
                Some(p) => Some(p@),
                None => None,
            },
            peer_index: self.peer_index,
            buffer: self.receive_buffer@,
            accept_queue: self.accept_queue@,
            receive_waiters: self.receive_waiters@,
            accept_waiters: self.accept_waiters@,
            shutdown_read: self.shutdown_read,
            shutdown_write: self.shutdown_write,
        }
    }
}

/// A new socket of type `t` numbered `inode`: unbound, unconnected, empty.
pub open spec fn fresh_socket(t: SocketType, inode: u64) -> SocketView {
    SocketView {
        inode_number: inode,
        socket_type: t,
        state: SocketState::Unbound,
        bound_path: None,
        peer_index: None,
        buffer: Seq::empty(),
        accept_queue: Seq::empty(),
        receive_waiters: Seq::empty(),
        accept_waiters: Seq::empty(),
        shutdown_read: false,
        shutdown_write: false,
    }
}

/// The first free slot of `s` at or after `i`.
pub open spec fn first_free_from(s: Seq<Option<SocketView>>, i: int) -> Option<int>
    decreases s.len() - i,
{
    if i < 0 || i >= s.len() {
        None
    } else if s[i] is None {
        Some(i)
    } else {
        first_free_from(s, i + 1)
    }
}

/// `s` with the socket at `i` (if any) connected to `peer`.
pub open spec fn connected_to(s: Seq<Option<SocketView>>, i: int, peer: usize) -> Seq<Option<SocketView>> {
    match s[i] {
        Some(v) => s.update(i, Some(SocketView { state: SocketState::Connected, peer_index: Some(peer), ..v })),
        None => s,
    }
}

/// The socket type a `socket()` call asks for: AF_UNIX only (else
/// EAFNOSUPPORT), type 1 or 2 once SOCK_NONBLOCK and SOCK_CLOEXEC are
/// stripped (else ESOCKTNOSUPPORT).
pub open spec fn socket_type_of(domain: i32, flags: i32) -> Result<SocketType, i64> {
    let base = flags & !(0x800i32 | 0x80000i32);
    if domain != 1 {
        Err(-97i64)
    } else if base == 1 {
        Ok(SocketType::Stream)
    } else if base == 2 {
        Ok(SocketType::Datagram)
    } else {
        Err(-94i64)
    }
}

/// `socket()` accepts only AF_UNIX (1), else EAFNOSUPPORT (-97); in it,
/// type 1 is a stream socket and type 2 a datagram socket whatever of
/// SOCK_NONBLOCK (0x800) and SOCK_CLOEXEC (0x80000) is added, and any
/// other type is ESOCKTNOSUPPORT (-94).
pub proof fn lemma_socket_types(domain: i32, flags: i32)
    ensures
        domain != 1 ==> socket_type_of(domain, flags) == Err::<SocketType, i64>(-97i64),
        socket_type_of(domain, flags | 0x800i32) == socket_type_of(domain, flags),
        socket_type_of(domain, flags | 0x80000i32) == socket_type_of(domain, flags),
        socket_type_of(1, 1) == Ok::<SocketType, i64>(SocketType::Stream),
        socket_type_of(1, 2) == Ok::<SocketType, i64>(SocketType::Datagram),
        socket_type_of(1, 1i32 | 0x800i32 | 0x80000i32) == Ok::<SocketType, i64>(SocketType::Stream),
        socket_type_of(1, 2i32 | 0x800i32 | 0x80000i32) == Ok::<SocketType, i64>(SocketType::Datagram),
        domain == 1 && (flags & !(0x800i32 | 0x80000i32)) != 1 && (flags & !(0x800i32 | 0x80000i32)) != 2
            ==> socket_type_of(domain, flags) == Err::<SocketType, i64>(-94i64),
{
    assert((flags | 0x800i32) & !(0x800i32 | 0x80000i32) == flags & !(0x800i32 | 0x80000i32)) by (bit_vector);
    assert((flags | 0x80000i32) & !(0x800i32 | 0x80000i32) == flags & !(0x800i32 | 0x80000i32)) by (bit_vector);
    assert(1i32 & !(0x800i32 | 0x80000i32) == 1i32) by (bit_vector);
    assert(2i32 & !(0x800i32 | 0x80000i32) == 2i32) by (bit_vector);
    assert((1i32 | 0x800i32 | 0x80000i32) & !(0x800i32 | 0x80000i32) == 1i32) by (bit_vector);
    assert((2i32 | 0x800i32 | 0x80000i32) & !(0x800i32 | 0x80000i32) == 2i32) by (bit_vector);
}

/// Decide the type of a new socket (see `socket_type_of`).
pub fn socket_type_from_flags(domain: i32, socket_type_flags: i32) -> (r: Result<SocketType, i64>)
    ensures
        r == socket_type_of(domain, socket_type_flags),
{
    if domain != 1 {
        return Err(-97);
    }
    let base = socket_type_flags & !(0x800i32 | 0x80000i32);
    if base == 1 {
        Ok(SocketType::Stream)
    } else if base == 2 {
        Ok(SocketType::Datagram)
    } else {
        Err(-94)
    }
}

/// Size of a `sockaddr_un`: the family, then 108 path bytes.
pub const SOCKADDR_UN_SIZE: usize = 110;

/// The path bytes of a `sockaddr_un`: after the 2-byte family, up to the
/// first NUL.
pub open spec fn sockaddr_path_bytes(addr: Seq<u8>) -> Seq<u8> {
    let p = addr.subrange(2, addr.len() as int);
    p.subrange(0, crate::btrfs::first_zero(p, 0))
}

/// What a `sockaddr_un` of `addr.len()` bytes gives: EINVAL for a length
/// outside 3..=110, for a family other than AF_UNIX where it is checked,
/// and for a path that is not UTF-8; else the path.
pub open spec fn sockaddr_ok(addr: Seq<u8>, check_family: bool) -> bool {
    &&& 3 <= addr.len() <= SOCKADDR_UN_SIZE
    &&& (check_family ==> addr[0] == 1 && addr[1] == 0)
    &&& vstd::utf8::valid_utf8(sockaddr_path_bytes(addr))
}

proof fn lemma_first_zero_bounds(s: Seq<u8>, i: int)
    requires
        0 <= i <= s.len(),
    ensures
        i <= crate::btrfs::first_zero(s, i) <= s.len(),
    decreases s.len() - i,
{
    if i < s.len() && s[i] != 0 {
        lemma_first_zero_bounds(s, i + 1);
    }
}

/// The path of a `sockaddr_un` (see `sockaddr_ok`); `bind` checks the
/// family, `connect` does not.
pub fn parse_sockaddr_path(addr: &[u8], check_family: bool) -> (r: Result<&str, i64>)
    ensures
        r is Ok <==> sockaddr_ok(addr@, check_family),
        r matches Ok(p) ==> p.spec_bytes() == sockaddr_path_bytes(addr@),
        r matches Err(e) ==> e == -22,
{
    if addr.len() < 3 || addr.len() > SOCKADDR_UN_SIZE {
        return Err(-22);
    }
    if check_family && (addr[0] != 1 || addr[1] != 0) {
        return Err(-22);
    }
    let path = vstd::slice::slice_subrange(addr, 2, addr.len());
    let n = path.len();
    let mut end: usize = 0;
    while end < n && path[end] != 0
        invariant
            n == path@.len(),
            end <= n,
            crate::btrfs::first_zero(path@, end as int) == crate::btrfs::first_zero(path@, 0),
        decreases n - end,
    {
        end = end + 1;
    }
    proof { lemma_first_zero_bounds(path@, 0); }
    let bytes = vstd::slice::slice_subrange(path, 0, end);
    assert(bytes@ == sockaddr_path_bytes(addr@));
    match str_from_utf8(bytes) {
        Some(s) => Ok(s),
        None => Err(-22),
    }
}

/// A `sockaddr_un` path field for `path`: at most 107 bytes of it, the rest
/// zero; and the address length (family, path, NUL).
pub fn sockaddr_out(path: &[u8]) -> (r: ([u8; 108], u32))
    ensures
        ({
            let n = if path@.len() < 107 { path@.len() as int } else { 107 };
            &&& r.0@ == path@.subrange(0, n) + Seq::new((108 - n) as nat, |i: int| 0u8)
            &&& r.1 == 2 + n + 1
        }),
{
    let n = if path.len() < 107 { path.len() } else { 107 };
    let mut out = [0u8; 108];
    let mut i: usize = 0;
    while i < n
        invariant
            n <= 107,
            n <= path@.len(),
            i <= n,
            forall|k: int| 0 <= k < i ==> out@[k] == path@[k],
            forall|k: int| i <= k < 108 ==> out@[k] == 0,
        decreases n - i,
    {
        out[i] = path[i];
        i = i + 1;
    }
    assert(out@ =~= path@.subrange(0, n as int) + Seq::new((108 - n) as nat, |i: int| 0u8));
    (out, (2 + n + 1) as u32)
}

/// The table of Unix domain sockets: `SOCKET_TABLE_SIZE` slots.
pub struct SocketTable {
    entries: Vec<Option<UnixSocket>>,
}

/// A socket's contents by value.
pub open spec fn slot_view(o: Option<UnixSocket>) -> Option<SocketView> {
    match o {
        Some(s) => Some(s@),
        None => None,
    }
}

impl SocketTable {
    /// The sockets, by slot.
    pub closed spec fn spec_sockets(&self) -> Seq<Option<SocketView>> {
        self.entries@.map_values(|o: Option<UnixSocket>| slot_view(o))
    }

    /// `SOCKET_TABLE_SIZE` slots; every socket's buffer is a well-formed
    /// 64 KiB ring, and its peer is a slot of the table.
    pub closed spec fn wf(&self) -> bool {
        &&& self.entries@.len() == SOCKET_TABLE_SIZE
        &&& forall|i: int| 0 <= i < self.entries@.len() ==> (#[trigger] self.entries@[i] matches Some(s)
            ==> socket_ok(s))
    }

    /// A table with every slot free.
    pub fn new() -> (t: Self)
        ensures
            t.wf(),
            t.spec_sockets() == Seq::new(SOCKET_TABLE_SIZE as nat, |i: int| None::<SocketView>),
    {
        let mut entries: Vec<Option<UnixSocket>> = Vec::new();
        let mut i: usize = 0;
        while i < SOCKET_TABLE_SIZE
            invariant
                i <= SOCKET_TABLE_SIZE,
                entries@.len() == i,
                forall|k: int| 0 <= k < i ==> entries@[k] is None,
            decreases SOCKET_TABLE_SIZE - i,
        {
            entries.push(None);
            i = i + 1;
        }
        let t = SocketTable { entries };
        assert(t.spec_sockets() =~= Seq::new(SOCKET_TABLE_SIZE as nat, |i: int| None::<SocketView>));
        t
    }

    /// The first free slot.
    pub fn find_free_slot(&self) -> (r: Option<usize>)
        ensures
            r == (match first_free_from(self.spec_sockets(), 0) {
                Some(i) => Some(i as usize),
                None => None::<usize>,
            }),
    {
        let n = self.entries.len();
        let mut i: usize = 0;
        while i < n
            invariant
                n == self.entries@.len(),
                i <= n,
                first_free_from(self.spec_sockets(), i as int) == first_free_from(self.spec_sockets(), 0),
            decreases n - i,
        {
            if self.entries[i].is_none() {
                return Some(i);
            }
            i = i + 1;
        }
        None
    }

    /// Put a fresh socket of type `t` (numbered from `counter`) in the first
    /// free slot and return the slot; `None` (ENOMEM) when the table is full.
    pub fn create(&mut self, t: SocketType, counter: &mut u64) -> (r: Option<usize>)
        requires
            old(self).wf(),
        ensures
            final(self).wf(),
            match first_free_from(old(self).spec_sockets(), 0) {
                Some(i) => r == Some(i as usize) && final(self).spec_sockets()
                    == old(self).spec_sockets().update(i, Some(fresh_socket(t, *old(counter))))
                    && *final(counter) == (*old(counter) + 1) % 0x1_0000_0000_0000_0000,
                None => r is None && final(self).spec_sockets() == old(self).spec_sockets()
                    && *final(counter) == *old(counter),
            },
    {
        let slot = match self.find_free_slot() {
            Some(i) => i,
            None => return None,
        };
        proof { lemma_first_free_in_range(self.spec_sockets(), 0); }
        let socket = UnixSocket::new(t, counter);
        self.entries.set(slot, Some(socket));
        proof {
            assert(self.spec_sockets() =~= old(self).spec_sockets().update(slot as int, Some(fresh_socket(t, *old(counter)))));
        }
        Some(slot)
    }

    /// Record that socket `index` is bound to `path`.
    pub fn mark_bound(&mut self, index: usize, path: &str)
        requires
            old(self).wf(),
            index < SOCKET_TABLE_SIZE,
        ensures
            final(self).wf(),
            final(self).spec_sockets() == (match old(self).spec_sockets()[index as int] {
                Some(v) => old(self).spec_sockets().update(index as int, Some(SocketView {
                    state: SocketState::Bound,
                    bound_path: Some(path.spec_bytes()),
                    ..v
                })),
                None => old(self).spec_sockets(),
            }),
    {
        let mut slot = None;
        self.entries.set_and_swap(index, &mut slot);
        match slot {
            Some(mut socket) => {
                socket.state = SocketState::Bound;
                socket.bound_path = Some(copy_bytes(path.as_bytes()));
                self.entries.set(index, Some(socket));
            },
            None => {
                self.entries.set(index, None);
            },
        }
        proof {
            assert(self.spec_sockets() =~= (match old(self).spec_sockets()[index as int] {
                Some(v) => old(self).spec_sockets().update(index as int, Some(SocketView {
                    state: SocketState::Bound,
                    bound_path: Some(path.spec_bytes()),
                    ..v
                })),
                None => old(self).spec_sockets(),
            }));
        }
    }

    /// `listen`: a bound socket starts listening (0); anything else is
    /// EINVAL.
    pub fn listen(&mut self, index: usize) -> (r: i64)
        requires
            old(self).wf(),
            index < SOCKET_TABLE_SIZE,
        ensures
            final(self).wf(),
            match old(self).spec_sockets()[index as int] {
                Some(v) => if v.state == SocketState::Bound {
                    r == 0 && final(self).spec_sockets() == old(self).spec_sockets().update(index as int,
                        Some(SocketView { state: SocketState::Listening, ..v }))
                } else {
                    r == -22 && final(self).spec_sockets() == old(self).spec_sockets()
                },
                None => r == -22 && final(self).spec_sockets() == old(self).spec_sockets(),
            },
    {
        let is_bound = match &self.entries[index] {
            Some(socket) => socket.state == SocketState::Bound,
            None => false,
        };
        if !is_bound {
            return -22;
        }
        let mut slot = None;
        self.entries.set_and_swap(index, &mut slot);
        match slot {
            Some(mut socket) => {
                socket.state = SocketState::Listening;
                self.entries.set(index, Some(socket));
            },
            None => {
                self.entries.set(index, None);
            },
        }
        proof {
            let v = old(self).spec_sockets()[index as int]->Some_0;
            assert(self.spec_sockets() =~= old(self).spec_sockets().update(index as int,
                Some(SocketView { state: SocketState::Listening, ..v })));
        }
        0
    }

    /// The socket at `index` is listening.
    pub fn is_listening(&self, index: usize) -> (b: bool)
        requires
            self.wf(),
            index < SOCKET_TABLE_SIZE,
        ensures
            b == (self.spec_sockets()[index as int] matches Some(v) && v.state == SocketState::Listening),
    {
        match &self.entries[index] {
            Some(socket) => socket.state == SocketState::Listening,
            None => false,
        }
    }
}

/// How `connect` from `client` to `listening` changes the table `s`, with
/// a new server-side socket numbered `inode`, and what it returns: the
/// accept waiter to wake.  ECONNREFUSED unless the target listens, ENOMEM
/// without a free slot; the new socket and the client are connected to
/// each other, and the new socket is queued for `accept` while the
/// backlog has room.
pub open spec fn connect_spec(s: Seq<Option<SocketView>>, client: int, listening: int, inode: u64) -> (Seq<Option<SocketView>>, Result<Option<Pid>, i64>) {
    if !(s[listening] matches Some(l) && l.state == SocketState::Listening) {
        (s, Err(-111i64))
    } else {
        match first_free_from(s, 0) {
            None => (s, Err(-12i64)),
            Some(k) => {
                let s1 = s.update(k, Some(fresh_socket(SocketType::Stream, inode)));
                let s2 = connected_to(s1, k, client as usize);
                let s3 = connected_to(s2, client, k as usize);
                match s3[listening] {
                    Some(l) => if l.accept_queue.len() >= SOCKET_BACKLOG_MAX {
                        (s3, Ok(None))
                    } else if l.accept_waiters.len() > 0 {
                        (s3.update(listening, Some(SocketView {
                            accept_queue: l.accept_queue.push(k as usize),
                            accept_waiters: l.accept_waiters.drop_first(),
                            ..l
                        })), Ok(Some(l.accept_waiters[0])))
                    } else {
                        (s3.update(listening, Some(SocketView { accept_queue: l.accept_queue.push(k as usize), ..l })), Ok(None))
                    },
                    None => (s3, Ok(None)),
                }
            },
        }
    }
}

/// A successful `connect` pairs the client with a new server-side socket
/// in the first free slot: each is connected with the other as its peer,
/// and the new socket waits in the listener's accept queue when the
/// backlog had room.
pub proof fn lemma_connect_pairs(s: Seq<Option<SocketView>>, client: int, listening: int, inode: u64)
    requires
        0 <= client < s.len(),
        0 <= listening < s.len(),
        s[client] is Some,
        connect_spec(s, client, listening, inode).1 is Ok,
    ensures
        first_free_from(s, 0) matches Some(k) && {
            let t = connect_spec(s, client, listening, inode).0;
            &&& k != client
            &&& t[k] matches Some(a) && a.state == SocketState::Connected && a.peer_index == Some(client as usize)
            &&& t[client] matches Some(c) && c.state == SocketState::Connected && c.peer_index == Some(k as usize)
            &&& (s[listening]->Some_0.accept_queue.len() < SOCKET_BACKLOG_MAX && listening != k && listening != client)
                ==> t[listening]->Some_0.accept_queue == s[listening]->Some_0.accept_queue.push(k as usize)
        },
{
    lemma_first_free_in_range(s, 0);
}

/// The peer that `send` on socket `index` writes to: the peer of a
/// connected socket.
pub open spec fn send_peer(s: Seq<Option<SocketView>>, index: int) -> Option<usize> {
    match s[index] {
        Some(v) => if v.state == SocketState::Connected { v.peer_index } else { None },
        None => None,
    }
}

/// How many of `len` bytes fit in a receive buffer holding `held`.
pub open spec fn fits(len: int, held: int) -> int {
    if len < SOCKET_BUFFER_SIZE - held { len } else { SOCKET_BUFFER_SIZE - held }
}

/// How `send` of `data` on socket `index` changes the table, what it
/// returns, and which receiver it wakes: BrokenPipe when not connected;
/// else as much as fits goes into the peer's buffer (WouldBlock when
/// nothing of a non-empty `data` did) and the peer's first receive waiter
/// is woken.
pub open spec fn send_spec(s: Seq<Option<SocketView>>, index: int, data: Seq<u8>) -> (Seq<Option<SocketView>>, Result<usize, FsError>, Option<Pid>) {
    match send_peer(s, index) {
        None => (s, Err(FsError::BrokenPipe), None),
        Some(p) => match s[p as int] {
            None => (s, if data.len() > 0 { Err(FsError::WouldBlock) } else { Ok(0usize) }, None),
            Some(q) => {
                let n = fits(data.len() as int, q.buffer.len() as int);
                let result = if n == 0 && data.len() > 0 { Err(FsError::WouldBlock) } else { Ok(n as usize) };
                if q.receive_waiters.len() > 0 {
                    (s.update(p as int, Some(SocketView {
                        buffer: q.buffer + data.subrange(0, n),
                        receive_waiters: q.receive_waiters.drop_first(),
                        ..q
                    })), result, Some(q.receive_waiters[0]))
                } else {
                    (s.update(p as int, Some(SocketView { buffer: q.buffer + data.subrange(0, n), ..q })), result, None)
                }
            },
        },
    }
}

/// `send` on a connected socket whose peer is open: the bytes that go out
/// are a prefix of `data` appended to the peer's receive buffer, `Ok`
/// counts them, and nothing else of the table changes but the peer's
/// receive-waiter queue.  A blocked receiver is handed back to be woken:
/// when the peer has receive waiters, the first of them is returned and
/// leaves the queue; when it has none, nobody is returned.
pub proof fn lemma_send_wakes_first_receiver(s: Seq<Option<SocketView>>, index: int, data: Seq<u8>)
    requires
        0 <= index < s.len(),
        s[index] is Some,
        s[index]->Some_0.state == SocketState::Connected,
        s[index]->Some_0.peer_index is Some,
        s[index]->Some_0.peer_index->Some_0 < s.len(),
        s[s[index]->Some_0.peer_index->Some_0 as int] is Some,
        s[s[index]->Some_0.peer_index->Some_0 as int]->Some_0.buffer.len() <= SOCKET_BUFFER_SIZE,
    ensures
        ({
            let p = s[index]->Some_0.peer_index->Some_0 as int;
            let q = s[p]->Some_0;
            let (s2, r, woken) = send_spec(s, index, data);
            let q2 = s2[p]->Some_0;
            &&& s2.len() == s.len()
            &&& s2[p] is Some
            &&& forall|j: int| 0 <= j < s.len() && j != p ==> s2[j] == s[j]
            &&& exists|n: int| 0 <= n <= data.len() && q2.buffer == q.buffer + data.subrange(0, n)
                && (r matches Ok(k) ==> k == n)
                && (r is Err ==> n == 0 && data.len() > 0)
            &&& q.receive_waiters.len() > 0 ==> woken == Some(q.receive_waiters[0])
                && q2.receive_waiters == q.receive_waiters.subrange(1, q.receive_waiters.len() as int)
            &&& q.receive_waiters.len() == 0 ==> woken is None && q2.receive_waiters == q.receive_waiters
            &&& q2 == (SocketView { buffer: q2.buffer, receive_waiters: q2.receive_waiters, ..q })
        }),
{
    let p = s[index]->Some_0.peer_index->Some_0 as int;
    let q = s[p]->Some_0;
    let n = fits(data.len() as int, q.buffer.len() as int);
    assert(0 <= n <= data.len());
}

/// One attempt to receive on a socket.
#[derive(Clone, Copy, PartialEq, Eq, Structural, Debug)]
pub enum ReceiveStep {
    /// `n` bytes were read (0: end of file after a read shutdown).
    Read(usize),
    /// Nothing to read yet: the caller blocks and retries.
    Block,
}

impl SocketTable {
    /// Take the socket out of slot `index`.
    fn take_slot(&mut self, index: usize) -> (r: Option<UnixSocket>)
        requires
            old(self).wf(),
            index < SOCKET_TABLE_SIZE,
        ensures
            final(self).wf(),
            slot_view(r) == old(self).spec_sockets()[index as int],
            final(self).spec_sockets() == old(self).spec_sockets().update(index as int, None),
            r matches Some(x) ==> socket_ok(x),
    {
        let mut slot = None;
        self.entries.set_and_swap(index, &mut slot);
        proof {
            assert(self.spec_sockets() =~= old(self).spec_sockets().update(index as int, None));
            assert(old(self).entries@[index as int] == slot);
        }
        slot
    }

    /// Put `socket` in slot `index`.
    fn put_slot(&mut self, index: usize, socket: Option<UnixSocket>)
        requires
            old(self).wf(),
            index < SOCKET_TABLE_SIZE,
            socket matches Some(x) ==> socket_ok(x),
        ensures
            final(self).wf(),
            final(self).spec_sockets() == old(self).spec_sockets().update(index as int, slot_view(socket)),
    {
        let ghost v = slot_view(socket);
        self.entries.set(index, socket);
        proof {
            assert(self.spec_sockets() =~= old(self).spec_sockets().update(index as int, v));
        }
    }

    /// Connect socket `index` to `peer`, if there is a socket there.
    fn connect_slot(&mut self, index: usize, peer: usize)
        requires
            old(self).wf(),
            index < SOCKET_TABLE_SIZE,
            peer < SOCKET_TABLE_SIZE,
        ensures
            final(self).wf(),
            final(self).spec_sockets() == connected_to(old(self).spec_sockets(), index as int, peer),
    {
        let slot = self.take_slot(index);
        match slot {
            Some(mut socket) => {
                socket.state = SocketState::Connected;
                socket.peer_index = Some(peer);
                self.put_slot(index, Some(socket));
                assert(self.spec_sockets() =~= connected_to(old(self).spec_sockets(), index as int, peer));
            },
            None => {
                self.put_slot(index, None);
                assert(self.spec_sockets() =~= old(self).spec_sockets());
            },
        }
    }

    /// `connect` from socket `client_index` to the socket at
    /// `listening_index` (see `connect_spec`); the new server-side socket is
    /// numbered from `counter`.
    pub fn connect(&mut self, client_index: usize, listening_index: usize, counter: &mut u64) -> (r: Result<Option<Pid>, i64>)
        requires
            old(self).wf(),
            client_index < SOCKET_TABLE_SIZE,
            listening_index < SOCKET_TABLE_SIZE,
        ensures
            final(self).wf(),
            (final(self).spec_sockets(), r) == connect_spec(old(self).spec_sockets(), client_index as int,
                listening_index as int, *old(counter)),
    {
        if !self.is_listening(listening_index) {
            return Err(-111);
        }
        let server_side = match self.create(SocketType::Stream, counter) {
            Some(i) => i,
            None => return Err(-12),
        };
        proof { lemma_first_free_in_range(old(self).spec_sockets(), 0); }
        self.connect_slot(server_side, client_index);
        self.connect_slot(client_index, server_side);
        let slot = self.take_slot(listening_index);
        match slot {
            Some(mut listening) => {
                let ghost l = listening@;
                if listening.accept_queue.len() >= SOCKET_BACKLOG_MAX {
                    self.put_slot(listening_index, Some(listening));
                    assert(self.spec_sockets() =~= connect_spec(old(self).spec_sockets(), client_index as int,
                        listening_index as int, *old(counter)).0);
                    Ok(None)
                } else {
                    listening.accept_queue.push(server_side);
                    let waiter = if listening.accept_waiters.len() > 0 {
                        Some(listening.accept_waiters.remove(0))
                    } else {
                        None
                    };
                    proof {
                        if l.accept_waiters.len() > 0 {
                            assert(listening.accept_waiters@ =~= l.accept_waiters.drop_first());
                        }
                    }
                    self.put_slot(listening_index, Some(listening));
                    assert(self.spec_sockets() =~= connect_spec(old(self).spec_sockets(), client_index as int,
                        listening_index as int, *old(counter)).0);
                    Ok(waiter)
                }
            },
            None => {
                self.put_slot(listening_index, None);
                assert(self.spec_sockets() =~= connect_spec(old(self).spec_sockets(), client_index as int,
                    listening_index as int, *old(counter)).0);
                Ok(None)
            },
        }
    }

    /// Take the next connection from the accept queue of socket `index`.
    pub fn accept_pop(&mut self, index: usize) -> (r: Option<usize>)
        requires
            old(self).wf(),
            index < SOCKET_TABLE_SIZE,
        ensures
            final(self).wf(),
            match old(self).spec_sockets()[index as int] {
                Some(v) => if v.accept_queue.len() > 0 {
                    r == Some(v.accept_queue[0]) && final(self).spec_sockets() == old(self).spec_sockets().update(
                        index as int, Some(SocketView { accept_queue: v.accept_queue.drop_first(), ..v }))
                } else {
                    r is None && final(self).spec_sockets() == old(self).spec_sockets()
                },
                None => r is None && final(self).spec_sockets() == old(self).spec_sockets(),
            },
    {
        let slot = self.take_slot(index);
        match slot {
            Some(mut socket) => {
                let ghost v = socket@;
                if socket.accept_queue.len() > 0 {
                    let next = socket.accept_queue.remove(0);
                    assert(socket.accept_queue@ =~= v.accept_queue.drop_first());
                    self.put_slot(index, Some(socket));
                    assert(self.spec_sockets() =~= old(self).spec_sockets().update(
                        index as int, Some(SocketView { accept_queue: v.accept_queue.drop_first(), ..v })));
                    Some(next)
                } else {
                    self.put_slot(index, Some(socket));
                    assert(self.spec_sockets() =~= old(self).spec_sockets());
                    None
                }
            },
            None => {
                self.put_slot(index, None);
                assert(self.spec_sockets() =~= old(self).spec_sockets());
                None
            },
        }
    }

    /// Queue `pid` as waiting in `accept` (`on_accept`) or in `recv` on
    /// socket `index`, if there is a socket there.
    pub fn add_waiter(&mut self, index: usize, pid: Pid, on_accept: bool)
        requires
            old(self).wf(),
            index < SOCKET_TABLE_SIZE,
        ensures
            final(self).wf(),
            final(self).spec_sockets() == (match old(self).spec_sockets()[index as int] {
                Some(v) => old(self).spec_sockets().update(index as int, Some(if on_accept {
                    SocketView { accept_waiters: v.accept_waiters.push(pid), ..v }
                } else {
                    SocketView { receive_waiters: v.receive_waiters.push(pid), ..v }
                })),
                None => old(self).spec_sockets(),
            }),
    {
        let slot = self.take_slot(index);
        match slot {
            Some(mut socket) => {
                if on_accept {
                    socket.accept_waiters.push(pid);
                } else {
                    socket.receive_waiters.push(pid);
                }
                self.put_slot(index, Some(socket));
            },
            None => {
                self.put_slot(index, None);
            },
        }
        proof {
            assert(self.spec_sockets() =~= (match old(self).spec_sockets()[index as int] {
                Some(v) => old(self).spec_sockets().update(index as int, Some(if on_accept {
                    SocketView { accept_waiters: v.accept_waiters.push(pid), ..v }
                } else {
                    SocketView { receive_waiters: v.receive_waiters.push(pid), ..v }
                })),
                None => old(self).spec_sockets(),
            }));
        }
    }

    /// `send` on socket `index` (see `send_spec`): the result and the
    /// receiver to wake.
    pub fn send(&mut self, index: usize, data: &[u8]) -> (r: (Result<usize, FsError>, Option<Pid>))
        requires
            old(self).wf(),
            index < SOCKET_TABLE_SIZE,
        ensures
            final(self).wf(),
            (final(self).spec_sockets(), r.0, r.1) == send_spec(old(self).spec_sockets(), index as int, data@),
    {
        let peer = match &self.entries[index] {
            Some(socket) => if socket.state == SocketState::Connected { socket.peer_index } else { None },
            None => None,
        };
        let p = match peer {
            Some(p) => p,
            None => return (Err(FsError::BrokenPipe), None),
        };
        let slot = self.take_slot(p);
        match slot {
            Some(mut q) => {
                let ghost v = q@;
                let written = q.receive_buffer.write(data);
                let waiter = if q.receive_waiters.len() > 0 {
                    Some(q.receive_waiters.remove(0))
                } else {
                    None
                };
                proof {
                    if v.receive_waiters.len() > 0 {
                        assert(q.receive_waiters@ =~= v.receive_waiters.drop_first());
                    }
                }
                self.put_slot(p, Some(q));
                assert(self.spec_sockets() =~= send_spec(old(self).spec_sockets(), index as int, data@).0);
                let result = if written == 0 && data.len() > 0 { Err(FsError::WouldBlock) } else { Ok(written) };
                (result, waiter)
            },
            None => {
                self.put_slot(p, None);
                assert(self.spec_sockets() =~= old(self).spec_sockets());
                (if data.len() > 0 { Err(FsError::WouldBlock) } else { Ok(0) }, None)
            },
        }
    }

    /// One attempt to receive on socket `index` into `destination`: read
    /// what is buffered, or 0 bytes (end of file) after a read shutdown, or
    /// block (also when the slot is empty).
    pub fn receive_step(&mut self, index: usize, destination: &mut [u8]) -> (r: ReceiveStep)
        requires
            old(self).wf(),
            index < SOCKET_TABLE_SIZE,
        ensures
            final(self).wf(),
            final(destination)@.len() == old(destination)@.len(),
            match old(self).spec_sockets()[index as int] {
                Some(v) => if v.buffer.len() > 0 {
                    let n = if old(destination)@.len() < v.buffer.len() { old(destination)@.len() as int } else { v.buffer.len() as int };
                    &&& r == ReceiveStep::Read(n as usize)
                    &&& final(destination)@.subrange(0, n) == v.buffer.subrange(0, n)
                    &&& final(self).spec_sockets() == old(self).spec_sockets().update(index as int,
                        Some(SocketView { buffer: v.buffer.subrange(n, v.buffer.len() as int), ..v }))
                } else {
                    &&& r == (if v.shutdown_read { ReceiveStep::Read(0) } else { ReceiveStep::Block })
                    &&& final(self).spec_sockets() == old(self).spec_sockets()
                    &&& final(destination)@ == old(destination)@
                },
                None => r == ReceiveStep::Block && final(self).spec_sockets() == old(self).spec_sockets()
                    && final(destination)@ == old(destination)@,
            },
    {
        let slot = self.take_slot(index);
        match slot {
            Some(mut socket) => {
                let ghost v = socket@;
                if socket.receive_buffer.available_bytes() > 0 {
                    let n = socket.receive_buffer.read(destination);
                    self.put_slot(index, Some(socket));
                    assert(self.spec_sockets() =~= old(self).spec_sockets().update(index as int,
                        Some(SocketView { buffer: v.buffer.subrange(n as int, v.buffer.len() as int), ..v })));
                    ReceiveStep::Read(n)
                } else {
                    let shut = socket.shutdown_read;
                    self.put_slot(index, Some(socket));
                    assert(self.spec_sockets() =~= old(self).spec_sockets());
                    if shut { ReceiveStep::Read(0) } else { ReceiveStep::Block }
                }
            },
            None => {
                self.put_slot(index, None);
                assert(self.spec_sockets() =~= old(self).spec_sockets());
                ReceiveStep::Block
            },
        }
    }

    /// `shutdown` of socket `index` (`how`: 0 read, 1 write, 2 both): set
    /// the flags and hand back the receive waiters, to be woken.
    pub fn shutdown(&mut self, index: usize, how: i32) -> (woken: Vec<Pid>)
        requires
            old(self).wf(),
            index < SOCKET_TABLE_SIZE,
        ensures
            final(self).wf(),
            match old(self).spec_sockets()[index as int] {
                Some(v) => woken@ == v.receive_waiters && final(self).spec_sockets() == old(self).spec_sockets().update(
                    index as int, Some(SocketView {
                        shutdown_read: v.shutdown_read || how == 0 || how == 2,
                        shutdown_write: v.shutdown_write || how == 1 || how == 2,
                        receive_waiters: Seq::empty(),
                        ..v
                    })),
                None => woken@.len() == 0 && final(self).spec_sockets() == old(self).spec_sockets(),
            },
    {
        let slot = self.take_slot(index);
        match slot {
            Some(mut socket) => {
                let ghost v = socket@;
                if how == 0 || how == 2 {
                    socket.shutdown_read = true;
                }
                if how == 1 || how == 2 {
                    socket.shutdown_write = true;
                }
                let mut waiters: Vec<Pid> = Vec::new();
                std::mem::swap(&mut waiters, &mut socket.receive_waiters);
                self.put_slot(index, Some(socket));
                assert(self.spec_sockets() =~= old(self).spec_sockets().update(
                    index as int, Some(SocketView {
                        shutdown_read: v.shutdown_read || how == 0 || how == 2,
                        shutdown_write: v.shutdown_write || how == 1 || how == 2,
                        receive_waiters: Seq::empty(),
                        ..v
                    })));
                waiters
            },
            None => {
                self.put_slot(index, None);
                assert(self.spec_sockets() =~= old(self).spec_sockets());
                Vec::new()
            },
        }
    }

    /// The path socket `index` is bound to.
    pub fn bound_path(&self, index: usize) -> (r: Option<Vec<u8>>)
        requires
            self.wf(),
            index < SOCKET_TABLE_SIZE,
        ensures
            match self.spec_sockets()[index as int] {
                Some(v) => match v.bound_path {
                    Some(p) => r matches Some(x) && x@ == p,
                    None => r is None,
                },
                None => r is None,
            },
    {
        match &self.entries[index] {
            Some(socket) => match &socket.bound_path {
                Some(p) => Some(copy_bytes(p.as_slice())),
                None => None,
            },
            None => None,
        }
    }

    /// The path the peer of socket `index` is bound to.
    pub fn peer_bound_path(&self, index: usize) -> (r: Option<Vec<u8>>)
        requires
            self.wf(),
            index < SOCKET_TABLE_SIZE,
        ensures
            match self.spec_sockets()[index as int] {
                Some(v) => match v.peer_index {
                    Some(p) => match self.spec_sockets()[p as int] {
                        Some(w) => match w.bound_path {
                            Some(path) => r matches Some(x) && x@ == path,
                            None => r is None,
                        },
                        None => r is None,
                    },
                    None => r is None,
                },
                None => r is None,
            },
    {
        let peer = match &self.entries[index] {
            Some(socket) => socket.peer_index,
            None => None,
        };
        match peer {
            Some(p) => self.bound_path(p),
            None => None,
        }
    }

    /// `socketpair`: two fresh sockets of type `t` in the first two free
    /// slots, connected to each other.  `None` (ENOMEM) when there is no
    /// free slot, or only one (which then keeps its new socket).
    pub fn socketpair(&mut self, t: SocketType, counter: &mut u64) -> (r: Option<(usize, usize)>)
        requires
            old(self).wf(),
        ensures
            final(self).wf(),
            match first_free_from(old(self).spec_sockets(), 0) {
                None => r is None && final(self).spec_sockets() == old(self).spec_sockets(),
                Some(a) => {
                    let s1 = old(self).spec_sockets().update(a, Some(fresh_socket(t, *old(counter))));
                    match first_free_from(s1, 0) {
                        None => r is None && final(self).spec_sockets() == s1,
                        Some(b) => r == Some((a as usize, b as usize)) && final(self).spec_sockets() == connected_to(
                            connected_to(s1.update(b, Some(fresh_socket(t, ((*old(counter) + 1) % 0x1_0000_0000_0000_0000) as u64))),
                                a, b as usize), b, a as usize),
                    }
                },
            },
    {
        let a = match self.create(t, counter) {
            Some(i) => i,
            None => return None,
        };
        proof { lemma_first_free_in_range(old(self).spec_sockets(), 0); }
        let ghost s1 = self.spec_sockets();
        let b = match self.create(t, counter) {
            Some(i) => i,
            None => return None,
        };
        proof { lemma_first_free_in_range(s1, 0); }
        self.connect_slot(a, b);
        self.connect_slot(b, a);
        Some((a, b))
    }
}

/// A socket that can stand in the table: a well-formed 64 KiB buffer and
/// a peer inside the table.
pub open spec fn socket_ok(s: UnixSocket) -> bool {
    &&& s.receive_buffer.wf()
    &&& s.receive_buffer.spec_capacity() == SOCKET_BUFFER_SIZE
    &&& s.peer_index matches Some(p) ==> p < SOCKET_TABLE_SIZE
}

/// A copy of a byte slice.
fn copy_bytes(src: &[u8]) -> (v: Vec<u8>)
    ensures
        v@ == src@,
{
    let mut v: Vec<u8> = Vec::new();
    crate::bytes::push_slice(&mut v, src);
    v
}

proof fn lemma_first_free_in_range(s: Seq<Option<SocketView>>, i: int)
    requires
        0 <= i,
    ensures
        first_free_from(s, i) matches Some(k) ==> i <= k < s.len() && s[k] is None,
    decreases s.len() - i,
{
    if i < s.len() && s[i] is Some {
        lemma_first_free_in_range(s, i + 1);
    }
}

/// With every slot from `i` on taken there is no free slot there.
proof fn lemma_first_free_none(s: Seq<Option<SocketView>>, i: int)
    requires
        0 <= i,
        forall|m: int| i <= m < s.len() ==> #[trigger] s[m] is Some,
    ensures
        first_free_from(s, i) is None,
    decreases s.len() - i,
{
    if i < s.len() {
        lemma_first_free_none(s, i + 1);
    }
}

/// When the search finds no free slot from `i` on, every slot there is
/// taken.
proof fn lemma_first_free_all_taken(s: Seq<Option<SocketView>>, i: int)
    requires
        0 <= i,
        first_free_from(s, i) is None,
    ensures
        forall|m: int| i <= m < s.len() ==> #[trigger] s[m] is Some,
    decreases s.len() - i,
{
    if i < s.len() {
        lemma_first_free_all_taken(s, i + 1);
    }
}

/// `connect` to a socket that is not listening is refused (ECONNREFUSED,
/// -111) and with every slot taken it fails with ENOMEM (-12), the table
/// unchanged either way.  Otherwise it succeeds: while the listener's
/// backlog has room the new server-side socket joins the end of its
/// accept queue, and a process blocked in `accept` is handed back to be
/// woken, the one that waited longest, leaving the waiter queue; with
/// nobody waiting, or with a full backlog, nobody is woken and the
/// listener is left as it was.
pub proof fn lemma_connect_wakes_acceptor(s: Seq<Option<SocketView>>, client: int, listening: int, inode: u64)
    requires
        0 <= client < s.len(),
        0 <= listening < s.len(),
        client != listening,
        s[client] is Some,
    ensures
        !(s[listening] is Some && s[listening]->Some_0.state == SocketState::Listening)
            ==> connect_spec(s, client, listening, inode) == (s, Err::<Option<Pid>, i64>(-111i64)),
        s[listening] is Some && s[listening]->Some_0.state == SocketState::Listening ==> ({
            let l = s[listening]->Some_0;
            let (t, r) = connect_spec(s, client, listening, inode);
            if forall|m: int| 0 <= m < s.len() ==> #[trigger] s[m] is Some {
                t == s && r == Err::<Option<Pid>, i64>(-12i64)
            } else {
                let k = first_free_from(s, 0)->Some_0;
                &&& r is Ok
                &&& s[k] is None
                &&& l.accept_queue.len() < SOCKET_BACKLOG_MAX ==> t[listening] is Some
                    && t[listening]->Some_0.accept_queue == l.accept_queue.push(k as usize)
                    && (l.accept_waiters.len() > 0 ==> r == Ok::<Option<Pid>, i64>(Some(l.accept_waiters[0]))
                        && t[listening]->Some_0.accept_waiters == l.accept_waiters.subrange(1, l.accept_waiters.len() as int))
                    && (l.accept_waiters.len() == 0 ==> r == Ok::<Option<Pid>, i64>(None)
                        && t[listening]->Some_0.accept_waiters == l.accept_waiters)
                &&& l.accept_queue.len() >= SOCKET_BACKLOG_MAX ==> r == Ok::<Option<Pid>, i64>(None) && t[listening] == s[listening]
            }
        }),
{
    lemma_first_free_in_range(s, 0);
    if forall|m: int| 0 <= m < s.len() ==> #[trigger] s[m] is Some {
        lemma_first_free_none(s, 0);
    } else if s[listening] is Some && s[listening]->Some_0.state == SocketState::Listening {
        if first_free_from(s, 0) is None {
            lemma_first_free_all_taken(s, 0);
        }
        let k = first_free_from(s, 0)->Some_0;
        assert(k != listening && k != client);
        let s1 = s.update(k, Some(fresh_socket(SocketType::Stream, inode)));
        let s2 = connected_to(s1, k, client as usize);
        let s3 = connected_to(s2, client, k as usize);
        assert(s3[listening] == s[listening]);
    }
}

} // verus!
