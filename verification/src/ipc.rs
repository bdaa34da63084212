//! POSIX message queues and named semaphores: the queue and counter logic
//! and their inodes.

use vstd::prelude::*;
use crate::inode::{alloc_inode_number, FsError, InodeStat, InodeType};
use crate::pipe::Pid;

verus! {

/// A queued message: payload and priority.
pub struct Message {
    pub data: Vec<u8>,
    pub priority: u32,
}

/// A message queue: messages by decreasing priority (FIFO within a
/// priority), its limits, references and waiters.
pub struct MessageQueue {
    pub name: Vec<u8>,
    /// Queued messages, front first.
    pub messages: Vec<Message>,
    pub max_messages: usize,
    pub max_message_size: usize,
    pub reference_count: u32,
    pub is_unlinked: bool,
    pub receive_waiters: Vec<Pid>,
    pub send_waiters: Vec<Pid>,
}

/// Priorities never increase along the queue.
pub open spec fn by_priority(s: Seq<u32>) -> bool {
    forall|i: int, j: int| 0 <= i < j < s.len() ==> s[i] >= s[j]
}

/// Position for a message of priority `p`: the first queued message of
/// lower priority, or the end.
pub open spec fn insert_position(s: Seq<u32>, p: u32) -> int
    decreases s.len(),
{
    if s.len() == 0 {
        0
    } else if s[0] < p {
        0
    } else {
        1 + insert_position(s.drop_first(), p)
    }
}

impl MessageQueue {
    /// The priorities of the queued messages, front first.
    pub open spec fn priorities(&self) -> Seq<u32> {
        self.messages@.map_values(|m: Message| m.priority)
    }

    /// The payloads of the queued messages, front first.
    pub open spec fn payloads(&self) -> Seq<Seq<u8>> {
        self.messages@.map_values(|m: Message| m.data@)
    }

    /// Messages are ordered by priority.
    pub open spec fn wf(&self) -> bool {
        by_priority(self.priorities())
    }

    /// An empty queue with one reference.
    pub fn new(name: Vec<u8>, max_messages: usize, max_message_size: usize) -> (q: Self)
        ensures
            q.wf(),
            q.priorities().len() == 0,
            q.name@ == name@,
            q.max_messages == max_messages && q.max_message_size == max_message_size,
            q.reference_count == 1 && !q.is_unlinked,
            q@ == fresh_queue(name@, max_messages, max_message_size),
    {
        let q = MessageQueue {
            name,
            messages: Vec::new(),
            max_messages,
            max_message_size,
            reference_count: 1,
            is_unlinked: false,
            receive_waiters: Vec::new(),
            send_waiters: Vec::new(),
        };
        assert(q.priorities() =~= Seq::<u32>::empty());
        assert(q.payloads() =~= Seq::<Seq<u8>>::empty());
        assert(q.receive_waiters@ =~= Seq::<Pid>::empty());
        assert(q.send_waiters@ =~= Seq::<Pid>::empty());
        q
    }

    /// The queue is called `name`.
    pub fn name_matches(&self, name: &[u8]) -> (b: bool)
        ensures
            b == (name@ == self.name@),
    {
        crate::read::bytes_equal(name, self.name.as_slice())
    }

    /// Insert `message` before the first message of lower priority, so the
    /// queue stays ordered by priority and FIFO within a priority.
    pub fn enqueue(&mut self, message: Message)
        requires
            old(self).wf(),
        ensures
            final(self).wf(),
            final(self).priorities() == old(self).priorities().insert(insert_position(old(self).priorities(), message.priority), message.priority),
            final(self).payloads() == old(self).payloads().insert(insert_position(old(self).priorities(), message.priority), message.data@),
            final(self)@ == (MqView { priorities: final(self).priorities(), payloads: final(self).payloads(), ..old(self)@ }),
    {
        let ghost ps = self.priorities();
        let n = self.messages.len();
        let mut pos: usize = 0;
        assert(ps.subrange(0, n as int) =~= ps);
        while pos < n && self.messages[pos].priority >= message.priority
            invariant
                n == self.messages@.len(),
                ps == self.priorities(),
                pos <= n,
                forall|k: int| 0 <= k < pos ==> ps[k] >= message.priority,
                insert_position(ps, message.priority) == pos + insert_position(ps.subrange(pos as int, n as int), message.priority),
            decreases n - pos,
        {
            proof {
                let t = ps.subrange(pos as int, n as int);
                assert(t.drop_first() =~= ps.subrange(pos + 1, n as int));
            }
            pos = pos + 1;
        }
        proof {
            let t = ps.subrange(pos as int, n as int);
            if pos < n {
                assert(t[0] == ps[pos as int]);
            }
            assert(insert_position(t, message.priority) == 0);
        }
        let ghost old_payloads = self.payloads();
        let ghost p = message.priority;
        let ghost d = message.data@;
        self.messages.insert(pos, message);
        proof {
            assert(self.priorities() =~= ps.insert(pos as int, p));
            assert(self.payloads() =~= old_payloads.insert(pos as int, d));
            let q = self.priorities();
            assert forall|i: int, j: int| 0 <= i < j < q.len() implies q[i] >= q[j] by {
                if i < pos && j > pos {
                    assert(ps[i] >= ps[j - 1]);
                }
                if j == pos {
                    assert(ps[i] >= p);
                }
                if i == pos && j > pos {
                    assert(ps[j - 1] < p || ps[pos as int] < p);
                    if j - 1 > pos {
                        assert(ps[pos as int] >= ps[j - 1]);
                    }
                }
                if i > pos {
                    assert(ps[i - 1] >= ps[j - 1]);
                }
            }
        }
    }

    /// Remove the front (highest-priority, oldest) message.
    pub fn dequeue(&mut self) -> (m: Option<Message>)
        requires
            old(self).wf(),
        ensures
            final(self).wf(),
            old(self).priorities().len() == 0 ==> m is None && final(self).priorities().len() == 0,
            old(self).priorities().len() > 0 ==> (m matches Some(msg) && msg.priority == old(self).priorities()[0]
                && msg.data@ == old(self).payloads()[0])
                && final(self).priorities() == old(self).priorities().drop_first()
                && final(self).payloads() == old(self).payloads().drop_first(),
            final(self)@ == (MqView { priorities: final(self).priorities(), payloads: final(self).payloads(), ..old(self)@ }),
    {
        if self.messages.len() == 0 {
            return None;
        }
        let m = self.messages.remove(0);
        proof {
            assert(self.priorities() =~= old(self).priorities().drop_first());
            assert(self.payloads() =~= old(self).payloads().drop_first());
            let q = self.priorities();
            assert forall|i: int, j: int| 0 <= i < j < q.len() implies q[i] >= q[j] by {
                assert(old(self).priorities()[i + 1] >= old(self).priorities()[j + 1]);
            }
        }
        Some(m)
    }

    /// Number of queued messages.
    pub fn message_count(&self) -> (n: usize)
        ensures
            n == self.priorities().len(),
    {
        self.messages.len()
    }

    /// The queue holds `max_messages` messages.
    pub fn is_full(&self) -> (b: bool)
        ensures
            b == (self.priorities().len() >= self.max_messages),
    {
        self.messages.len() >= self.max_messages
    }

    /// No message is queued.
    pub fn is_empty(&self) -> (b: bool)
        ensures
            b == (self.priorities().len() == 0),
    {
        self.messages.len() == 0
    }
}

/// A named semaphore: counter, FIFO of blocked waiters, references.
pub struct NamedSemaphore {
    pub name: Vec<u8>,
    pub value: u32,
    pub waiter_queue: Vec<Pid>,
    pub reference_count: u32,
    pub is_unlinked: bool,
}

impl NamedSemaphore {
    /// The semaphore is called `name`.
    pub fn name_matches(&self, name: &[u8]) -> (b: bool)
        ensures
            b == (name@ == self.name@),
    {
        crate::read::bytes_equal(name, self.name.as_slice())
    }

    /// Take a token without blocking: `true` (counter decremented) when
    /// the counter is positive.
    pub fn try_decrement(&mut self) -> (ok: bool)
        ensures
            ok == (old(self).value > 0),
            final(self).value == (if ok { old(self).value - 1 } else { old(self).value as int }),
            final(self).waiter_queue@ == old(self).waiter_queue@,
            final(self)@ == (SemView { value: final(self).value, ..old(self)@ }),
    {
        if self.value > 0 {
            self.value = self.value - 1;
            true
        } else {
            false
        }
    }

    /// Release a token: hand it to the oldest waiter (returned, to be
    /// woken) or, with no waiter, increment the counter.
    pub fn post(&mut self) -> (woken: Option<Pid>)
        requires
            old(self).waiter_queue@.len() > 0 || old(self).value < u32::MAX,
        ensures
            old(self).waiter_queue@.len() > 0 ==> woken == Some(old(self).waiter_queue@[0])
                && final(self).waiter_queue@ == old(self).waiter_queue@.drop_first()
                && final(self).value == old(self).value,
            old(self).waiter_queue@.len() == 0 ==> woken is None && final(self).value == old(self).value + 1
                && final(self).waiter_queue@ == old(self).waiter_queue@,
            final(self)@ == (SemView { value: final(self).value, waiters: final(self).waiter_queue@, ..old(self)@ }),
    {
        if self.waiter_queue.len() > 0 {
            let pid = self.waiter_queue.remove(0);
            assert(self.waiter_queue@ =~= old(self).waiter_queue@.drop_first());
            Some(pid)
        } else {
            self.value = self.value + 1;
            None
        }
    }
}

/// The inode of a message queue (IPC kind 3).
pub struct MqueueInode {
    pub inode_number: u64,
    pub table_index: usize,
}

impl MqueueInode {
    /// The inode of queue `table_index`, numbered from `counter`.
    pub fn new(table_index: usize, counter: &mut u64) -> (q: Self)
        ensures
            q.table_index == table_index && q.inode_number == *old(counter),
    {
        MqueueInode { inode_number: alloc_inode_number(counter), table_index }
    }

    /// Always `CharDevice`.
    pub fn inode_type(&self) -> (t: InodeType)
        ensures
            t == InodeType::CharDevice,
    {
        InodeType::CharDevice
    }

    /// Stat: mode 0o020666, one link.
    pub fn stat(&self) -> (s: InodeStat)
        ensures
            s == (InodeStat { inode_number: self.inode_number, size: 0, mode: 0o020666, nlinks: 1, uid: 0, gid: 0 }),
    {
        InodeStat { inode_number: self.inode_number, size: 0, mode: 0o020666, nlinks: 1, uid: 0, gid: 0 }
    }

    /// IPC kind 3 and the table index.
    pub fn ipc_table_index(&self) -> (r: Option<(u8, usize)>)
        ensures
            r == Some((3u8, self.table_index)),
    {
        Some((3, self.table_index))
    }

    /// Message queues are not read with read().
    pub fn read_at(&self, _offset: u64, _buf: &mut [u8]) -> (r: Result<usize, FsError>)
        ensures
            r == Err::<usize, FsError>(FsError::NotSupported),
    {
        Err(FsError::NotSupported)
    }
}

/// The inode of a named semaphore (IPC kind 1).
pub struct SemaphoreInode {
    pub inode_number: u64,
    pub table_index: usize,
}

impl SemaphoreInode {
    /// The inode of semaphore `table_index`, numbered from `counter`.
    pub fn new(table_index: usize, counter: &mut u64) -> (s: Self)
        ensures
            s.table_index == table_index && s.inode_number == *old(counter),
    {
        SemaphoreInode { inode_number: alloc_inode_number(counter), table_index }
    }

    /// Always `CharDevice`.
    pub fn inode_type(&self) -> (t: InodeType)
        ensures
            t == InodeType::CharDevice,
    {
        InodeType::CharDevice
    }

    /// Stat: mode 0o020666, one link.
    pub fn stat(&self) -> (s: InodeStat)
        ensures
            s == (InodeStat { inode_number: self.inode_number, size: 0, mode: 0o020666, nlinks: 1, uid: 0, gid: 0 }),
    {
        InodeStat { inode_number: self.inode_number, size: 0, mode: 0o020666, nlinks: 1, uid: 0, gid: 0 }
    }

    /// IPC kind 1 and the table index.
    pub fn ipc_table_index(&self) -> (r: Option<(u8, usize)>)
        ensures
            r == Some((1u8, self.table_index)),
    {
        Some((1, self.table_index))
    }

    /// Semaphores are not read with read().
    pub fn read_at(&self, _offset: u64, _buf: &mut [u8]) -> (r: Result<usize, FsError>)
        ensures
            r == Err::<usize, FsError>(FsError::NotSupported),
    {
        Err(FsError::NotSupported)
    }
}

/// A message queue by value.
pub struct MqView {
    pub name: Seq<u8>,
    /// Priorities and payloads of the queued messages, front first.
    pub priorities: Seq<u32>,
    pub payloads: Seq<Seq<u8>>,
    pub max_messages: usize,
    pub max_message_size: usize,
    pub reference_count: u32,
    pub is_unlinked: bool,
    pub receive_waiters: Seq<Pid>,
    pub send_waiters: Seq<Pid>,
}

impl View for MessageQueue {
    type V = MqView;

    open spec fn view(&self) -> MqView {
        MqView {
            name: self.name@,
            priorities: self.priorities(),
            payloads: self.payloads(),
            max_messages: self.max_messages,
            max_message_size: self.max_message_size,
            reference_count: self.reference_count,
            is_unlinked: self.is_unlinked,
            receive_waiters: self.receive_waiters@,
            send_waiters: self.send_waiters@,
        }
    }
}

/// A new, empty queue with one reference.
pub open spec fn fresh_queue(name: Seq<u8>, max_messages: usize, max_message_size: usize) -> MqView {
    MqView {
        name,
        priorities: Seq::empty(),
        payloads: Seq::empty(),
        max_messages,
        max_message_size,
        reference_count: 1,
        is_unlinked: false,
        receive_waiters: Seq::empty(),
        send_waiters: Seq::empty(),
    }
}

/// `O_CREAT`: create the object if it does not exist.
pub const O_CREAT: i32 = 64;
/// `O_EXCL`: with `O_CREAT`, fail if it exists.
pub const O_EXCL: i32 = 128;
/// Longest semaphore or queue name.
pub const IPC_NAME_MAX_LENGTH: usize = 64;
/// Number of named semaphores the kernel can have.
pub const SEMAPHORE_TABLE_SIZE: usize = 32;

/// A named semaphore by value.
pub struct SemView {
    pub name: Seq<u8>,
    pub value: u32,
    pub waiters: Seq<Pid>,
    pub reference_count: u32,
    pub is_unlinked: bool,
}

impl View for NamedSemaphore {
    type V = SemView;

    open spec fn view(&self) -> SemView {
        SemView {
            name: self.name@,
            value: self.value,
            waiters: self.waiter_queue@,
            reference_count: self.reference_count,
            is_unlinked: self.is_unlinked,
        }
    }
}

/// The semaphore of a slot, by value.
pub open spec fn sem_slot_view(o: Option<NamedSemaphore>) -> Option<SemView> {
    match o {
        Some(x) => Some(x@),
        None => None,
    }
}

/// The first slot from `i` on holding a semaphore called `name`.
pub open spec fn sem_named_from(s: Seq<Option<SemView>>, name: Seq<u8>, i: int) -> Option<int>
    decreases s.len() - i,
{
    if i < 0 || i >= s.len() {
        None
    } else if s[i] matches Some(v) && v.name == name {
        Some(i)
    } else {
        sem_named_from(s, name, i + 1)
    }
}

/// The first free slot from `i` on.
pub open spec fn sem_free_from(s: Seq<Option<SemView>>, i: int) -> Option<int>
    decreases s.len() - i,
{
    if i < 0 || i >= s.len() {
        None
    } else if s[i] is None {
        Some(i)
    } else {
        sem_free_from(s, i + 1)
    }
}

/// How `sem_open(name, flags, initial)` changes the table and what it
/// returns: EINVAL for an empty or over-long name; an existing semaphore of
/// that name gains a reference (EEXIST under O_CREAT|O_EXCL); otherwise,
/// under O_CREAT, a new one with one reference goes in the first free slot
/// (ENOMEM without one), else ENOENT.
pub open spec fn sem_open_spec(s: Seq<Option<SemView>>, name: Seq<u8>, flags: i32, initial: u32) -> (Seq<Option<SemView>>, Result<usize, i64>) {
    if name.len() == 0 || name.len() > IPC_NAME_MAX_LENGTH {
        (s, Err(-22i64))
    } else {
        match sem_named_from(s, name, 0) {
            Some(i) => if flags & O_CREAT != 0 && flags & O_EXCL != 0 {
                (s, Err(-17i64))
            } else {
                let v = s[i]->Some_0;
                (s.update(i, Some(SemView { reference_count: (v.reference_count + 1) as u32, ..v })), Ok(i as usize))
            },
            None => if flags & O_CREAT == 0 {
                (s, Err(-2i64))
            } else {
                match sem_free_from(s, 0) {
                    Some(k) => (s.update(k, Some(SemView {
                        name,
                        value: initial,
                        waiters: Seq::empty(),
                        reference_count: 1,
                        is_unlinked: false,
                    })), Ok(k as usize)),
                    None => (s, Err(-12i64)),
                }
            },
        }
    }
}

/// The semaphore left after one reference to it closes: the count drops
/// (not below zero) and an unlinked semaphore without references goes.
pub open spec fn sem_after_close(v: SemView) -> Option<SemView> {
    let count: u32 = if v.reference_count > 0 { (v.reference_count - 1) as u32 } else { 0 };
    if v.is_unlinked && count == 0 { None } else { Some(SemView { reference_count: count, ..v }) }
}

/// `sem_trywait` on slot `i`: take a token (0), EAGAIN when there is
/// none, EBADF for an empty slot.
pub open spec fn sem_trywait_spec(s: Seq<Option<SemView>>, i: int) -> (Seq<Option<SemView>>, i64) {
    match s[i] {
        Some(v) => if v.value > 0 {
            (s.update(i, Some(SemView { value: (v.value - 1) as u32, ..v })), 0i64)
        } else {
            (s, -11i64)
        },
        None => (s, -9i64),
    }
}

/// `sem_post` on slot `i`: hand the token to the oldest waiter (to be
/// woken), or with no waiter increment the counter.
pub open spec fn sem_post_spec(s: Seq<Option<SemView>>, i: int) -> (Seq<Option<SemView>>, Option<Pid>) {
    match s[i] {
        Some(v) => if v.waiters.len() > 0 {
            (s.update(i, Some(SemView { waiters: v.waiters.drop_first(), ..v })), Some(v.waiters[0]))
        } else {
            (s.update(i, Some(SemView { value: (v.value + 1) as u32, ..v })), None)
        },
        None => (s, None),
    }
}

/// A token posted to a semaphore nobody waits on is taken again by the
/// next `sem_trywait`, which leaves the table as it was before the post.
pub proof fn lemma_post_then_trywait(s: Seq<Option<SemView>>, i: int)
    requires
        0 <= i < s.len(),
        s[i] matches Some(v) && v.waiters.len() == 0 && v.value < u32::MAX,
    ensures
        sem_trywait_spec(sem_post_spec(s, i).0, i) == (s, 0i64),
{
    let v = s[i]->Some_0;
    let s1 = sem_post_spec(s, i).0;
    assert(s1[i] == Some(SemView { value: (v.value + 1) as u32, ..v }));
    assert(s1.update(i, Some(SemView { value: v.value, ..v })) =~= s);
}

/// The table of named semaphores.
pub struct SemaphoreTable {
    entries: Vec<Option<NamedSemaphore>>,
}

impl SemaphoreTable {
    /// The semaphores, by slot.
    pub closed spec fn spec_sems(&self) -> Seq<Option<SemView>> {
        self.entries@.map_values(|o: Option<NamedSemaphore>| sem_slot_view(o))
    }

    /// `SEMAPHORE_TABLE_SIZE` slots.
    pub closed spec fn wf(&self) -> bool {
        self.entries@.len() == SEMAPHORE_TABLE_SIZE
    }

    /// A table with every slot free.
    pub fn new() -> (t: Self)
        ensures
            t.wf(),
            t.spec_sems() == Seq::new(SEMAPHORE_TABLE_SIZE as nat, |i: int| None::<SemView>),
    {
        let mut entries: Vec<Option<NamedSemaphore>> = Vec::new();
        let mut i: usize = 0;
        while i < SEMAPHORE_TABLE_SIZE
            invariant
                i <= SEMAPHORE_TABLE_SIZE,
                entries@.len() == i,
                forall|k: int| 0 <= k < i ==> entries@[k] is None,
            decreases SEMAPHORE_TABLE_SIZE - i,
        {
            entries.push(None);
            i = i + 1;
        }
        let t = SemaphoreTable { entries };
        assert(t.spec_sems() =~= Seq::new(SEMAPHORE_TABLE_SIZE as nat, |i: int| None::<SemView>));
        t
    }

    /// The slot of the semaphore called `name`.
    pub fn find_by_name(&self, name: &[u8]) -> (r: Option<usize>)
        ensures
            r == (match sem_named_from(self.spec_sems(), name@, 0) {
                Some(i) => Some(i as usize),
                None => None::<usize>,
            }),
    {
        let n = self.entries.len();
        let mut i: usize = 0;
        while i < n
            invariant
                n == self.entries@.len(),
                i <= n,
                sem_named_from(self.spec_sems(), name@, i as int) == sem_named_from(self.spec_sems(), name@, 0),
            decreases n - i,
        {
            let hit = match &self.entries[i] {
                Some(x) => x.name_matches(name),
                None => false,
            };
            if hit {
                return Some(i);
            }
            i = i + 1;
        }
        None
    }

    /// The first free slot.
    fn find_free_slot(&self) -> (r: Option<usize>)
        ensures
            r == (match sem_free_from(self.spec_sems(), 0) {
                Some(i) => Some(i as usize),
                None => None::<usize>,
            }),
    {
        let n = self.entries.len();
        let mut i: usize = 0;
        while i < n
            invariant
                n == self.entries@.len(),
                i <= n,
                sem_free_from(self.spec_sems(), i as int) == sem_free_from(self.spec_sems(), 0),
            decreases n - i,
        {
            if self.entries[i].is_none() {
                return Some(i);
            }
            i = i + 1;
        }
        None
    }

    /// Take the semaphore out of slot `index`.
    fn take_slot(&mut self, index: usize) -> (r: Option<NamedSemaphore>)
        requires
            old(self).wf(),
            index < SEMAPHORE_TABLE_SIZE,
        ensures
            final(self).wf(),
            sem_slot_view(r) == old(self).spec_sems()[index as int],
            final(self).spec_sems() == old(self).spec_sems().update(index as int, None),
    {
        let mut slot = None;
        self.entries.set_and_swap(index, &mut slot);
        proof {
            assert(self.spec_sems() =~= old(self).spec_sems().update(index as int, None));
            assert(old(self).entries@[index as int] == slot);
        }
        slot
    }

    /// Put `sem` in slot `index`.
    fn put_slot(&mut self, index: usize, sem: Option<NamedSemaphore>)
        requires
            old(self).wf(),
            index < SEMAPHORE_TABLE_SIZE,
        ensures
            final(self).wf(),
            final(self).spec_sems() == old(self).spec_sems().update(index as int, sem_slot_view(sem)),
    {
        let ghost v = sem_slot_view(sem);
        self.entries.set(index, sem);
        proof {
            assert(self.spec_sems() =~= old(self).spec_sems().update(index as int, v));
        }
    }

    /// `sem_open` (see `sem_open_spec`): the slot of the semaphore.
    pub fn open(&mut self, name: &[u8], flags: i32, initial_value: u32) -> (r: Result<usize, i64>)
        requires
            old(self).wf(),
            sem_named_from(old(self).spec_sems(), name@, 0) matches Some(i)
                ==> old(self).spec_sems()[i]->Some_0.reference_count < u32::MAX,
        ensures
            final(self).wf(),
            (final(self).spec_sems(), r) == sem_open_spec(old(self).spec_sems(), name@, flags, initial_value),
    {
        if name.len() == 0 || name.len() > IPC_NAME_MAX_LENGTH {
            return Err(-22);
        }
        match self.find_by_name(name) {
            Some(index) => {
                if flags & O_CREAT != 0 && flags & O_EXCL != 0 {
                    return Err(-17);
                }
                proof { lemma_sem_named_in_range(old(self).spec_sems(), name@, 0); }
                let slot = self.take_slot(index);
                match slot {
                    Some(mut sem) => {
                        sem.reference_count = sem.reference_count + 1;
                        self.put_slot(index, Some(sem));
                    },
                    None => {
                        self.put_slot(index, None);
                    },
                }
                assert(self.spec_sems() =~= sem_open_spec(old(self).spec_sems(), name@, flags, initial_value).0);
                Ok(index)
            },
            None => {
                if flags & O_CREAT == 0 {
                    return Err(-2);
                }
                let free = match self.find_free_slot() {
                    Some(i) => i,
                    None => return Err(-12),
                };
                proof { lemma_sem_free_in_range(old(self).spec_sems(), 0); }
                let mut stored: Vec<u8> = Vec::new();
                crate::bytes::push_slice(&mut stored, name);
                let sem = NamedSemaphore {
                    name: stored,
                    value: initial_value,
                    waiter_queue: Vec::new(),
                    reference_count: 1,
                    is_unlinked: false,
                };
                assert(sem.waiter_queue@ =~= Seq::<Pid>::empty());
                self.put_slot(free, Some(sem));
                assert(self.spec_sems() =~= sem_open_spec(old(self).spec_sems(), name@, flags, initial_value).0);
                Ok(free)
            },
        }
    }

    /// Drop one reference to the semaphore at `index` (see
    /// `sem_after_close`).
    pub fn close(&mut self, index: usize)
        requires
            old(self).wf(),
            index < SEMAPHORE_TABLE_SIZE,
        ensures
            final(self).wf(),
            final(self).spec_sems() == (match old(self).spec_sems()[index as int] {
                Some(v) => old(self).spec_sems().update(index as int, sem_after_close(v)),
                None => old(self).spec_sems(),
            }),
    {
        let slot = self.take_slot(index);
        match slot {
            Some(mut sem) => {
                if sem.reference_count > 0 {
                    sem.reference_count = sem.reference_count - 1;
                }
                if sem.is_unlinked && sem.reference_count == 0 {
                    self.put_slot(index, None);
                } else {
                    self.put_slot(index, Some(sem));
                }
            },
            None => {
                self.put_slot(index, None);
            },
        }
        proof {
            assert(self.spec_sems() =~= (match old(self).spec_sems()[index as int] {
                Some(v) => old(self).spec_sems().update(index as int, sem_after_close(v)),
                None => old(self).spec_sems(),
            }));
        }
    }

    /// `sem_trywait` (see `sem_trywait_spec`).
    pub fn trywait(&mut self, index: usize) -> (r: i64)
        requires
            old(self).wf(),
            index < SEMAPHORE_TABLE_SIZE,
        ensures
            final(self).wf(),
            (final(self).spec_sems(), r) == sem_trywait_spec(old(self).spec_sems(), index as int),
    {
        let slot = self.take_slot(index);
        match slot {
            Some(mut sem) => {
                let ok = sem.try_decrement();
                self.put_slot(index, Some(sem));
                if ok {
                    let ghost v = old(self).spec_sems()[index as int]->Some_0;
                    assert(self.spec_sems() =~= old(self).spec_sems().update(index as int,
                        Some(SemView { value: (v.value - 1) as u32, ..v })));
                    0
                } else {
                    assert(self.spec_sems() =~= old(self).spec_sems());
                    -11
                }
            },
            None => {
                self.put_slot(index, None);
                assert(self.spec_sems() =~= old(self).spec_sems());
                -9
            },
        }
    }

    /// `sem_post` (see `sem_post_spec`): the waiter to wake.
    pub fn post(&mut self, index: usize) -> (woken: Option<Pid>)
        requires
            old(self).wf(),
            index < SEMAPHORE_TABLE_SIZE,
            old(self).spec_sems()[index as int] matches Some(v) ==> v.waiters.len() > 0 || v.value < u32::MAX,
        ensures
            final(self).wf(),
            (final(self).spec_sems(), woken) == sem_post_spec(old(self).spec_sems(), index as int),
    {
        let slot = self.take_slot(index);
        match slot {
            Some(mut sem) => {
                let ghost v = sem@;
                let woken = sem.post();
                self.put_slot(index, Some(sem));
                proof {
                    if v.waiters.len() > 0 {
                        assert(self.spec_sems() =~= old(self).spec_sems().update(index as int,
                            Some(SemView { waiters: v.waiters.drop_first(), ..v })));
                    } else {
                        assert(self.spec_sems() =~= old(self).spec_sems().update(index as int,
                            Some(SemView { value: (v.value + 1) as u32, ..v })));
                    }
                }
                woken
            },
            None => {
                self.put_slot(index, None);
                assert(self.spec_sems() =~= old(self).spec_sems());
                None
            },
        }
    }

    /// Queue `pid` as blocked in `sem_wait` on the semaphore at `index`.
    pub fn add_waiter(&mut self, index: usize, pid: Pid)
        requires
            old(self).wf(),
            index < SEMAPHORE_TABLE_SIZE,
        ensures
            final(self).wf(),
            final(self).spec_sems() == (match old(self).spec_sems()[index as int] {
                Some(v) => old(self).spec_sems().update(index as int, Some(SemView { waiters: v.waiters.push(pid), ..v })),
                None => old(self).spec_sems(),
            }),
    {
        let slot = self.take_slot(index);
        match slot {
            Some(mut sem) => {
                sem.waiter_queue.push(pid);
                self.put_slot(index, Some(sem));
            },
            None => {
                self.put_slot(index, None);
            },
        }
        proof {
            assert(self.spec_sems() =~= (match old(self).spec_sems()[index as int] {
                Some(v) => old(self).spec_sems().update(index as int, Some(SemView { waiters: v.waiters.push(pid), ..v })),
                None => old(self).spec_sems(),
            }));
        }
    }

    /// `sem_unlink`: mark the semaphore called `name` for removal (removed
    /// at once without references); EINVAL for a bad name, ENOENT when
    /// there is none.
    pub fn unlink(&mut self, name: &[u8]) -> (r: i64)
        requires
            old(self).wf(),
        ensures
            final(self).wf(),
            name@.len() == 0 || name@.len() > IPC_NAME_MAX_LENGTH ==> r == -22 && final(self).spec_sems() == old(self).spec_sems(),
            !(name@.len() == 0 || name@.len() > IPC_NAME_MAX_LENGTH) ==> match sem_named_from(old(self).spec_sems(), name@, 0) {
                Some(i) => {
                    let v = old(self).spec_sems()[i]->Some_0;
                    r == 0 && final(self).spec_sems() == old(self).spec_sems().update(i,
                        if v.reference_count == 0 { None } else { Some(SemView { is_unlinked: true, ..v }) })
                },
                None => r == -2 && final(self).spec_sems() == old(self).spec_sems(),
            },
    {
        if name.len() == 0 || name.len() > IPC_NAME_MAX_LENGTH {
            return -22;
        }
        let index = match self.find_by_name(name) {
            Some(i) => i,
            None => return -2,
        };
        proof { lemma_sem_named_in_range(old(self).spec_sems(), name@, 0); }
        let slot = self.take_slot(index);
        match slot {
            Some(mut sem) => {
                sem.is_unlinked = true;
                if sem.reference_count == 0 {
                    self.put_slot(index, None);
                } else {
                    self.put_slot(index, Some(sem));
                }
            },
            None => {
                self.put_slot(index, None);
            },
        }
        proof {
            let v = old(self).spec_sems()[index as int]->Some_0;
            assert(self.spec_sems() =~= old(self).spec_sems().update(index as int,
                if v.reference_count == 0 { None } else { Some(SemView { is_unlinked: true, ..v }) }));
        }
        0
    }

    /// `sem_getvalue`: the counter of the semaphore at `index`.
    pub fn getvalue(&self, index: usize) -> (r: Option<u32>)
        requires
            self.wf(),
            index < SEMAPHORE_TABLE_SIZE,
        ensures
            r == (match self.spec_sems()[index as int] {
                Some(v) => Some(v.value),
                None => None::<u32>,
            }),
    {
        match &self.entries[index] {
            Some(sem) => Some(sem.value),
            None => None,
        }
    }
}

/// Number of message queues the kernel can have.
pub const MESSAGE_QUEUE_TABLE_SIZE: usize = 16;
/// Default and largest number of queued messages.
pub const MESSAGE_QUEUE_DEFAULT_MAX_MESSAGES: usize = 16;
/// Default and largest message size.
pub const MESSAGE_QUEUE_DEFAULT_MAX_MESSAGE_SIZE: usize = 1024;

/// The limits of a new queue from the `mq_attr` given (its `mq_maxmsg` and
/// `mq_msgsize`), each taken when it is positive and at most the default,
/// else the default.
pub open spec fn queue_limits_of(attr: Option<(i64, i64)>) -> (usize, usize) {
    match attr {
        Some((maxmsg, msgsize)) => (
            if 0 < maxmsg <= MESSAGE_QUEUE_DEFAULT_MAX_MESSAGES { maxmsg as usize } else { MESSAGE_QUEUE_DEFAULT_MAX_MESSAGES },
            if 0 < msgsize <= MESSAGE_QUEUE_DEFAULT_MAX_MESSAGE_SIZE { msgsize as usize } else { MESSAGE_QUEUE_DEFAULT_MAX_MESSAGE_SIZE },
        ),
        None => (MESSAGE_QUEUE_DEFAULT_MAX_MESSAGES, MESSAGE_QUEUE_DEFAULT_MAX_MESSAGE_SIZE),
    }
}

/// The limits of a new queue (see `queue_limits_of`).
pub fn queue_limits(attr: Option<(i64, i64)>) -> (r: (usize, usize))
    ensures
        r == queue_limits_of(attr),
{
    match attr {
        Some((maxmsg, msgsize)) => (
            if 0 < maxmsg && maxmsg <= MESSAGE_QUEUE_DEFAULT_MAX_MESSAGES as i64 { maxmsg as usize } else { MESSAGE_QUEUE_DEFAULT_MAX_MESSAGES },
            if 0 < msgsize && msgsize <= MESSAGE_QUEUE_DEFAULT_MAX_MESSAGE_SIZE as i64 { msgsize as usize } else { MESSAGE_QUEUE_DEFAULT_MAX_MESSAGE_SIZE },
        ),
        None => (MESSAGE_QUEUE_DEFAULT_MAX_MESSAGES, MESSAGE_QUEUE_DEFAULT_MAX_MESSAGE_SIZE),
    }
}

/// The queue of a slot, by value.
pub open spec fn mq_slot_view(o: Option<MessageQueue>) -> Option<MqView> {
    match o {
        Some(x) => Some(x@),
        None => None,
    }
}

/// The first slot from `i` on holding a queue called `name`.
pub open spec fn mq_named_from(s: Seq<Option<MqView>>, name: Seq<u8>, i: int) -> Option<int>
    decreases s.len() - i,
{
    if i < 0 || i >= s.len() {
        None
    } else if s[i] matches Some(v) && v.name == name {
        Some(i)
    } else {
        mq_named_from(s, name, i + 1)
    }
}

/// The first free slot from `i` on.
pub open spec fn mq_free_from(s: Seq<Option<MqView>>, i: int) -> Option<int>
    decreases s.len() - i,
{
    if i < 0 || i >= s.len() {
        None
    } else if s[i] is None {
        Some(i)
    } else {
        mq_free_from(s, i + 1)
    }
}

/// How `mq_open(name, flags, attr)` changes the table and what it returns,
/// as `sem_open_spec` does for semaphores; a new queue has the limits of
/// `queue_limits_of(attr)`.
pub open spec fn mq_open_spec(s: Seq<Option<MqView>>, name: Seq<u8>, flags: i32, attr: Option<(i64, i64)>) -> (Seq<Option<MqView>>, Result<usize, i64>) {
    if name.len() == 0 || name.len() > IPC_NAME_MAX_LENGTH {
        (s, Err(-22i64))
    } else {
        match mq_named_from(s, name, 0) {
            Some(i) => if flags & O_CREAT != 0 && flags & O_EXCL != 0 {
                (s, Err(-17i64))
            } else {
                let v = s[i]->Some_0;
                (s.update(i, Some(MqView { reference_count: (v.reference_count + 1) as u32, ..v })), Ok(i as usize))
            },
            None => if flags & O_CREAT == 0 {
                (s, Err(-2i64))
            } else {
                match mq_free_from(s, 0) {
                    Some(k) => (s.update(k, Some(fresh_queue(name, queue_limits_of(attr).0, queue_limits_of(attr).1))), Ok(k as usize)),
                    None => (s, Err(-12i64)),
                }
            },
        }
    }
}

/// The queue after one reference closes: the count drops (not below zero)
/// and an unlinked queue without references goes.
pub open spec fn mq_after_close(v: MqView) -> Option<MqView> {
    let count: u32 = if v.reference_count > 0 { (v.reference_count - 1) as u32 } else { 0 };
    if count == 0 && v.is_unlinked { None } else { Some(MqView { reference_count: count, ..v }) }
}

/// `v` with a message of priority `p` and payload `d` queued.
pub open spec fn with_message(v: MqView, p: u32, d: Seq<u8>) -> MqView {
    let at = insert_position(v.priorities, p);
    MqView { priorities: v.priorities.insert(at, p), payloads: v.payloads.insert(at, d), ..v }
}

/// The outcome of one attempt to receive from a queue.
pub enum MqReceive {
    /// The front message, and the sender to wake.
    Received { message: Message, wake: Option<Pid> },
    /// The front message is longer than the buffer (EMSGSIZE); it was
    /// queued again.
    TooSmall,
    /// Nothing queued: the caller blocks and retries.
    Empty,
    /// The slot is empty (EBADF).
    NoQueue,
}

/// The table of message queues.
pub struct MessageQueueTable {
    entries: Vec<Option<MessageQueue>>,
}

impl MessageQueueTable {
    /// The queues, by slot.
    pub closed spec fn spec_queues(&self) -> Seq<Option<MqView>> {
        self.entries@.map_values(|o: Option<MessageQueue>| mq_slot_view(o))
    }

    /// `MESSAGE_QUEUE_TABLE_SIZE` slots; each queue ordered by priority.
    pub closed spec fn wf(&self) -> bool {
        &&& self.entries@.len() == MESSAGE_QUEUE_TABLE_SIZE
        &&& forall|i: int| 0 <= i < self.entries@.len() ==> (#[trigger] self.entries@[i] matches Some(q) ==> q.wf())
    }

    /// A table with every slot free.
    pub fn new() -> (t: Self)
        ensures
            t.wf(),
            t.spec_queues() == Seq::new(MESSAGE_QUEUE_TABLE_SIZE as nat, |i: int| None::<MqView>),
    {
        let mut entries: Vec<Option<MessageQueue>> = Vec::new();
        let mut i: usize = 0;
        while i < MESSAGE_QUEUE_TABLE_SIZE
            invariant
                i <= MESSAGE_QUEUE_TABLE_SIZE,
                entries@.len() == i,
                forall|k: int| 0 <= k < i ==> entries@[k] is None,
            decreases MESSAGE_QUEUE_TABLE_SIZE - i,
        {
            entries.push(None);
            i = i + 1;
        }
        let t = MessageQueueTable { entries };
        assert(t.spec_queues() =~= Seq::new(MESSAGE_QUEUE_TABLE_SIZE as nat, |i: int| None::<MqView>));
        t
    }

    /// The slot of the queue called `name`.
    pub fn find_by_name(&self, name: &[u8]) -> (r: Option<usize>)
        ensures
            r == (match mq_named_from(self.spec_queues(), name@, 0) {
                Some(i) => Some(i as usize),
                None => None::<usize>,
            }),
    {
        let n = self.entries.len();
        let mut i: usize = 0;
        while i < n
            invariant
                n == self.entries@.len(),
                i <= n,
                mq_named_from(self.spec_queues(), name@, i as int) == mq_named_from(self.spec_queues(), name@, 0),
            decreases n - i,
        {
            let hit = match &self.entries[i] {
                Some(x) => x.name_matches(name),
                None => false,
            };
            if hit {
                return Some(i);
            }
            i = i + 1;
        }
        None
    }

    /// The first free slot.
    fn find_free_slot(&self) -> (r: Option<usize>)
        ensures
            r == (match mq_free_from(self.spec_queues(), 0) {
                Some(i) => Some(i as usize),
                None => None::<usize>,
            }),
    {
        let n = self.entries.len();
        let mut i: usize = 0;
        while i < n
            invariant
                n == self.entries@.len(),
                i <= n,
                mq_free_from(self.spec_queues(), i as int) == mq_free_from(self.spec_queues(), 0),
            decreases n - i,
        {
            if self.entries[i].is_none() {
                return Some(i);
            }
            i = i + 1;
        }
        None
    }

    /// Take the queue out of slot `index`.
    fn take_slot(&mut self, index: usize) -> (r: Option<MessageQueue>)
        requires
            old(self).wf(),
            index < MESSAGE_QUEUE_TABLE_SIZE,
        ensures
            final(self).wf(),
            mq_slot_view(r) == old(self).spec_queues()[index as int],
            final(self).spec_queues() == old(self).spec_queues().update(index as int, None),
            r matches Some(q) ==> q.wf(),
    {
        let mut slot = None;
        self.entries.set_and_swap(index, &mut slot);
        proof {
            assert(self.spec_queues() =~= old(self).spec_queues().update(index as int, None));
            assert(old(self).entries@[index as int] == slot);
        }
        slot
    }

    /// Put `queue` in slot `index`.
    fn put_slot(&mut self, index: usize, queue: Option<MessageQueue>)
        requires
            old(self).wf(),
            index < MESSAGE_QUEUE_TABLE_SIZE,
            queue matches Some(q) ==> q.wf(),
        ensures
            final(self).wf(),
            final(self).spec_queues() == old(self).spec_queues().update(index as int, mq_slot_view(queue)),
    {
        let ghost v = mq_slot_view(queue);
        self.entries.set(index, queue);
        proof {
            assert(self.spec_queues() =~= old(self).spec_queues().update(index as int, v));
        }
    }

    /// `mq_open` (see `mq_open_spec`): the slot of the queue.
    pub fn open(&mut self, name: &[u8], flags: i32, attr: Option<(i64, i64)>) -> (r: Result<usize, i64>)
        requires
            old(self).wf(),
            mq_named_from(old(self).spec_queues(), name@, 0) matches Some(i)
                ==> old(self).spec_queues()[i]->Some_0.reference_count < u32::MAX,
        ensures
            final(self).wf(),
            (final(self).spec_queues(), r) == mq_open_spec(old(self).spec_queues(), name@, flags, attr),
    {
        if name.len() == 0 || name.len() > IPC_NAME_MAX_LENGTH {
            return Err(-22);
        }
        match self.find_by_name(name) {
            Some(index) => {
                if flags & O_CREAT != 0 && flags & O_EXCL != 0 {
                    return Err(-17);
                }
                proof { lemma_mq_named_in_range(old(self).spec_queues(), name@, 0); }
                let slot = self.take_slot(index);
                match slot {
                    Some(mut q) => {
                        q.reference_count = q.reference_count + 1;
                        self.put_slot(index, Some(q));
                    },
                    None => {
                        self.put_slot(index, None);
                    },
                }
                assert(self.spec_queues() =~= mq_open_spec(old(self).spec_queues(), name@, flags, attr).0);
                Ok(index)
            },
            None => {
                if flags & O_CREAT == 0 {
                    return Err(-2);
                }
                let free = match self.find_free_slot() {
                    Some(i) => i,
                    None => return Err(-12),
                };
                proof { lemma_mq_free_in_range(old(self).spec_queues(), 0); }
                let (max_messages, max_message_size) = queue_limits(attr);
                let mut stored: Vec<u8> = Vec::new();
                crate::bytes::push_slice(&mut stored, name);
                let q = MessageQueue::new(stored, max_messages, max_message_size);
                self.put_slot(free, Some(q));
                assert(self.spec_queues() =~= mq_open_spec(old(self).spec_queues(), name@, flags, attr).0);
                Ok(free)
            },
        }
    }

    /// Drop one reference to the queue at `index` (see `mq_after_close`).
    pub fn close(&mut self, index: usize)
        requires
            old(self).wf(),
            index < MESSAGE_QUEUE_TABLE_SIZE,
        ensures
            final(self).wf(),
            final(self).spec_queues() == (match old(self).spec_queues()[index as int] {
                Some(v) => old(self).spec_queues().update(index as int, mq_after_close(v)),
                None => old(self).spec_queues(),
            }),
    {
        let slot = self.take_slot(index);
        match slot {
            Some(mut q) => {
                if q.reference_count > 0 {
                    q.reference_count = q.reference_count - 1;
                }
                if q.reference_count == 0 && q.is_unlinked {
                    self.put_slot(index, None);
                } else {
                    self.put_slot(index, Some(q));
                }
            },
            None => {
                self.put_slot(index, None);
            },
        }
        proof {
            assert(self.spec_queues() =~= (match old(self).spec_queues()[index as int] {
                Some(v) => old(self).spec_queues().update(index as int, mq_after_close(v)),
                None => old(self).spec_queues(),
            }));
        }
    }

    /// Before sending `length` bytes to the queue at `index`: EBADF for an
    /// empty slot, EMSGSIZE above the queue's message size.
    pub fn send_check(&self, index: usize, length: usize) -> (r: Result<(), i64>)
        requires
            self.wf(),
            index < MESSAGE_QUEUE_TABLE_SIZE,
        ensures
            r == (match self.spec_queues()[index as int] {
                Some(v) => if length > v.max_message_size { Err(-90i64) } else { Ok(()) },
                None => Err(-9i64),
            }),
    {
        match &self.entries[index] {
            Some(q) => if length > q.max_message_size { Err(-90) } else { Ok(()) },
            None => Err(-9),
        }
    }

    /// The queue at `index` is full (an empty slot counts as full).
    pub fn is_full(&self, index: usize) -> (b: bool)
        requires
            self.wf(),
            index < MESSAGE_QUEUE_TABLE_SIZE,
        ensures
            b == (match self.spec_queues()[index as int] {
                Some(v) => v.priorities.len() >= v.max_messages,
                None => true,
            }),
    {
        match &self.entries[index] {
            Some(q) => q.is_full(),
            None => true,
        }
    }

    /// Queue `message` on the queue at `index` by priority and hand back
    /// the receiver to wake.
    pub fn send(&mut self, index: usize, message: Message) -> (woken: Option<Pid>)
        requires
            old(self).wf(),
            index < MESSAGE_QUEUE_TABLE_SIZE,
        ensures
            final(self).wf(),
            match old(self).spec_queues()[index as int] {
                Some(v) => {
                    let w = with_message(v, message.priority, message.data@);
                    if v.receive_waiters.len() > 0 {
                        woken == Some(v.receive_waiters[0]) && final(self).spec_queues() == old(self).spec_queues().update(
                            index as int, Some(MqView { receive_waiters: v.receive_waiters.drop_first(), ..w }))
                    } else {
                        woken is None && final(self).spec_queues() == old(self).spec_queues().update(index as int, Some(w))
                    }
                },
                None => woken is None && final(self).spec_queues() == old(self).spec_queues(),
            },
    {
        let slot = self.take_slot(index);
        match slot {
            Some(mut q) => {
                let ghost v = q@;
                q.enqueue(message);
                let woken = if q.receive_waiters.len() > 0 { Some(q.receive_waiters.remove(0)) } else { None };
                proof {
                    if v.receive_waiters.len() > 0 {
                        assert(q.receive_waiters@ =~= v.receive_waiters.drop_first());
                    }
                }
                self.put_slot(index, Some(q));
                proof {
                    let w = with_message(v, message.priority, message.data@);
                    if v.receive_waiters.len() > 0 {
                        assert(self.spec_queues() =~= old(self).spec_queues().update(
                            index as int, Some(MqView { receive_waiters: v.receive_waiters.drop_first(), ..w })));
                    } else {
                        assert(self.spec_queues() =~= old(self).spec_queues().update(index as int, Some(w)));
                    }
                }
                woken
            },
            None => {
                self.put_slot(index, None);
                assert(self.spec_queues() =~= old(self).spec_queues());
                None
            },
        }
    }

    /// One attempt of `mq_receive` into a buffer of `buffer_length` bytes on
    /// the queue at `index`: the front message (waking a sender), or
    /// `TooSmall` when it does not fit (it is queued again by priority),
    /// `Empty` when nothing is queued, `NoQueue` for an empty slot.
    pub fn receive_step(&mut self, index: usize, buffer_length: usize) -> (r: MqReceive)
        requires
            old(self).wf(),
            index < MESSAGE_QUEUE_TABLE_SIZE,
        ensures
            final(self).wf(),
            match old(self).spec_queues()[index as int] {
                None => r is NoQueue && final(self).spec_queues() == old(self).spec_queues(),
                Some(v) => if v.priorities.len() == 0 {
                    r is Empty && final(self).spec_queues() == old(self).spec_queues()
                } else {
                    let rest = MqView { priorities: v.priorities.drop_first(), payloads: v.payloads.drop_first(), ..v };
                    if buffer_length < v.payloads[0].len() {
                        r is TooSmall && final(self).spec_queues() == old(self).spec_queues().update(index as int,
                            Some(with_message(rest, v.priorities[0], v.payloads[0])))
                    } else {
                        &&& r matches MqReceive::Received { message, wake }
                        &&& message.priority == v.priorities[0] && message.data@ == v.payloads[0]
                        &&& if v.send_waiters.len() > 0 {
                            wake == Some(v.send_waiters[0]) && final(self).spec_queues() == old(self).spec_queues().update(
                                index as int, Some(MqView { send_waiters: v.send_waiters.drop_first(), ..rest }))
                        } else {
                            wake is None && final(self).spec_queues() == old(self).spec_queues().update(index as int, Some(rest))
                        }
                    }
                },
            },
    {
        let slot = self.take_slot(index);
        match slot {
            Some(mut q) => {
                let ghost v = q@;
                match q.dequeue() {
                    Some(message) => {
                        let ghost rest = q@;
                        if buffer_length < message.data.len() {
                            q.enqueue(message);
                            self.put_slot(index, Some(q));
                            assert(self.spec_queues() =~= old(self).spec_queues().update(index as int,
                                Some(with_message(rest, v.priorities[0], v.payloads[0]))));
                            MqReceive::TooSmall
                        } else {
                            let wake = if q.send_waiters.len() > 0 { Some(q.send_waiters.remove(0)) } else { None };
                            proof {
                                if v.send_waiters.len() > 0 {
                                    assert(q.send_waiters@ =~= v.send_waiters.drop_first());
                                }
                            }
                            self.put_slot(index, Some(q));
                            proof {
                                if v.send_waiters.len() > 0 {
                                    assert(self.spec_queues() =~= old(self).spec_queues().update(
                                        index as int, Some(MqView { send_waiters: v.send_waiters.drop_first(), ..rest })));
                                } else {
                                    assert(self.spec_queues() =~= old(self).spec_queues().update(index as int, Some(rest)));
                                }
                            }
                            MqReceive::Received { message, wake }
                        }
                    },
                    None => {
                        assert(q@.priorities =~= v.priorities);
                        assert(q@.payloads =~= v.payloads);
                        self.put_slot(index, Some(q));
                        assert(self.spec_queues() =~= old(self).spec_queues());
                        MqReceive::Empty
                    },
                }
            },
            None => {
                self.put_slot(index, None);
                assert(self.spec_queues() =~= old(self).spec_queues());
                MqReceive::NoQueue
            },
        }
    }

    /// Queue `pid` as blocked sending (`on_send`) or receiving on the
    /// queue at `index`.
    pub fn add_waiter(&mut self, index: usize, pid: Pid, on_send: bool)
        requires
            old(self).wf(),
            index < MESSAGE_QUEUE_TABLE_SIZE,
        ensures
            final(self).wf(),
            final(self).spec_queues() == (match old(self).spec_queues()[index as int] {
                Some(v) => old(self).spec_queues().update(index as int, Some(if on_send {
                    MqView { send_waiters: v.send_waiters.push(pid), ..v }
                } else {
                    MqView { receive_waiters: v.receive_waiters.push(pid), ..v }
                })),
                None => old(self).spec_queues(),
            }),
    {
        let slot = self.take_slot(index);
        match slot {
            Some(mut q) => {
                if on_send {
                    q.send_waiters.push(pid);
                } else {
                    q.receive_waiters.push(pid);
                }
                self.put_slot(index, Some(q));
            },
            None => {
                self.put_slot(index, None);
            },
        }
        proof {
            assert(self.spec_queues() =~= (match old(self).spec_queues()[index as int] {
                Some(v) => old(self).spec_queues().update(index as int, Some(if on_send {
                    MqView { send_waiters: v.send_waiters.push(pid), ..v }
                } else {
                    MqView { receive_waiters: v.receive_waiters.push(pid), ..v }
                })),
                None => old(self).spec_queues(),
            }));
        }
    }

    /// `mq_unlink`: mark the queue called `name` for removal (removed at
    /// once without references); EINVAL for a bad name, ENOENT when there
    /// is none.
    pub fn unlink(&mut self, name: &[u8]) -> (r: i64)
        requires
            old(self).wf(),
        ensures
            final(self).wf(),
            name@.len() == 0 || name@.len() > IPC_NAME_MAX_LENGTH ==> r == -22 && final(self).spec_queues() == old(self).spec_queues(),
            !(name@.len() == 0 || name@.len() > IPC_NAME_MAX_LENGTH) ==> match mq_named_from(old(self).spec_queues(), name@, 0) {
                Some(i) => {
                    let v = old(self).spec_queues()[i]->Some_0;
                    r == 0 && final(self).spec_queues() == old(self).spec_queues().update(i,
                        if v.reference_count == 0 { None } else { Some(MqView { is_unlinked: true, ..v }) })
                },
                None => r == -2 && final(self).spec_queues() == old(self).spec_queues(),
            },
    {
        if name.len() == 0 || name.len() > IPC_NAME_MAX_LENGTH {
            return -22;
        }
        let index = match self.find_by_name(name) {
            Some(i) => i,
            None => return -2,
        };
        proof { lemma_mq_named_in_range(old(self).spec_queues(), name@, 0); }
        let slot = self.take_slot(index);
        match slot {
            Some(mut q) => {
                q.is_unlinked = true;
                if q.reference_count == 0 {
                    self.put_slot(index, None);
                } else {
                    self.put_slot(index, Some(q));
                }
            },
            None => {
                self.put_slot(index, None);
            },
        }
        proof {
            let v = old(self).spec_queues()[index as int]->Some_0;
            assert(self.spec_queues() =~= old(self).spec_queues().update(index as int,
                if v.reference_count == 0 { None } else { Some(MqView { is_unlinked: true, ..v }) }));
        }
        0
    }

    /// `mq_getattr`: the queue's message limit, message size and number of
    /// queued messages.
    pub fn getattr(&self, index: usize) -> (r: Option<(usize, usize, usize)>)
        requires
            self.wf(),
            index < MESSAGE_QUEUE_TABLE_SIZE,
        ensures
            r == (match self.spec_queues()[index as int] {
                Some(v) => Some((v.max_messages, v.max_message_size, v.priorities.len() as usize)),
                None => None::<(usize, usize, usize)>,
            }),
    {
        match &self.entries[index] {
            Some(q) => Some((q.max_messages, q.max_message_size, q.message_count())),
            None => None,
        }
    }
}

/// A queued message goes behind every message of at least its priority
/// and ahead of every message of lower priority: within a priority,
/// messages leave in the order they came.
pub proof fn lemma_priority_then_arrival(ps: Seq<u32>, p: u32)
    requires
        by_priority(ps),
    ensures
        0 <= insert_position(ps, p) <= ps.len(),
        forall|i: int| 0 <= i < insert_position(ps, p) ==> ps[i] >= p,
        forall|i: int| insert_position(ps, p) <= i < ps.len() ==> ps[i] < p,
    decreases ps.len(),
{
    if ps.len() > 0 && ps[0] >= p {
        let t = ps.drop_first();
        assert forall|i: int, j: int| 0 <= i < j < t.len() implies t[i] >= t[j] by {
            assert(ps[i + 1] >= ps[j + 1]);
        }
        lemma_priority_then_arrival(t, p);
        assert forall|i: int| 0 <= i < insert_position(ps, p) implies ps[i] >= p by {
            if i > 0 {
                assert(ps[i] == t[i - 1]);
            }
        }
        assert forall|i: int| insert_position(ps, p) <= i < ps.len() implies ps[i] < p by {
            assert(ps[i] == t[i - 1]);
        }
    } else if ps.len() > 0 {
        assert forall|i: int| 0 <= i < ps.len() implies ps[i] < p by {
            assert(ps[0] >= ps[i] || i == 0);
        }
    }
}

proof fn lemma_mq_named_in_range(s: Seq<Option<MqView>>, name: Seq<u8>, i: int)
    requires
        0 <= i,
    ensures
        mq_named_from(s, name, i) matches Some(k) ==> (i <= k < s.len() && (s[k] matches Some(v) && v.name == name)),
    decreases s.len() - i,
{
    if i < s.len() && !(s[i] matches Some(v) && v.name == name) {
        lemma_mq_named_in_range(s, name, i + 1);
    }
}

proof fn lemma_mq_free_in_range(s: Seq<Option<MqView>>, i: int)
    requires
        0 <= i,
    ensures
        mq_free_from(s, i) matches Some(k) ==> i <= k < s.len() && s[k] is None,
    decreases s.len() - i,
{
    if i < s.len() && s[i] is Some {
        lemma_mq_free_in_range(s, i + 1);
    }
}

proof fn lemma_sem_named_in_range(s: Seq<Option<SemView>>, name: Seq<u8>, i: int)
    requires
        0 <= i,
    ensures
        sem_named_from(s, name, i) matches Some(k) ==> (i <= k < s.len() && (s[k] matches Some(v) && v.name == name)),
    decreases s.len() - i,
{
    if i < s.len() && !(s[i] matches Some(v) && v.name == name) {
        lemma_sem_named_in_range(s, name, i + 1);
    }
}

proof fn lemma_sem_free_in_range(s: Seq<Option<SemView>>, i: int)
    requires
        0 <= i,
    ensures
        sem_free_from(s, i) matches Some(k) ==> i <= k < s.len() && s[k] is None,
    decreases s.len() - i,
{
    if i < s.len() && s[i] is Some {
        lemma_sem_free_in_range(s, i + 1);
    }
}

/// A name held by some slot is found by the search from any slot at or
/// before it.
proof fn lemma_mq_named_found(s: Seq<Option<MqView>>, name: Seq<u8>, j: int, i: int)
    requires
        0 <= j <= i < s.len(),
        s[i] matches Some(v) && v.name == name,
    ensures
        mq_named_from(s, name, j) is Some,
    decreases i - j,
{
    if !(s[j] matches Some(v) && v.name == name) {
        lemma_mq_named_found(s, name, j + 1, i);
    }
}

/// A name held by some slot is found by the search from any slot at or
/// before it.
proof fn lemma_sem_named_found(s: Seq<Option<SemView>>, name: Seq<u8>, j: int, i: int)
    requires
        0 <= j <= i < s.len(),
        s[i] matches Some(v) && v.name == name,
    ensures
        sem_named_from(s, name, j) is Some,
    decreases i - j,
{
    if !(s[j] matches Some(v) && v.name == name) {
        lemma_sem_named_found(s, name, j + 1, i);
    }
}

/// `mq_open` of a valid name that a queue already has: with both O_CREAT
/// (64) and O_EXCL (128) it fails with EEXIST (-17) and changes nothing;
/// otherwise it returns the slot of a queue with that name, whose
/// reference count goes up by one, every other slot unchanged.
pub proof fn lemma_mq_open_existing(s: Seq<Option<MqView>>, name: Seq<u8>, flags: i32, attr: Option<(i64, i64)>, i: int)
    requires
        0 <= i < s.len() <= usize::MAX,
        s[i] matches Some(v) && v.name == name,
        1 <= name.len() <= 64,
    ensures
        flags & 64 != 0 && flags & 128 != 0 ==> mq_open_spec(s, name, flags, attr) == (s, Err::<usize, i64>(-17i64)),
        !(flags & 64 != 0 && flags & 128 != 0) ==> ({
            let (s2, r) = mq_open_spec(s, name, flags, attr);
            let k = r->Ok_0 as int;
            let v = s[k]->Some_0;
            &&& r is Ok && 0 <= k < s.len() && s[k] is Some && v.name == name
            &&& s2.len() == s.len()
            &&& s2[k] == Some(MqView { reference_count: (v.reference_count + 1) as u32, ..v })
            &&& forall|j: int| 0 <= j < s.len() && j != k ==> s2[j] == s[j]
        }),
{
    lemma_mq_named_found(s, name, 0, i);
    lemma_mq_named_in_range(s, name, 0);
}

/// `sem_open` of a valid name that a semaphore already has: with both
/// O_CREAT (64) and O_EXCL (128) it fails with EEXIST (-17) and changes
/// nothing; otherwise it returns the slot of a semaphore with that name,
/// whose reference count goes up by one, every other slot unchanged.
pub proof fn lemma_sem_open_existing(s: Seq<Option<SemView>>, name: Seq<u8>, flags: i32, initial: u32, i: int)
    requires
        0 <= i < s.len() <= usize::MAX,
        s[i] matches Some(v) && v.name == name,
        1 <= name.len() <= 64,
    ensures
        flags & 64 != 0 && flags & 128 != 0 ==> sem_open_spec(s, name, flags, initial) == (s, Err::<usize, i64>(-17i64)),
        !(flags & 64 != 0 && flags & 128 != 0) ==> ({
            let (s2, r) = sem_open_spec(s, name, flags, initial);
            let k = r->Ok_0 as int;
            let v = s[k]->Some_0;
            &&& r is Ok && 0 <= k < s.len() && s[k] is Some && v.name == name
            &&& s2.len() == s.len()
            &&& s2[k] == Some(SemView { reference_count: (v.reference_count + 1) as u32, ..v })
            &&& forall|j: int| 0 <= j < s.len() && j != k ==> s2[j] == s[j]
        }),
{
    lemma_sem_named_found(s, name, 0, i);
    lemma_sem_named_in_range(s, name, 0);
}

/// Without a slot named `name` from `j` on, the search from `j` finds none.
proof fn lemma_mq_named_absent(s: Seq<Option<MqView>>, name: Seq<u8>, j: int)
    requires
        0 <= j,
        forall|k: int| j <= k < s.len() ==> !(#[trigger] s[k] matches Some(v) && v.name == name),
    ensures
        mq_named_from(s, name, j) is None,
    decreases s.len() - j,
{
    if j < s.len() {
        lemma_mq_named_absent(s, name, j + 1);
    }
}

/// The free-slot search from `j` gives the first empty slot at or after
/// `j`, and none when every slot from `j` on is taken.
proof fn lemma_mq_free_first(s: Seq<Option<MqView>>, j: int)
    requires
        0 <= j,
    ensures
        mq_free_from(s, j) matches Some(k) ==> j <= k < s.len() && s[k] is None
            && forall|m: int| j <= m < k ==> #[trigger] s[m] is Some,
        mq_free_from(s, j) is None ==> forall|m: int| j <= m < s.len() ==> #[trigger] s[m] is Some,
    decreases s.len() - j,
{
    if j < s.len() && s[j] is Some {
        lemma_mq_free_first(s, j + 1);
    }
}

/// Without a slot named `name` from `j` on, the search from `j` finds none.
proof fn lemma_sem_named_absent(s: Seq<Option<SemView>>, name: Seq<u8>, j: int)
    requires
        0 <= j,
        forall|k: int| j <= k < s.len() ==> !(#[trigger] s[k] matches Some(v) && v.name == name),
    ensures
        sem_named_from(s, name, j) is None,
    decreases s.len() - j,
{
    if j < s.len() {
        lemma_sem_named_absent(s, name, j + 1);
    }
}

/// The free-slot search from `j` gives the first empty slot at or after
/// `j`, and none when every slot from `j` on is taken.
proof fn lemma_sem_free_first(s: Seq<Option<SemView>>, j: int)
    requires
        0 <= j,
    ensures
        sem_free_from(s, j) matches Some(k) ==> j <= k < s.len() && s[k] is None
            && forall|m: int| j <= m < k ==> #[trigger] s[m] is Some,
        sem_free_from(s, j) is None ==> forall|m: int| j <= m < s.len() ==> #[trigger] s[m] is Some,
    decreases s.len() - j,
{
    if j < s.len() && s[j] is Some {
        lemma_sem_free_first(s, j + 1);
    }
}

/// `mq_open` of a name that no queue has: an empty or over-long name is
/// EINVAL (-22); without O_CREAT (64) it is ENOENT (-2); with it, a new
/// empty queue called `name` with one reference and the limits asked for
/// goes into the first free slot, whose index is returned, every other
/// slot unchanged, or ENOMEM (-12) when every slot is taken.  Failures
/// leave the table as it was.
pub proof fn lemma_mq_open_new(s: Seq<Option<MqView>>, name: Seq<u8>, flags: i32, attr: Option<(i64, i64)>)
    requires
        s.len() <= usize::MAX,
        forall|k: int| 0 <= k < s.len() ==> !(#[trigger] s[k] matches Some(v) && v.name == name),
    ensures
        (name.len() == 0 || name.len() > 64) ==> mq_open_spec(s, name, flags, attr) == (s, Err::<usize, i64>(-22i64)),
        1 <= name.len() <= 64 && flags & 64 == 0 ==> mq_open_spec(s, name, flags, attr) == (s, Err::<usize, i64>(-2i64)),
        1 <= name.len() <= 64 && flags & 64 != 0 ==> ({
            let (s2, r) = mq_open_spec(s, name, flags, attr);
            let k = r->Ok_0 as int;
            if forall|m: int| 0 <= m < s.len() ==> #[trigger] s[m] is Some {
                s2 == s && r == Err::<usize, i64>(-12i64)
            } else {
                &&& r is Ok && 0 <= k < s.len() && s[k] is None
                &&& forall|m: int| 0 <= m < k ==> #[trigger] s[m] is Some
                &&& s2.len() == s.len()
                &&& s2[k] matches Some(q) && q.name == name && q.reference_count == 1 && !q.is_unlinked
                    && q.priorities.len() == 0 && q.payloads.len() == 0
                    && q.receive_waiters.len() == 0 && q.send_waiters.len() == 0
                    && (q.max_messages, q.max_message_size) == queue_limits_of(attr)
                &&& forall|j: int| 0 <= j < s.len() && j != k ==> s2[j] == s[j]
            }
        }),
{
    lemma_mq_named_absent(s, name, 0);
    lemma_mq_free_first(s, 0);
}

/// `sem_open` of a name that no semaphore has: an empty or over-long name
/// is EINVAL (-22); without O_CREAT (64) it is ENOENT (-2); with it, a new
/// semaphore called `name` holding `initial`, with one reference and no
/// waiters, goes into the first free slot, whose index is returned, every
/// other slot unchanged, or ENOMEM (-12) when every slot is taken.
/// Failures leave the table as it was.
pub proof fn lemma_sem_open_new(s: Seq<Option<SemView>>, name: Seq<u8>, flags: i32, initial: u32)
    requires
        s.len() <= usize::MAX,
        forall|k: int| 0 <= k < s.len() ==> !(#[trigger] s[k] matches Some(v) && v.name == name),
    ensures
        (name.len() == 0 || name.len() > 64) ==> sem_open_spec(s, name, flags, initial) == (s, Err::<usize, i64>(-22i64)),
        1 <= name.len() <= 64 && flags & 64 == 0 ==> sem_open_spec(s, name, flags, initial) == (s, Err::<usize, i64>(-2i64)),
        1 <= name.len() <= 64 && flags & 64 != 0 ==> ({
            let (s2, r) = sem_open_spec(s, name, flags, initial);
            let k = r->Ok_0 as int;
            if forall|m: int| 0 <= m < s.len() ==> #[trigger] s[m] is Some {
                s2 == s && r == Err::<usize, i64>(-12i64)
            } else {
                &&& r is Ok && 0 <= k < s.len() && s[k] is None
                &&& forall|m: int| 0 <= m < k ==> #[trigger] s[m] is Some
                &&& s2.len() == s.len()
                &&& s2[k] matches Some(v) && v.name == name && v.value == initial && v.reference_count == 1
                    && !v.is_unlinked && v.waiters.len() == 0
                &&& forall|j: int| 0 <= j < s.len() && j != k ==> s2[j] == s[j]
            }
        }),
{
    lemma_sem_named_absent(s, name, 0);
    lemma_sem_free_first(s, 0);
}

/// `sem_post` on an open semaphore: when processes wait on it, the token
/// goes to the one that waited longest, which is returned to be woken and
/// leaves the queue, the count unchanged; with no waiter the count goes up
/// by one and nobody is woken.  Other slots do not change.
pub proof fn lemma_sem_post_hands_token(s: Seq<Option<SemView>>, i: int)
    requires
        0 <= i < s.len(),
        s[i] is Some,
        s[i]->Some_0.value < u32::MAX,
    ensures
        ({
            let v = s[i]->Some_0;
            let (s2, woken) = sem_post_spec(s, i);
            &&& s2.len() == s.len()
            &&& forall|j: int| 0 <= j < s.len() && j != i ==> s2[j] == s[j]
            &&& v.waiters.len() > 0 ==> woken == Some(v.waiters[0])
                && s2[i] == Some(SemView { waiters: v.waiters.subrange(1, v.waiters.len() as int), ..v })
            &&& v.waiters.len() == 0 ==> woken is None && s2[i] == Some(SemView { value: (v.value + 1) as u32, ..v })
        }),
{
}

/// `sem_trywait` on an open semaphore takes one token when there is one
/// (0), and otherwise fails with EAGAIN (-11) leaving the table alone; on
/// an empty slot it is EBADF (-9).
pub proof fn lemma_sem_trywait_takes_token(s: Seq<Option<SemView>>, i: int)
    requires
        0 <= i < s.len(),
    ensures
        s[i] is None ==> sem_trywait_spec(s, i) == (s, -9i64),
        s[i] is Some && s[i]->Some_0.value == 0 ==> sem_trywait_spec(s, i) == (s, -11i64),
        s[i] is Some && s[i]->Some_0.value > 0 ==> sem_trywait_spec(s, i) == (s.update(i,
            Some(SemView { value: (s[i]->Some_0.value - 1) as u32, ..s[i]->Some_0 })), 0i64),
{
}

/// Closing a semaphore drops one reference (never below zero) and keeps
/// everything else; it disappears only when it was unlinked and that was
/// its last reference.
pub proof fn lemma_sem_close(v: SemView)
    ensures
        v.is_unlinked && v.reference_count <= 1 ==> sem_after_close(v) is None,
        !(v.is_unlinked && v.reference_count <= 1) ==> sem_after_close(v) == Some(SemView {
            reference_count: if v.reference_count > 0 { (v.reference_count - 1) as u32 } else { 0u32 },
            ..v
        }),
{
}

/// Closing a message queue drops one reference (never below zero) and
/// keeps its messages and everything else; it disappears only when it was
/// unlinked and that was its last reference.
pub proof fn lemma_mq_close(v: MqView)
    ensures
        v.is_unlinked && v.reference_count <= 1 ==> mq_after_close(v) is None,
        !(v.is_unlinked && v.reference_count <= 1) ==> mq_after_close(v) == Some(MqView {
            reference_count: if v.reference_count > 0 { (v.reference_count - 1) as u32 } else { 0u32 },
            ..v
        }),
{
}

} // verus!
