//! epoll instances: the interest list and event collection.

use vstd::prelude::*;
use crate::inode::{alloc_inode_number, FsError, InodeStat, InodeType};
use crate::pipe::PipeEnd;
use crate::vfs::{FdKind, FileDescriptor};

verus! {

/// Readable.
pub const EPOLLIN: u32 = 0x0001;
/// Writable.
pub const EPOLLOUT: u32 = 0x0004;
/// Error.
pub const EPOLLERR: u32 = 0x0008;
/// Hang-up.
pub const EPOLLHUP: u32 = 0x0010;
/// Add an interest.
pub const EPOLL_CTL_ADD: i32 = 1;
/// Remove an interest.
pub const EPOLL_CTL_DEL: i32 = 2;
/// Change an interest.
pub const EPOLL_CTL_MOD: i32 = 3;

/// One reported event.
#[derive(Clone, Copy, Debug, PartialEq, Eq, Structural)]
pub struct EpollEvent {
    pub events: u32,
    pub data: u64,
}

/// One watched descriptor: fd, event mask and user data.
#[derive(Clone, Copy, Debug, PartialEq, Eq, Structural)]
pub struct EpollInterest {
    pub watched_fd: i32,
    pub event_mask: u32,
    pub user_data: u64,
}

/// An epoll instance.
pub struct EpollInstance {
    inode_number: u64,
    interests: Vec<EpollInterest>,
}

/// The events reported for the first `rv.len()` interests of `s`, whose
/// ready masks are `rv`: one event for each non-zero mask, in order.
pub open spec fn ready_events_of(s: Seq<EpollInterest>, rv: Seq<u32>) -> Seq<EpollEvent>
    decreases rv.len(),
{
    if rv.len() == 0 {
        Seq::empty()
    } else {
        let prev = ready_events_of(s, rv.drop_last());
        if rv.last() != 0 {
            prev.push(EpollEvent { events: rv.last(), data: s[rv.len() - 1].user_data })
        } else {
            prev
        }
    }
}

/// `fd` is watched in `s`.
pub open spec fn watches(s: Seq<EpollInterest>, fd: i32) -> bool {
    exists|i: int| 0 <= i < s.len() && s[i].watched_fd == fd
}

impl EpollInstance {
    /// The interest list, in order of addition.
    pub closed spec fn spec_interests(&self) -> Seq<EpollInterest> {
        self.interests@
    }

    /// No descriptor is watched twice.
    pub closed spec fn wf(&self) -> bool {
        forall|i: int, j: int| 0 <= i < j < self.interests@.len() ==> self.interests@[i].watched_fd != self.interests@[j].watched_fd
    }

    /// An instance watching nothing, numbered from `counter`.
    pub fn new(counter: &mut u64) -> (e: Self)
        ensures
            e.wf(),
            e.spec_interests() == Seq::<EpollInterest>::empty(),
    {
        EpollInstance { inode_number: alloc_inode_number(counter), interests: Vec::new() }
    }

    /// Watch `watched_fd`; -17 (EEXIST) when it already is.
    pub fn ctl_add(&mut self, watched_fd: i32, event_mask: u32, user_data: u64) -> (r: i64)
        requires
            old(self).wf(),
        ensures
            final(self).wf(),
            watches(old(self).spec_interests(), watched_fd) ==> r == -17 && final(self).spec_interests() == old(self).spec_interests(),
            !watches(old(self).spec_interests(), watched_fd) ==> r == 0
                && final(self).spec_interests() == old(self).spec_interests().push(EpollInterest { watched_fd, event_mask, user_data }),
    {
        let n = self.interests.len();
        let mut i: usize = 0;
        while i < n
            invariant
                n == self.interests@.len(),
                self.wf(),
                i <= n,
                forall|k: int| 0 <= k < i ==> self.interests@[k].watched_fd != watched_fd,
            decreases n - i,
        {
            if self.interests[i].watched_fd == watched_fd {
                return -17;
            }
            i = i + 1;
        }
        self.interests.push(EpollInterest { watched_fd, event_mask, user_data });
        0
    }

    /// Stop watching `watched_fd`; -2 (ENOENT) when it was not watched.
    pub fn ctl_del(&mut self, watched_fd: i32) -> (r: i64)
        requires
            old(self).wf(),
        ensures
            final(self).wf(),
            !watches(old(self).spec_interests(), watched_fd) ==> r == -2 && final(self).spec_interests() == old(self).spec_interests(),
            watches(old(self).spec_interests(), watched_fd) ==> r == 0
                && final(self).spec_interests() == without_fd(old(self).spec_interests(), watched_fd),
    {
        let n = self.interests.len();
        let mut kept: Vec<EpollInterest> = Vec::new();
        let ghost mut idx: Seq<int> = Seq::empty();
        let mut i: usize = 0;
        while i < n
            invariant
                n == self.interests@.len(),
                self.wf(),
                i <= n,
                kept@ == without_fd(self.interests@.subrange(0, i as int), watched_fd),
                idx.len() == kept@.len(),
                forall|a: int| 0 <= a < idx.len() ==> 0 <= #[trigger] idx[a] < i && kept@[a] == self.interests@[idx[a]],
                forall|a: int, b: int| 0 <= a < b < idx.len() ==> idx[a] < idx[b],
            decreases n - i,
        {
            let e = self.interests[i];
            proof {
                let t = self.interests@.subrange(0, i + 1);
                assert(t.drop_last() =~= self.interests@.subrange(0, i as int));
                assert(t.last() == e);
            }
            if e.watched_fd != watched_fd {
                kept.push(e);
                proof {
                    idx = idx.push(i as int);
                }
            }
            i = i + 1;
        }
        proof {
            assert(self.interests@.subrange(0, n as int) =~= self.interests@);
            lemma_without_fd_len(self.interests@, watched_fd);
        }
        if kept.len() == n {
            proof {
                if watches(self.interests@, watched_fd) {
                    assert(false);
                }
            }
            return -2;
        }
        let ghost old_interests = self.interests@;
        self.interests = kept;
        proof {
            assert forall|a: int, b: int| 0 <= a < b < self.interests@.len() implies
                self.interests@[a].watched_fd != self.interests@[b].watched_fd by {
                assert(idx[a] < idx[b]);
            }
        }
        0
    }

    /// Change the mask and user data of `watched_fd`; -2 (ENOENT) when it
    /// is not watched.
    pub fn ctl_mod(&mut self, watched_fd: i32, event_mask: u32, user_data: u64) -> (r: i64)
        requires
            old(self).wf(),
        ensures
            final(self).wf(),
            !watches(old(self).spec_interests(), watched_fd) ==> r == -2 && final(self).spec_interests() == old(self).spec_interests(),
            watches(old(self).spec_interests(), watched_fd) ==> r == 0 && exists|i: int|
                0 <= i < old(self).spec_interests().len() && old(self).spec_interests()[i].watched_fd == watched_fd
                && final(self).spec_interests() == old(self).spec_interests().update(i, EpollInterest { watched_fd, event_mask, user_data }),
    {
        let n = self.interests.len();
        let mut i: usize = 0;
        while i < n
            invariant
                n == self.interests@.len(),
                *self == *old(self),
                old(self).wf(),
                i <= n,
                forall|k: int| 0 <= k < i ==> self.interests@[k].watched_fd != watched_fd,
            decreases n - i,
        {
            if self.interests[i].watched_fd == watched_fd {
                self.interests.set(i, EpollInterest { watched_fd, event_mask, user_data });
                proof {
                    assert forall|a: int, b: int| 0 <= a < b < self.interests@.len() implies
                        self.interests@[a].watched_fd != self.interests@[b].watched_fd by {
                        assert(old(self).interests@[a].watched_fd != old(self).interests@[b].watched_fd);
                    }
                }
                return 0;
            }
            i = i + 1;
        }
        -2
    }

    /// Report the ready descriptors, in interest order, at most
    /// `max_events` of them (and no more than `output_events` holds):
    /// `readiness` gives the ready events of a descriptor under a mask.
    /// The interests are asked in order until the limit is reached; the
    /// answers are `rv` below.
    pub fn collect_ready_events<F: Fn(i32, u32) -> u32>(&self, output_events: &mut [EpollEvent], max_events: usize, readiness: &F) -> (count: usize)
        requires
            forall|fd: i32, m: u32| readiness.requires((fd, m)),
        ensures
            final(output_events)@.len() == old(output_events)@.len(),
            exists|rv: Seq<u32>| {
                &&& rv.len() <= self.spec_interests().len()
                &&& forall|i: int| 0 <= i < rv.len() ==> readiness.ensures(
                    (self.spec_interests()[i].watched_fd, self.spec_interests()[i].event_mask), #[trigger] rv[i])
                &&& count == ready_events_of(self.spec_interests(), rv).len()
                &&& final(output_events)@.subrange(0, count as int) == ready_events_of(self.spec_interests(), rv)
                &&& final(output_events)@.subrange(count as int, old(output_events)@.len() as int)
                    == old(output_events)@.subrange(count as int, old(output_events)@.len() as int)
                &&& (rv.len() == self.spec_interests().len() || count == max_events || count == old(output_events)@.len())
            },
            count <= max_events,
            count <= old(output_events)@.len(),
    {
        let n = self.interests.len();
        let cap = output_events.len();
        let mut count: usize = 0;
        let mut i: usize = 0;
        let ghost mut rv: Seq<u32> = Seq::empty();
        while i < n && count < max_events && count < cap
            invariant
                n == self.interests@.len(),
                i <= n,
                rv.len() == i,
                forall|k: int| 0 <= k < rv.len() ==> readiness.ensures(
                    (self.interests@[k].watched_fd, self.interests@[k].event_mask), #[trigger] rv[k]),
                count == ready_events_of(self.interests@, rv).len(),
                output_events@.subrange(0, count as int) == ready_events_of(self.interests@, rv),
                output_events@.subrange(count as int, cap as int) == old(output_events)@.subrange(count as int, cap as int),
                count <= max_events,
                count <= cap,
                cap == output_events@.len(),
                cap == old(output_events)@.len(),
                forall|fd: i32, m: u32| readiness.requires((fd, m)),
            decreases n - i,
        {
            let interest = self.interests[i];
            let ready_events = readiness(interest.watched_fd, interest.event_mask);
            let ghost before = output_events@;
            proof {
                let rv2 = rv.push(ready_events);
                assert(rv2.drop_last() =~= rv);
                rv = rv2;
            }
            if ready_events != 0 {
                output_events[count] = EpollEvent { events: ready_events, data: interest.user_data };
                assert(output_events@.subrange(0, count + 1) =~= before.subrange(0, count as int).push(EpollEvent { events: ready_events, data: interest.user_data }));
                assert(output_events@.subrange(count + 1, cap as int) =~= before.subrange(count + 1, cap as int));
                assert(before.subrange(count + 1, cap as int) =~= before.subrange(count as int, cap as int).subrange(1, cap - count));
                assert(old(output_events)@.subrange(count + 1, cap as int) =~= old(output_events)@.subrange(count as int, cap as int).subrange(1, cap - count));
                count = count + 1;
            }
            i = i + 1;
        }
        assert(self.spec_interests() == self.interests@);
        assert(rv.len() == self.spec_interests().len() || count == max_events || count == cap);
        assert(forall|k: int| 0 <= k < rv.len() ==> readiness.ensures(
            (self.spec_interests()[k].watched_fd, self.spec_interests()[k].event_mask), #[trigger] rv[k]));
        count
    }

    /// Always `CharDevice`.
    pub fn inode_type(&self) -> (t: InodeType)
        ensures
            t == InodeType::CharDevice,
    {
        InodeType::CharDevice
    }

    /// Character device stat.
    pub fn stat(&self) -> (s: InodeStat)
        ensures
            s.mode == 0o020666 && s.size == 0,
    {
        InodeStat::char_device(self.inode_number)
    }

    /// epoll instances are not read with read().
    pub fn read_at(&self, _offset: u64, _buf: &mut [u8]) -> (r: Result<usize, FsError>)
        ensures
            r == Err::<usize, FsError>(FsError::NotSupported),
    {
        Err(FsError::NotSupported)
    }
}

/// The interests of `s` not for `fd`, in order.
pub open spec fn without_fd(s: Seq<EpollInterest>, fd: i32) -> Seq<EpollInterest>
    decreases s.len(),
{
    if s.len() == 0 {
        Seq::empty()
    } else if s.last().watched_fd != fd {
        without_fd(s.drop_last(), fd).push(s.last())
    } else {
        without_fd(s.drop_last(), fd)
    }
}

proof fn lemma_without_fd_len(s: Seq<EpollInterest>, fd: i32)
    ensures
        without_fd(s, fd).len() <= s.len(),
        without_fd(s, fd).len() == s.len() <==> !watches(s, fd),
    decreases s.len(),
{
    if s.len() > 0 {
        let d = s.drop_last();
        lemma_without_fd_len(d, fd);
        if watches(d, fd) {
            let w = choose|i: int| 0 <= i < d.len() && d[i].watched_fd == fd;
            assert(s[w].watched_fd == fd);
        }
        if watches(s, fd) && !watches(d, fd) {
            let w = choose|i: int| 0 <= i < s.len() && s[i].watched_fd == fd;
            if w < d.len() {
                assert(d[w].watched_fd == fd);
            }
        }
    }
}

/// What a descriptor is ready for under `event_mask`: a negative or closed
/// descriptor reports an error; a pipe's read end is readable when bytes
/// wait (`pipe_bytes_available`), its write end always writable; the file
/// of a PTY master (`pty_master_pending` is the number of slave-to-master
/// bytes waiting, `None` for any other file) is readable when bytes wait
/// and always writable; anything else is readable and writable.
pub fn check_fd_readiness(
    fd: i32,
    event_mask: u32,
    descriptor: Option<&FileDescriptor>,
    pipe_bytes_available: usize,
    pty_master_pending: Option<usize>,
) -> (r: u32)
    ensures
        fd < 0 ==> r == EPOLLERR & event_mask,
        fd >= 0 && descriptor is None ==> r == EPOLLERR & event_mask,
        fd >= 0 ==> (descriptor matches Some(d) ==> r == (match d.kind() {
            FdKind::Pipe { pipe, end } => if end == PipeEnd::ReadEnd {
                if pipe_bytes_available > 0 { EPOLLIN } else { 0 }
            } else {
                EPOLLOUT
            },
            FdKind::Ino { inode, position } => match pty_master_pending {
                Some(n) => if n > 0 { EPOLLIN | EPOLLOUT } else { EPOLLOUT },
                None => EPOLLIN | EPOLLOUT,
            },
            _ => EPOLLIN | EPOLLOUT,
        }) & event_mask),
{
    if fd < 0 {
        return EPOLLERR & event_mask;
    }
    let d = match descriptor {
        Some(d) => d,
        None => return EPOLLERR & event_mask,
    };
    let ready: u32 = match d {
        FileDescriptor::Pipe { pipe, handle } => {
            match handle.end() {
                PipeEnd::ReadEnd => if pipe_bytes_available > 0 { EPOLLIN } else { 0 },
                PipeEnd::WriteEnd => EPOLLOUT,
            }
        },
        FileDescriptor::InoFile { inode, position } => {
            match pty_master_pending {
                Some(n) => if n > 0 { EPOLLIN | EPOLLOUT } else { EPOLLOUT },
                None => EPOLLIN | EPOLLOUT,
            }
        },
        _ => EPOLLIN | EPOLLOUT,
    };
    ready & event_mask
}

/// Removing `fd` from an interest list keeps exactly the interests for
/// other descriptors, in their order: it is the list filtered on the
/// descriptor.
pub proof fn lemma_without_fd_filters(s: Seq<EpollInterest>, fd: i32)
    ensures
        without_fd(s, fd) == s.filter(|e: EpollInterest| e.watched_fd != fd),
        forall|k: int| 0 <= k < without_fd(s, fd).len() ==> (#[trigger] without_fd(s, fd)[k]).watched_fd != fd,
    decreases s.len(),
{
    reveal(Seq::filter);
    if s.len() > 0 {
        lemma_without_fd_filters(s.drop_last(), fd);
    }
    let w = without_fd(s, fd);
    assert forall|k: int| 0 <= k < w.len() implies (#[trigger] w[k]).watched_fd != fd by {
        s.filter_lemma(|e: EpollInterest| e.watched_fd != fd);
    }
}

/// `e` reports interest `i` of `s`, whose ready mask `rv[i]` is non-zero:
/// that mask and the interest's user data.
pub open spec fn reports_interest(s: Seq<EpollInterest>, rv: Seq<u32>, e: EpollEvent) -> bool {
    exists|i: int| 0 <= i < rv.len() && rv[i] != 0 && e == (EpollEvent { events: rv[i], data: s[i].user_data })
}

/// The events reported are the non-zero ready masks, in the order of the
/// interests, each carrying the user data of its interest: their masks
/// are the ready masks with the zeros filtered out.
pub proof fn lemma_ready_events_nonzero(s: Seq<EpollInterest>, rv: Seq<u32>)
    requires
        rv.len() <= s.len(),
    ensures
        ready_events_of(s, rv).map_values(|e: EpollEvent| e.events) == rv.filter(|m: u32| m != 0),
        forall|k: int| 0 <= k < ready_events_of(s, rv).len() ==> reports_interest(s, rv, #[trigger] ready_events_of(s, rv)[k]),
    decreases rv.len(),
{
    reveal(Seq::filter);
    if rv.len() > 0 {
        let r0 = rv.drop_last();
        lemma_ready_events_nonzero(s, r0);
        let prev = ready_events_of(s, r0);
        let cur = ready_events_of(s, rv);
        assert forall|k: int| 0 <= k < prev.len() implies reports_interest(s, rv, #[trigger] prev[k]) by {
            assert(reports_interest(s, r0, prev[k]));
            let i = choose|i: int| 0 <= i < r0.len() && r0[i] != 0 && prev[k] == (EpollEvent { events: r0[i], data: s[i].user_data });
            assert(rv[i] == r0[i]);
        }
        if rv.last() != 0 {
            assert(cur.map_values(|e: EpollEvent| e.events) =~= prev.map_values(|e: EpollEvent| e.events).push(rv.last()));
            let l = rv.len() - 1;
            let m = prev.len() as int;
            assert(rv[l] != 0 && cur[m] == (EpollEvent { events: rv[l], data: s[l].user_data }));
            assert(reports_interest(s, rv, cur[m]));
            assert forall|k: int| 0 <= k < cur.len() implies reports_interest(s, rv, #[trigger] cur[k]) by {
                if k < prev.len() {
                    assert(cur[k] == prev[k]);
                }
            }
        } else {
            assert forall|k: int| 0 <= k < cur.len() implies reports_interest(s, rv, #[trigger] cur[k]) by {
                assert(cur[k] == prev[k]);
            }
        }
    } else {
        assert(ready_events_of(s, rv).map_values(|e: EpollEvent| e.events) =~= rv.filter(|m: u32| m != 0));
    }
}

} // verus!
