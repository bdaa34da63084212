//! Device files: /dev/null, /dev/zero, /dev/urandom and /dev/tty.

use vstd::prelude::*;
use vstd::string::StringSliceAdditionalSpecFns;
use crate::inode::{alloc_inode_number, FsError, InodeStat, InodeType};
use crate::tmpfs::TmpfsDir;

verus! {

/// Initial state of the /dev/urandom generator.
pub const URANDOM_SEED: u64 = 0xDEAD_BEEF_CAFE_1234;

/// One xorshift64 step (shifts 13, 7, 17).
pub open spec fn xorshift(s: u64) -> u64 {
    let a = s ^ (s << 13u64);
    let b = a ^ (a >> 7u64);
    b ^ (b << 17u64)
}

/// State of the /dev/urandom generator.
pub struct UrandomState {
    pub state: u64,
}

impl UrandomState {
    /// The generator in its boot state.
    pub fn new() -> (s: Self)
        ensures
            s.state == URANDOM_SEED,
    {
        UrandomState { state: URANDOM_SEED }
    }

    /// Advance the generator and return the new state.
    pub fn urandom_next(&mut self) -> (v: u64)
        ensures
            v == xorshift(old(self).state),
            final(self).state == v,
    {
        let mut state = self.state;
        state = state ^ (state << 13u64);
        state = state ^ (state >> 7u64);
        state = state ^ (state << 17u64);
        self.state = state;
        state
    }
}

/// Mix `seed` into the generator state.
pub fn devfs_seed_entropy(rng: &mut UrandomState, seed: u64)
    ensures
        final(rng).state == old(rng).state ^ seed,
{
    rng.state = rng.state ^ seed;
}

/// /dev/null: reads see end of file, writes are discarded.
pub struct DevNull {
    inode_number: u64,
}

impl DevNull {
    /// The device, numbered from `counter`.
    pub fn new(counter: &mut u64) -> (d: Self)
        ensures
            d.spec_inode_number() == *old(counter),
    {
        DevNull { inode_number: alloc_inode_number(counter) }
    }

    /// The inode number.
    pub closed spec fn spec_inode_number(&self) -> u64 {
        self.inode_number
    }

    /// Always `CharDevice`.
    pub fn inode_type(&self) -> (t: InodeType)
        ensures
            t == InodeType::CharDevice,
    {
        InodeType::CharDevice
    }

    /// Character device stat.
    pub fn stat(&self) -> (s: InodeStat)
        ensures
            s == (InodeStat { inode_number: self.spec_inode_number(), size: 0, mode: 0o020666, nlinks: 1, uid: 0, gid: 0 }),
    {
        InodeStat::char_device(self.inode_number)
    }

    /// End of file.
    pub fn read_at(&self, _offset: u64, _buf: &mut [u8]) -> (r: Result<usize, FsError>)
        ensures
            r == Ok::<usize, FsError>(0),
    {
        Ok(0)
    }

    /// Discard everything.
    pub fn write_at(&self, _offset: u64, buf: &[u8]) -> (r: Result<usize, FsError>)
        ensures
            r == Ok::<usize, FsError>(buf@.len() as usize),
    {
        Ok(buf.len())
    }

    /// Nothing to truncate.
    pub fn truncate(&self, _size: u64) -> (r: Result<(), FsError>)
        ensures
            r is Ok,
    {
        Ok(())
    }
}

/// /dev/zero: reads fill the buffer with zeros, writes are discarded.
pub struct DevZero {
    inode_number: u64,
}

impl DevZero {
    /// The device, numbered from `counter`.
    pub fn new(counter: &mut u64) -> (d: Self)
        ensures
            d.spec_inode_number() == *old(counter),
    {
        DevZero { inode_number: alloc_inode_number(counter) }
    }

    /// The inode number.
    pub closed spec fn spec_inode_number(&self) -> u64 {
        self.inode_number
    }

    /// Always `CharDevice`.
    pub fn inode_type(&self) -> (t: InodeType)
        ensures
            t == InodeType::CharDevice,
    {
        InodeType::CharDevice
    }

    /// Character device stat.
    pub fn stat(&self) -> (s: InodeStat)
        ensures
            s == (InodeStat { inode_number: self.spec_inode_number(), size: 0, mode: 0o020666, nlinks: 1, uid: 0, gid: 0 }),
    {
        InodeStat::char_device(self.inode_number)
    }

    /// Fill `buf` with zeros.
    pub fn read_at(&self, _offset: u64, buf: &mut [u8]) -> (r: Result<usize, FsError>)
        ensures
            r == Ok::<usize, FsError>(old(buf)@.len() as usize),
            final(buf)@ == Seq::new(old(buf)@.len(), |i: int| 0u8),
    {
        let n = buf.len();
        let mut i: usize = 0;
        while i < n
            invariant
                n == buf@.len(),
                i <= n,
                forall|k: int| 0 <= k < i ==> buf@[k] == 0,
            decreases n - i,
        {
            buf[i] = 0;
            i = i + 1;
        }
        assert(buf@ =~= Seq::new(old(buf)@.len(), |i: int| 0u8));
        Ok(n)
    }

    /// Discard everything.
    pub fn write_at(&self, _offset: u64, buf: &[u8]) -> (r: Result<usize, FsError>)
        ensures
            r == Ok::<usize, FsError>(buf@.len() as usize),
    {
        Ok(buf.len())
    }

    /// Nothing to truncate.
    pub fn truncate(&self, _size: u64) -> (r: Result<(), FsError>)
        ensures
            r is Ok,
    {
        Ok(())
    }
}

/// The generator states after `n` steps from `s`.
pub open spec fn xorshift_n(s: u64, n: nat) -> u64
    decreases n,
{
    if n == 0 { s } else { xorshift(xorshift_n(s, (n - 1) as nat)) }
}

/// Byte `i` of a read of /dev/urandom started at state `s`: byte `i % 8`
/// (little-endian) of the generator's `i / 8 + 1`-th next state.
pub open spec fn urandom_byte(s: u64, i: int) -> u8 {
    ((xorshift_n(s, (i / 8 + 1) as nat) >> (8 * (i % 8)) as u64) & 0xFF) as u8
}

/// A step of the generator never reaches the all-zero state from another
/// state, so the generator never sticks at zero.
pub proof fn lemma_xorshift_nonzero(s: u64, n: nat)
    requires
        s != 0,
    ensures
        xorshift(s) != 0,
        xorshift_n(s, n) != 0,
    decreases n,
{
    assert(s != 0 ==> (s ^ (s << 13u64)) != 0) by (bit_vector);
    let a = s ^ (s << 13u64);
    assert(a != 0 ==> (a ^ (a >> 7u64)) != 0) by (bit_vector);
    let b = a ^ (a >> 7u64);
    assert(b != 0 ==> (b ^ (b << 17u64)) != 0) by (bit_vector);
    if n > 0 {
        lemma_xorshift_nonzero(s, (n - 1) as nat);
        lemma_xorshift_nonzero(xorshift_n(s, (n - 1) as nat), 0);
    }
}

/// `k` steps after `m` steps are `m + k` steps.
proof fn lemma_xorshift_n_add(s: u64, m: nat, k: nat)
    ensures
        xorshift_n(xorshift_n(s, m), k) == xorshift_n(s, m + k),
    decreases k,
{
    if k > 0 {
        lemma_xorshift_n_add(s, m, (k - 1) as nat);
    }
}

/// Reads continue one stream: after `w` words were drawn from state `s`,
/// byte `i` of the next read is byte `8 w + i` of a read started at `s`.
pub proof fn lemma_urandom_stream_continues(s: u64, w: nat, i: int)
    requires
        0 <= i,
    ensures
        urandom_byte(xorshift_n(s, w), i) == urandom_byte(s, 8 * w + i),
{
    lemma_xorshift_n_add(s, w, (i / 8 + 1) as nat);
    assert((8 * w + i) / 8 == w + i / 8) by (nonlinear_arith) requires 0 <= i;
    assert((8 * w + i) % 8 == i % 8) by (nonlinear_arith) requires 0 <= i;
}

/// Number of 8-byte words a read of `n` bytes draws.
pub open spec fn words_for(n: int) -> nat {
    ((n + 7) / 8) as nat
}

/// /dev/urandom: reads draw xorshift words, writes mix into the state.
pub struct DevUrandom {
    inode_number: u64,
}

impl DevUrandom {
    /// The device, numbered from `counter`.
    pub fn new(counter: &mut u64) -> (d: Self)
        ensures
            d.spec_inode_number() == *old(counter),
    {
        DevUrandom { inode_number: alloc_inode_number(counter) }
    }

    /// The inode number.
    pub closed spec fn spec_inode_number(&self) -> u64 {
        self.inode_number
    }

    /// Always `CharDevice`.
    pub fn inode_type(&self) -> (t: InodeType)
        ensures
            t == InodeType::CharDevice,
    {
        InodeType::CharDevice
    }

    /// Character device stat.
    pub fn stat(&self) -> (s: InodeStat)
        ensures
            s == (InodeStat { inode_number: self.spec_inode_number(), size: 0, mode: 0o020666, nlinks: 1, uid: 0, gid: 0 }),
    {
        InodeStat::char_device(self.inode_number)
    }

    /// Fill `buf` with generator output, eight bytes per step.
    pub fn read_at(&self, rng: &mut UrandomState, _offset: u64, buf: &mut [u8]) -> (r: Result<usize, FsError>)
        ensures
            r == Ok::<usize, FsError>(old(buf)@.len() as usize),
            final(buf)@.len() == old(buf)@.len(),
            forall|i: int| 0 <= i < old(buf)@.len() ==> #[trigger] final(buf)@[i] == urandom_byte(old(rng).state, i),
            final(rng).state == xorshift_n(old(rng).state, words_for(old(buf)@.len() as int)),
    {
        let n = buf.len();
        let ghost s0 = rng.state;
        let mut index: usize = 0;
        let ghost mut words: nat = 0;
        while index < n
            invariant
                n == buf@.len(),
                index <= n,
                index == 8 * words || index == n,
                words == words_for(index as int),
                rng.state == xorshift_n(s0, words),
                forall|i: int| 0 <= i < index ==> #[trigger] buf@[i] == urandom_byte(s0, i),
            decreases n - index,
        {
            let word = rng.urandom_next();
            proof {
                words = words + 1;
            }
            let remaining = n - index;
            let to_copy = if remaining < 8 { remaining } else { 8 };
            let mut k: usize = 0;
            while k < to_copy
                invariant
                    n == buf@.len(),
                    index + to_copy <= n,
                    to_copy <= 8,
                    k <= to_copy,
                    index == 8 * (words - 1),
                    word == xorshift_n(s0, words),
                    forall|i: int| 0 <= i < index + k ==> #[trigger] buf@[i] == urandom_byte(s0, i),
                decreases to_copy - k,
            {
                buf[index + k] = ((word >> (8 * k) as u64) & 0xFF) as u8;
                proof {
                    let i = index + k;
                    assert(i / 8 == words - 1) by (nonlinear_arith)
                        requires i == 8 * (words - 1) + k, k < 8, words >= 1;
                    assert(i % 8 == k) by (nonlinear_arith)
                        requires i == 8 * (words - 1) + k, k < 8, words >= 1;
                }
                k = k + 1;
            }
            index = index + to_copy;
            proof {
                assert(words == words_for(index as int)) by (nonlinear_arith)
                    requires index == 8 * (words - 1) + to_copy, to_copy <= 8, to_copy >= 1,
                        (to_copy < 8 ==> index == n), words >= 1;
            }
        }
        Ok(n)
    }

    /// Mix the first eight bytes of `buf` (big-endian) into the state;
    /// returns `buf.len()`.
    pub fn write_at(&self, rng: &mut UrandomState, _offset: u64, buf: &[u8]) -> (r: Result<usize, FsError>)
        ensures
            r == Ok::<usize, FsError>(buf@.len() as usize),
            buf@.len() == 0 ==> final(rng).state == old(rng).state,
            buf@.len() > 0 ==> final(rng).state == old(rng).state ^ be_word(buf@.subrange(0, if buf@.len() < 8 { buf@.len() as int } else { 8 })),
    {
        if buf.len() > 0 {
            let take = if buf.len() < 8 { buf.len() } else { 8 };
            let mut word: u64 = 0;
            let mut i: usize = 0;
            while i < take
                invariant
                    take <= buf@.len(),
                    take <= 8,
                    i <= take,
                    word == be_word(buf@.subrange(0, i as int)),
                decreases take - i,
            {
                proof {
                    assert(buf@.subrange(0, i + 1).drop_last() =~= buf@.subrange(0, i as int));
                }
                word = word.wrapping_shl(8) | buf[i] as u64;
                i = i + 1;
            }
            rng.state = rng.state ^ word;
        }
        Ok(buf.len())
    }
}

/// The word that shifting in the bytes of `b` (each `wrapping_shl(8)` then
/// or) gives.
pub open spec fn be_word(b: Seq<u8>) -> u64
    decreases b.len(),
{
    if b.len() == 0 { 0 } else { be_word(b.drop_last()).wrapping_shl(8) | (b.last() as u64) }
}

/// /dev/tty: reads and writes go to the terminal.
pub struct DevTty {
    inode_number: u64,
}

impl DevTty {
    /// The device, numbered from `counter`.
    pub fn new(counter: &mut u64) -> (d: Self)
        ensures
            d.spec_inode_number() == *old(counter),
    {
        DevTty { inode_number: alloc_inode_number(counter) }
    }

    /// The inode number.
    pub closed spec fn spec_inode_number(&self) -> u64 {
        self.inode_number
    }

    /// Always `CharDevice`.
    pub fn inode_type(&self) -> (t: InodeType)
        ensures
            t == InodeType::CharDevice,
    {
        InodeType::CharDevice
    }

    /// Character device stat.
    pub fn stat(&self) -> (s: InodeStat)
        ensures
            s == (InodeStat { inode_number: self.spec_inode_number(), size: 0, mode: 0o020666, nlinks: 1, uid: 0, gid: 0 }),
    {
        InodeStat::char_device(self.inode_number)
    }
}

/// The /dev directory: a tmpfs directory with null, zero, urandom and tty,
/// and the four devices.
pub fn devfs_create(counter: &mut u64) -> (r: (TmpfsDir, DevNull, DevZero, DevUrandom, DevTty))
    ensures
        r.0.wf(),
{
    let mut dev_dir = TmpfsDir::new(counter);
    let null = DevNull::new(counter);
    dev_dir.insert("null", null.inode_number, InodeType::CharDevice);
    let zero = DevZero::new(counter);
    dev_dir.insert("zero", zero.inode_number, InodeType::CharDevice);
    let urandom = DevUrandom::new(counter);
    dev_dir.insert("urandom", urandom.inode_number, InodeType::CharDevice);
    let tty = DevTty::new(counter);
    dev_dir.insert("tty", tty.inode_number, InodeType::CharDevice);
    (dev_dir, null, zero, urandom, tty)
}

} // verus!
