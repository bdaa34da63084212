//! Fixed-capacity byte ring buffer: the FIFO behind pipes, FIFOs and
//! sockets.

use vstd::prelude::*;

verus! {

/// The bytes stored in a ring: `len` bytes of `data` from `head`, wrapping.
pub open spec fn ring_contents(data: Seq<u8>, head: int, len: int) -> Seq<u8> {
    Seq::new(len as nat, |i: int| data[(head + i) % (data.len() as int)])
}

/// A byte ring buffer of fixed capacity.
pub struct Ring {
    data: Vec<u8>,
    head: usize,
    len: usize,
}

impl View for Ring {
    type V = Seq<u8>;

    /// The bytes in the ring, oldest first.
    closed spec fn view(&self) -> Seq<u8> {
        ring_contents(self.data@, self.head as int, self.len as int)
    }
}

impl Ring {
    /// Capacity of the ring.
    pub closed spec fn capacity(&self) -> nat {
        self.data@.len()
    }

    /// Head inside the buffer and contents within capacity.
    pub closed spec fn wf(&self) -> bool {
        &&& 0 < self.data@.len() <= usize::MAX / 2
        &&& self.head < self.data@.len()
        &&& self.len <= self.data@.len()
    }

    /// An empty ring of `capacity` bytes.
    pub fn new(capacity: usize) -> (r: Self)
        requires
            0 < capacity <= usize::MAX / 2,
        ensures
            r.wf(),
            r@ == Seq::<u8>::empty(),
            r.capacity() == capacity,
    {
        let r = Ring { data: crate::bytes::vec_of_zeros(capacity), head: 0, len: 0 };
        assert(r@ =~= Seq::<u8>::empty());
        r
    }

    /// Number of stored bytes.
    pub fn len(&self) -> (n: usize)
        requires
            self.wf(),
        ensures
            n == self@.len(),
    {
        self.len
    }

    /// Free space.
    pub fn free(&self) -> (n: usize)
        requires
            self.wf(),
        ensures
            n == self.capacity() - self@.len(),
    {
        self.data.len() - self.len
    }

    /// Append as many bytes of `src` as fit; returns how many.
    pub fn push_bytes(&mut self, src: &[u8]) -> (n: usize)
        requires
            old(self).wf(),
        ensures
            final(self).wf(),
            final(self).capacity() == old(self).capacity(),
            n == (if src@.len() < old(self).capacity() - old(self)@.len() { src@.len() as int } else { old(self).capacity() - old(self)@.len() }),
            final(self)@ == old(self)@ + src@.subrange(0, n as int),
    {
        let cap = self.data.len();
        let space = cap - self.len;
        let to_write = if src.len() < space { src.len() } else { space };
        let ghost old_data = self.data@;
        let mut i: usize = 0;
        while i < to_write
            invariant
                cap == self.data@.len(),
                cap == old_data.len(),
                cap <= usize::MAX / 2,
                self.head < cap,
                self.len + to_write <= cap,
                self.head == old(self).head,
                self.len == old(self).len,
                to_write <= src@.len(),
                i <= to_write,
                forall|k: int| 0 <= k < self.len ==> #[trigger] self.data@[(self.head + k) % (cap as int)]
                    == old_data[(self.head + k) % (cap as int)],
                forall|k: int| 0 <= k < i ==> #[trigger] self.data@[(self.head + self.len + k) % (cap as int)] == src@[k],
            decreases to_write - i,
        {
            let pos = (self.head + self.len + i) % cap;
            self.data.set(pos, src[i]);
            proof {
                assert forall|k: int| 0 <= k < self.len implies #[trigger] self.data@[(self.head + k) % (cap as int)]
                    == old_data[(self.head + k) % (cap as int)] by {
                    assert((self.head + k) % (cap as int) != (self.head + self.len + i) % (cap as int)) by {
                        lemma_mod_distinct(self.head as int, k, self.len + i, cap as int);
                    }
                }
                assert forall|k: int| 0 <= k < i + 1 implies #[trigger] self.data@[(self.head + self.len + k) % (cap as int)] == src@[k] by {
                    if k < i {
                        lemma_mod_distinct(self.head as int, self.len + k, self.len + i, cap as int);
                    }
                }
            }
            i = i + 1;
        }
        let ghost before = old(self)@;
        let ghost l0 = self.len as int;
        self.len = self.len + to_write;
        proof {
            assert forall|k: int| 0 <= k < self.len implies #[trigger] self@[k] == (before + src@.subrange(0, to_write as int))[k] by {
                if k >= l0 {
                    let k2 = k - l0;
                    assert(self.head + k == self.head + l0 + k2);
                    assert(self.data@[(self.head + l0 + k2) % (cap as int)] == src@[k2]);
                }
            }
        }
        assert(self@ =~= before + src@.subrange(0, to_write as int));
        to_write
    }

    /// Remove up to `dst.len()` bytes from the front into `dst`; returns how
    /// many.
    pub fn pop_bytes(&mut self, dst: &mut [u8]) -> (n: usize)
        requires
            old(self).wf(),
        ensures
            final(self).wf(),
            final(self).capacity() == old(self).capacity(),
            n == (if old(dst)@.len() < old(self)@.len() { old(dst)@.len() } else { old(self)@.len() }),
            final(dst)@.len() == old(dst)@.len(),
            final(dst)@.subrange(0, n as int) == old(self)@.subrange(0, n as int),
            final(dst)@.subrange(n as int, old(dst)@.len() as int) == old(dst)@.subrange(n as int, old(dst)@.len() as int),
            final(self)@ == old(self)@.subrange(n as int, old(self)@.len() as int),
    {
        let cap = self.data.len();
        let to_read = if dst.len() < self.len { dst.len() } else { self.len };
        let mut i: usize = 0;
        while i < to_read
            invariant
                cap == self.data@.len(),
                cap <= usize::MAX / 2,
                self.head < cap,
                self.len <= cap,
                *self == *old(self),
                to_read <= self.len,
                to_read <= dst@.len(),
                dst@.len() == old(dst)@.len(),
                i <= to_read,
                forall|k: int| 0 <= k < i ==> #[trigger] dst@[k] == old(self)@[k],
                forall|k: int| to_read <= k < dst@.len() ==> #[trigger] dst@[k] == old(dst)@[k],
            decreases to_read - i,
        {
            dst[i] = self.data[(self.head + i) % cap];
            i = i + 1;
        }
        let ghost before = old(self)@;
        self.head = (self.head + to_read) % cap;
        self.len = self.len - to_read;
        proof {
            assert forall|k: int| 0 <= k < self.len implies #[trigger] self@[k] == before[to_read + k] by {
                vstd::arithmetic::div_mod::lemma_add_mod_noop(old(self).head + to_read, k, cap as int);
                vstd::arithmetic::div_mod::lemma_mod_twice(k, cap as int);
                assert(k % (cap as int) == k) by {
                    vstd::arithmetic::div_mod::lemma_small_mod(k as nat, cap as nat);
                }
                assert((old(self).head + to_read) as int + k == old(self).head + (to_read + k));
            }
            assert(self@ =~= before.subrange(to_read as int, before.len() as int));
            assert(dst@.subrange(0, to_read as int) =~= before.subrange(0, to_read as int));
            assert(dst@.subrange(to_read as int, dst@.len() as int) =~= old(dst)@.subrange(to_read as int, old(dst)@.len() as int));
        }
        to_read
    }
}

/// An offset below twice the capacity wraps at most once.
proof fn lemma_wrap_once(x: int, cap: int)
    requires
        0 < cap,
        0 <= x < 2 * cap,
    ensures
        x % cap == (if x < cap { x } else { x - cap }),
{
    if x < cap {
        vstd::arithmetic::div_mod::lemma_small_mod(x as nat, cap as nat);
    } else {
        vstd::arithmetic::div_mod::lemma_mod_add_multiples_vanish(x - cap, cap);
        vstd::arithmetic::div_mod::lemma_small_mod((x - cap) as nat, cap as nat);
    }
}

/// Distinct offsets below the capacity land on distinct slots.
proof fn lemma_mod_distinct(h: int, a: int, b: int, cap: int)
    requires
        0 <= h < cap,
        0 <= a < b < cap,
    ensures
        (h + a) % cap != (h + b) % cap,
{
    lemma_wrap_once(h + a, cap);
    lemma_wrap_once(h + b, cap);
}

/// Bytes leave a ring in the order they entered: after `push_bytes` of
/// `src` accepted `n` bytes into a ring holding `held`, a `pop_bytes` that
/// hands out `m` bytes gives the oldest held bytes first, then the front of
/// what was pushed.
pub proof fn lemma_fifo_order(held: Seq<u8>, src: Seq<u8>, n: int, after_push: Seq<u8>, out: Seq<u8>, m: int)
    requires
        0 <= n <= src.len(),
        after_push == held + src.subrange(0, n),
        0 <= m <= after_push.len(),
        m <= out.len(),
        out.subrange(0, m) == after_push.subrange(0, m),
    ensures
        m <= held.len() ==> out.subrange(0, m) == held.subrange(0, m),
        m > held.len() ==> out.subrange(0, held.len() as int) == held
            && out.subrange(held.len() as int, m) == src.subrange(0, m - held.len()),
{
    if m <= held.len() {
        assert(after_push.subrange(0, m) =~= held.subrange(0, m));
    } else {
        assert(out.subrange(0, held.len() as int) =~= out.subrange(0, m).subrange(0, held.len() as int));
        assert(after_push.subrange(0, m).subrange(0, held.len() as int) =~= held);
        assert(out.subrange(held.len() as int, m) =~= out.subrange(0, m).subrange(held.len() as int, m));
        assert(after_push.subrange(0, m).subrange(held.len() as int, m) =~= src.subrange(0, m - held.len()));
    }
}

} // verus!
