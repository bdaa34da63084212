//! SHA-256 (FIPS 180-4), incremental.

use vstd::prelude::*;

verus! {

/// Initial hash value.
pub const SHA256_H: [u32; 8] = [
    0x6a09e667, 0xbb67ae85, 0x3c6ef372, 0xa54ff53a, 0x510e527f, 0x9b05688c, 0x1f83d9ab, 0x5be0cd19,
];

/// Round constants.
pub const SHA256_K: [u32; 64] = [
    0x428a2f98, 0x71374491, 0xb5c0fbcf, 0xe9b5dba5, 0x3956c25b, 0x59f111f1, 0x923f82a4, 0xab1c5ed5,
    0xd807aa98, 0x12835b01, 0x243185be, 0x550c7dc3, 0x72be5d74, 0x80deb1fe, 0x9bdc06a7, 0xc19bf174,
    0xe49b69c1, 0xefbe4786, 0x0fc19dc6, 0x240ca1cc, 0x2de92c6f, 0x4a7484aa, 0x5cb0a9dc, 0x76f988da,
    0x983e5152, 0xa831c66d, 0xb00327c8, 0xbf597fc7, 0xc6e00bf3, 0xd5a79147, 0x06ca6351, 0x14292967,
    0x27b70a85, 0x2e1b2138, 0x4d2c6dfc, 0x53380d13, 0x650a7354, 0x766a0abb, 0x81c2c92e, 0x92722c85,
    0xa2bfe8a1, 0xa81a664b, 0xc24b8b70, 0xc76c51a3, 0xd192e819, 0xd6990624, 0xf40e3585, 0x106aa070,
    0x19a4c116, 0x1e376c08, 0x2748774c, 0x34b0bcb5, 0x391c0cb3, 0x4ed8aa4a, 0x5b9cca4f, 0x682e6ff3,
    0x748f82ee, 0x78a5636f, 0x84c87814, 0x8cc70208, 0x90befffa, 0xa4506ceb, 0xbef9a3f7, 0xc67178f2,
];

/// Rotate right by `n` (1..32).
pub open spec fn rotr(x: u32, n: u32) -> u32 {
    (x >> n) | (x << (32 - n) as u32)
}

/// Addition modulo 2^32.
pub open spec fn add32(a: u32, b: u32) -> u32 {
    a.wrapping_add(b)
}

/// Big-endian word at byte `i`.
pub open spec fn be32(b: Seq<u8>, i: int) -> u32 {
    ((b[i] as u32) << 24u32) | ((b[i + 1] as u32) << 16u32) | ((b[i + 2] as u32) << 8u32) | (b[i + 3] as u32)
}

/// σ0 of the message schedule.
pub open spec fn ssig0(x: u32) -> u32 {
    rotr(x, 7) ^ rotr(x, 18) ^ (x >> 3u32)
}

/// σ1 of the message schedule.
pub open spec fn ssig1(x: u32) -> u32 {
    rotr(x, 17) ^ rotr(x, 19) ^ (x >> 10u32)
}

/// Word `i` (0..64) of the message schedule of a 64-byte block.
pub open spec fn schedule(block: Seq<u8>, i: int) -> u32
    decreases i,
{
    if i < 16 {
        be32(block, 4 * i)
    } else {
        add32(add32(add32(schedule(block, i - 16), ssig0(schedule(block, i - 15))), schedule(block, i - 7)),
            ssig1(schedule(block, i - 2)))
    }
}

/// One compression round applied to the working variables `v`.
pub open spec fn round(v: Seq<u32>, k: u32, w: u32) -> Seq<u32> {
    let (a, b, c, d, e, f, g, h) = (v[0], v[1], v[2], v[3], v[4], v[5], v[6], v[7]);
    let s1 = rotr(e, 6) ^ rotr(e, 11) ^ rotr(e, 25);
    let ch = (e & f) ^ ((!e) & g);
    let temp1 = add32(add32(add32(add32(h, s1), ch), k), w);
    let s0 = rotr(a, 2) ^ rotr(a, 13) ^ rotr(a, 22);
    let maj = (a & b) ^ (a & c) ^ (b & c);
    let temp2 = add32(s0, maj);
    seq![add32(temp1, temp2), a, b, c, add32(d, temp1), e, f, g]
}

/// The working variables after the first `i` rounds on `block`.
pub open spec fn rounds(v: Seq<u32>, block: Seq<u8>, i: int) -> Seq<u32>
    decreases i,
{
    if i <= 0 {
        v
    } else {
        round(rounds(v, block, i - 1), SHA256_K@[i - 1], schedule(block, i - 1))
    }
}

/// The hash state after compressing one 64-byte block.
pub open spec fn compress_spec(state: Seq<u32>, block: Seq<u8>) -> Seq<u32> {
    let v = rounds(state, block, 64);
    Seq::new(8, |j: int| add32(state[j], v[j]))
}

/// The hash state after compressing each 64-byte block of `m` in turn.
pub open spec fn compress_all(state: Seq<u32>, m: Seq<u8>) -> Seq<u32>
    decreases m.len(),
{
    if m.len() < 64 {
        state
    } else {
        compress_spec(compress_all(state, m.subrange(0, m.len() - 64)), m.subrange(m.len() - 64, m.len() as int))
    }
}

/// Number of zero bytes of padding after the 0x80 byte for a message of
/// `len` bytes, so that the padded length is 8 short of a multiple of 64.
pub open spec fn pad_zeros(len: nat) -> nat {
    if len % 64 < 56 { (55 - len % 64) as nat } else { (119 - len % 64) as nat }
}

/// Big-endian bytes of a 64-bit value.
pub open spec fn be64_bytes(v: u64) -> Seq<u8> {
    Seq::new(8, |i: int| ((v >> (8 * (7 - i)) as u64) & 0xFF) as u8)
}

/// The padded message: the message, 0x80, zeros, and the bit length.
pub open spec fn padded(m: Seq<u8>) -> Seq<u8> {
    m + seq![0x80u8] + Seq::new(pad_zeros(m.len()), |i: int| 0u8) + be64_bytes((m.len() * 8) as u64)
}

/// The padded message is the message, a 0x80 byte, the fewest zero bytes
/// that make the total a multiple of 64 bytes with room for the length,
/// and the message's length in bits as a big-endian 64-bit number: it adds
/// 9 to 72 bytes.
pub proof fn lemma_padding_shape(m: Seq<u8>)
    requires
        m.len() * 8 <= u64::MAX,
    ensures
        padded(m).len() % 64 == 0,
        m.len() + 9 <= padded(m).len() <= m.len() + 72,
        padded(m).len() - 64 < m.len() + 9,
        padded(m).subrange(0, m.len() as int) == m,
        padded(m)[m.len() as int] == 0x80,
        forall|i: int| m.len() < i < padded(m).len() - 8 ==> #[trigger] padded(m)[i] == 0,
        forall|i: int| 0 <= i < 8 ==> #[trigger] padded(m)[padded(m).len() - 8 + i]
            == (((m.len() * 8) as u64 >> (8 * (7 - i)) as u64) & 0xFF) as u8,
{
    let p = padded(m);
    let z = pad_zeros(m.len());
    assert(p.len() == m.len() + 1 + z + 8);
    assert((m.len() + 1 + z + 8) % 64 == 0) by (nonlinear_arith)
        requires z == (if m.len() % 64 < 56 { (55 - m.len() % 64) as nat } else { (119 - m.len() % 64) as nat });
    assert(p.subrange(0, m.len() as int) =~= m);
    assert forall|i: int| m.len() < i < p.len() - 8 implies #[trigger] p[i] == 0 by {
        assert(p[i] == Seq::new(z, |k: int| 0u8)[i - m.len() - 1]);
    }
}

/// Big-endian bytes of the eight state words.
pub open spec fn digest_bytes(state: Seq<u32>) -> Seq<u8> {
    Seq::new(32, |i: int| ((state[i / 4] >> (8 * (3 - i % 4)) as u32) & 0xFF) as u8)
}

/// SHA-256 of `m`.
pub open spec fn spec_sha256(m: Seq<u8>) -> Seq<u8> {
    digest_bytes(compress_all(SHA256_H@, padded(m)))
}

fn rotr32(x: u32, n: u32) -> (r: u32)
    requires
        1 <= n < 32,
    ensures
        r == rotr(x, n),
{
    (x >> n) | (x << (32 - n))
}

/// The message schedule of a 64-byte block.
fn message_schedule(block: &[u8]) -> (w: [u32; 64])
    requires
        block@.len() == 64,
    ensures
        forall|k: int| 0 <= k < 64 ==> #[trigger] w@[k] == schedule(block@, k),
{
    let mut w = [0u32; 64];
    let mut i: usize = 0;
    while i < 16
        invariant
            i <= 16,
            block@.len() == 64,
            forall|k: int| 0 <= k < i ==> #[trigger] w@[k] == schedule(block@, k),
        decreases 16 - i,
    {
        w[i] = ((block[i * 4] as u32) << 24u32) | ((block[i * 4 + 1] as u32) << 16u32)
            | ((block[i * 4 + 2] as u32) << 8u32) | (block[i * 4 + 3] as u32);
        i = i + 1;
    }
    while i < 64
        invariant
            16 <= i <= 64,
            block@.len() == 64,
            forall|k: int| 0 <= k < i ==> #[trigger] w@[k] == schedule(block@, k),
        decreases 64 - i,
    {
        let x = w[i - 15];
        let y = w[i - 2];
        let s0 = rotr32(x, 7) ^ rotr32(x, 18) ^ (x >> 3u32);
        let s1 = rotr32(y, 17) ^ rotr32(y, 19) ^ (y >> 10u32);
        w[i] = w[i - 16].wrapping_add(s0).wrapping_add(w[i - 7]).wrapping_add(s1);
        i = i + 1;
    }
    w
}

/// One compression round.
fn round_exec(v: &[u32; 8], k: u32, w: u32) -> (r: [u32; 8])
    ensures
        r@ == round(v@, k, w),
{
    let (a, b, c, d, e, f, g, h) = (v[0], v[1], v[2], v[3], v[4], v[5], v[6], v[7]);
    let s1 = rotr32(e, 6) ^ rotr32(e, 11) ^ rotr32(e, 25);
    let ch = (e & f) ^ ((!e) & g);
    let temp1 = h.wrapping_add(s1).wrapping_add(ch).wrapping_add(k).wrapping_add(w);
    let s0 = rotr32(a, 2) ^ rotr32(a, 13) ^ rotr32(a, 22);
    let maj = (a & b) ^ (a & c) ^ (b & c);
    let temp2 = s0.wrapping_add(maj);
    let r = [temp1.wrapping_add(temp2), a, b, c, d.wrapping_add(temp1), e, f, g];
    assert(r@ =~= round(v@, k, w));
    r
}

/// Compress one 64-byte block into the hash state.
fn compress(state: &mut [u32; 8], block: &[u8])
    requires
        block@.len() == 64,
    ensures
        final(state)@ == compress_spec(old(state)@, block@),
{
    let w = message_schedule(block);
    let mut v: [u32; 8] = *state;
    let ghost init = state@;
    let mut r: usize = 0;
    while r < 64
        invariant
            r <= 64,
            state@ == init,
            forall|k: int| 0 <= k < 64 ==> #[trigger] w@[k] == schedule(block@, k),
            rounds(init, block@, r as int) == v@,
        decreases 64 - r,
    {
        v = round_exec(&v, SHA256_K[r], w[r]);
        r = r + 1;
    }
    let mut j: usize = 0;
    while j < 8
        invariant
            j <= 8,
            v@ == rounds(init, block@, 64),
            forall|q: int| j <= q < 8 ==> #[trigger] state@[q] == init[q],
            forall|q: int| 0 <= q < j ==> #[trigger] state@[q] == add32(init[q], v@[q]),
        decreases 8 - j,
    {
        state[j] = state[j].wrapping_add(v[j]);
        j = j + 1;
    }
    assert(state@ =~= compress_spec(init, block@));
}

proof fn lemma_compress_all_push(state: Seq<u32>, p: Seq<u8>, b: Seq<u8>)
    requires
        b.len() == 64,
    ensures
        compress_all(state, p + b) == compress_spec(compress_all(state, p), b),
{
    let m = p + b;
    assert(m.subrange(0, m.len() - 64) =~= p);
    assert(m.subrange(m.len() - 64, m.len() as int) =~= b);
}

/// Incremental SHA-256 hasher.
pub struct Sha256 {
    state: [u32; 8],
    buffer: [u8; 64],
    buffer_len: usize,
    total_len: u64,
    data: Ghost<Seq<u8>>,
}

impl View for Sha256 {
    type V = Seq<u8>;

    /// The message fed so far.
    closed spec fn view(&self) -> Seq<u8> {
        self.data@
    }
}

impl Sha256 {
    /// The state is the compression of the whole blocks fed so far, the
    /// buffer holds the rest, and the length counter matches the message.
    pub closed spec fn wf(&self) -> bool {
        let m = self.data@;
        &&& self.buffer_len < 64
        &&& self.buffer_len <= m.len()
        &&& self.total_len == m.len()
        &&& (m.len() - self.buffer_len) % 64 == 0
        &&& self.state@ == compress_all(SHA256_H@, m.subrange(0, m.len() - self.buffer_len))
        &&& self.buffer@.subrange(0, self.buffer_len as int) == m.subrange(m.len() - self.buffer_len, m.len() as int)
    }

    /// A hasher that has seen nothing.
    pub fn new() -> (h: Self)
        ensures
            h.wf(),
            h@ == Seq::<u8>::empty(),
    {
        let h = Sha256 { state: SHA256_H, buffer: [0u8; 64], buffer_len: 0, total_len: 0, data: Ghost(Seq::empty()) };
        assert(h.buffer@.subrange(0, 0) =~= Seq::<u8>::empty());
        assert(Seq::<u8>::empty().subrange(0, 0) =~= Seq::<u8>::empty());
        h
    }

    /// Feed more of the message.
    pub fn update(&mut self, data: &[u8])
        requires
            old(self).wf(),
            old(self)@.len() + data@.len() <= u64::MAX,
        ensures
            final(self).wf(),
            final(self)@ == old(self)@ + data@,
    {
        let ghost m0 = self.data@;
        let ghost d = m0 + data@;
        let ghost l0 = m0.len();
        let len = data.len();
        self.total_len = self.total_len + len as u64;
        self.data = Ghost(d);
        let mut offset: usize = 0;
        if self.buffer_len > 0 {
            let bl0 = self.buffer_len;
            let needed = 64 - bl0;
            let to_copy = if needed < len { needed } else { len };
            let mut k: usize = 0;
            while k < to_copy
                invariant
                    k <= to_copy,
                    to_copy <= len,
                    len == data@.len(),
                    bl0 + to_copy <= 64,
                    self.buffer_len == bl0,
                    self.data@ == d,
                    self.state@ == old(self).state@,
                    self.total_len == d.len(),
                    forall|q: int| 0 <= q < bl0 ==> #[trigger] self.buffer@[q] == old(self).buffer@[q],
                    forall|q: int| 0 <= q < k ==> #[trigger] self.buffer@[bl0 + q] == data@[q],
                decreases to_copy - k,
            {
                self.buffer[bl0 + k] = data[k];
                k = k + 1;
            }
            self.buffer_len = bl0 + to_copy;
            offset = to_copy;
            proof {
                let ob = old(self).buffer@;
                assert forall|q: int| 0 <= q < bl0 implies #[trigger] self.buffer@[q] == d[l0 - bl0 + q] by {
                    assert(ob.subrange(0, bl0 as int)[q] == m0.subrange(l0 - bl0, l0 as int)[q]);
                }
                assert forall|q: int| bl0 <= q < bl0 + to_copy implies #[trigger] self.buffer@[q] == d[l0 - bl0 + q] by {
                    assert(self.buffer@[bl0 + (q - bl0)] == data@[q - bl0]);
                }
                assert(self.buffer@.subrange(0, (bl0 + to_copy) as int) =~= d.subrange(l0 - bl0, l0 + to_copy));
            }
            if self.buffer_len == 64 {
                let block = self.buffer;
                assert(block@ =~= self.buffer@.subrange(0, 64));
                compress(&mut self.state, block.as_slice());
                self.buffer_len = 0;
                proof {
                    let p = d.subrange(0, l0 - bl0);
                    assert(m0.subrange(0, m0.len() - bl0) =~= p);
                    lemma_compress_all_push(SHA256_H@, p, d.subrange(l0 - bl0, l0 + to_copy));
                    assert(p + d.subrange(l0 - bl0, l0 + to_copy) =~= d.subrange(0, l0 + to_copy));
                }
            } else {
                proof {
                    assert(to_copy == len);
                    assert(d.subrange(0, d.len() - self.buffer_len) =~= m0.subrange(0, m0.len() - bl0));
                    assert(self.buffer@.subrange(0, self.buffer_len as int)
                        =~= d.subrange(d.len() - self.buffer_len, d.len() as int));
                }
                return;
            }
        } else {
            proof {
                assert(m0.subrange(0, m0.len() as int) =~= d.subrange(0, l0 as int));
            }
        }
        while len - offset >= 64
            invariant
                len == data@.len(),
                d == m0 + data@,
                l0 == m0.len(),
                offset <= len,
                self.buffer_len == 0,
                (l0 + offset) % 64 == 0,
                self.state@ == compress_all(SHA256_H@, d.subrange(0, l0 + offset)),
                self.data@ == d,
                self.total_len == d.len(),
            decreases len - offset,
        {
            let block = vstd::slice::slice_subrange(data, offset, offset + 64);
            compress(&mut self.state, block);
            proof {
                lemma_compress_all_push(SHA256_H@, d.subrange(0, l0 + offset), block@);
                assert(d.subrange(0, l0 + offset) + block@ =~= d.subrange(0, l0 + offset + 64));
            }
            offset = offset + 64;
        }
        let remaining = len - offset;
        let mut k: usize = 0;
        while k < remaining
            invariant
                k <= remaining,
                remaining == len - offset,
                remaining < 64,
                len == data@.len(),
                offset <= len,
                forall|q: int| 0 <= q < k ==> #[trigger] self.buffer@[q] == data@[offset + q],
                d == m0 + data@,
                l0 == m0.len(),
                self.buffer_len == 0,
                (l0 + offset) % 64 == 0,
                self.state@ == compress_all(SHA256_H@, d.subrange(0, l0 + offset)),
                self.data@ == d,
                self.total_len == d.len(),
            decreases remaining - k,
        {
            self.buffer[k] = data[offset + k];
            k = k + 1;
        }
        self.buffer_len = remaining;
        proof {
            assert(d.subrange(0, d.len() - remaining) =~= d.subrange(0, l0 + offset));
            assert(self.buffer@.subrange(0, remaining as int) =~= d.subrange(d.len() - remaining, d.len() as int));
        }
    }

    /// Finish: pad the message and return its 32-byte digest.
    pub fn finalize(self) -> (digest: [u8; 32])
        requires
            self.wf(),
            self@.len() * 8 <= u64::MAX,
        ensures
            digest@ == spec_sha256(self@),
    {
        let mut this = self;
        let ghost m = this.data@;
        let bl0 = this.buffer_len;
        let bit_count = this.total_len * 8;
        let ghost p = m.subrange(0, m.len() - bl0);
        let ghost t = m.subrange(m.len() - bl0, m.len() as int);
        proof {
            assert(m.len() % 64 == bl0 as int) by (nonlinear_arith)
                requires (m.len() - bl0) % 64 == 0, bl0 < 64, bl0 <= m.len();
        }
        this.buffer[bl0] = 0x80;
        let mut bl = bl0 + 1;
        let ghost z = pad_zeros(m.len());
        if bl > 56 {
            while bl < 64
                invariant
                    bl0 + 1 <= bl <= 64,
                    forall|q: int| 0 <= q < bl0 ==> #[trigger] this.buffer@[q] == t[q],
                    this.buffer@[bl0 as int] == 0x80,
                    forall|q: int| bl0 < q < bl ==> #[trigger] this.buffer@[q] == 0,
                    this.state@ == compress_all(SHA256_H@, p),
                decreases 64 - bl,
            {
                this.buffer[bl] = 0;
                bl = bl + 1;
            }
            let block = this.buffer;
            let ghost b1 = t + seq![0x80u8] + Seq::new((63 - bl0) as nat, |i: int| 0u8);
            assert(block@ =~= b1);
            compress(&mut this.state, block.as_slice());
            proof {
                lemma_compress_all_push(SHA256_H@, p, b1);
            }
            this.buffer = [0u8; 64];
            bl = 0;
            let mut q: usize = 56;
            while q < 64
                invariant
                    56 <= q <= 64,
                    forall|r: int| 0 <= r < 56 ==> #[trigger] this.buffer@[r] == 0,
                    forall|r: int| 56 <= r < q ==> #[trigger] this.buffer@[r] == be64_bytes(bit_count)[r - 56],
                    this.state@ == compress_all(SHA256_H@, p + b1),
                decreases 64 - q,
            {
                this.buffer[q] = ((bit_count >> (8 * (63 - q)) as u64) & 0xFF) as u8;
                q = q + 1;
            }
            let block2 = this.buffer;
            let ghost b2 = Seq::new(56, |i: int| 0u8) + be64_bytes(bit_count);
            assert(block2@ =~= b2);
            compress(&mut this.state, block2.as_slice());
            proof {
                lemma_compress_all_push(SHA256_H@, p + b1, b2);
                assert(z == 119 - bl0);
                assert(padded(m) =~= (p + b1) + b2);
            }
        } else {
            while bl < 56
                invariant
                    bl0 + 1 <= bl <= 56,
                    bl0 < 56,
                    forall|q: int| 0 <= q < bl0 ==> #[trigger] this.buffer@[q] == t[q],
                    this.buffer@[bl0 as int] == 0x80,
                    forall|q: int| bl0 < q < bl ==> #[trigger] this.buffer@[q] == 0,
                    this.state@ == compress_all(SHA256_H@, p),
                decreases 56 - bl,
            {
                this.buffer[bl] = 0;
                bl = bl + 1;
            }
            let mut q: usize = 56;
            while q < 64
                invariant
                    56 <= q <= 64,
                    bl0 < 56,
                    forall|r: int| 0 <= r < bl0 ==> #[trigger] this.buffer@[r] == t[r],
                    this.buffer@[bl0 as int] == 0x80,
                    forall|r: int| bl0 < r < 56 ==> #[trigger] this.buffer@[r] == 0,
                    forall|r: int| 56 <= r < q ==> #[trigger] this.buffer@[r] == be64_bytes(bit_count)[r - 56],
                    this.state@ == compress_all(SHA256_H@, p),
                decreases 64 - q,
            {
                this.buffer[q] = ((bit_count >> (8 * (63 - q)) as u64) & 0xFF) as u8;
                q = q + 1;
            }
            let block = this.buffer;
            let ghost b = t + seq![0x80u8] + Seq::new((55 - bl0) as nat, |i: int| 0u8) + be64_bytes(bit_count);
            assert(block@ =~= b);
            compress(&mut this.state, block.as_slice());
            proof {
                lemma_compress_all_push(SHA256_H@, p, b);
                assert(z == 55 - bl0);
                assert(padded(m) =~= p + b);
            }
        }
        let mut digest = [0u8; 32];
        let mut i: usize = 0;
        while i < 32
            invariant
                i <= 32,
                forall|r: int| 0 <= r < i ==> #[trigger] digest@[r] == digest_bytes(this.state@)[r],
            decreases 32 - i,
        {
            digest[i] = ((this.state[i / 4] >> (8 * (3 - i % 4)) as u32) & 0xFF) as u8;
            i = i + 1;
        }
        assert(digest@ =~= digest_bytes(this.state@));
        digest
    }
}

/// SHA-256 of a byte slice.
pub fn sha256(data: &[u8]) -> (digest: [u8; 32])
    requires
        data@.len() * 8 <= u64::MAX,
    ensures
        digest@ == spec_sha256(data@),
{
    let mut hasher = Sha256::new();
    hasher.update(data);
    assert(Seq::<u8>::empty() + data@ =~= data@);
    hasher.finalize()
}

/// Lowercase hex digit of a nibble.
pub open spec fn hex_char(n: u8) -> u8 {
    if n < 10 { (48 + n) as u8 } else { (87 + n) as u8 }
}

/// Format a 32-byte digest as 64 lowercase hex digits.
pub fn hex_digest(digest: &[u8; 32], buf: &mut [u8; 64])
    ensures
        forall|i: int| 0 <= i < 32 ==> #[trigger] final(buf)@[2 * i] == hex_char(digest@[i] >> 4u8)
            && final(buf)@[2 * i + 1] == hex_char(digest@[i] & 0x0Fu8),
{
    let mut i: usize = 0;
    while i < 32
        invariant
            i <= 32,
            forall|k: int| 0 <= k < i ==> #[trigger] buf@[2 * k] == hex_char(digest@[k] >> 4u8)
                && buf@[2 * k + 1] == hex_char(digest@[k] & 0x0Fu8),
        decreases 32 - i,
    {
        let byte = digest[i];
        let hi = byte >> 4u8;
        let lo = byte & 0x0Fu8;
        assert(hi < 16 && lo < 16) by (bit_vector)
            requires hi == byte >> 4u8, lo == byte & 0x0Fu8;
        let ghost before = buf@;
        buf[2 * i] = if hi < 10 { 48 + hi } else { 87 + hi };
        buf[2 * i + 1] = if lo < 10 { 48 + lo } else { 87 + lo };
        assert forall|k: int| 0 <= k < i + 1 implies #[trigger] buf@[2 * k] == hex_char(digest@[k] >> 4u8)
            && buf@[2 * k + 1] == hex_char(digest@[k] & 0x0Fu8) by {
            if k < i {
                assert(buf@[2 * k] == before[2 * k]);
                assert(buf@[2 * k + 1] == before[2 * k + 1]);
            }
        }
        i = i + 1;
    }
}

} // verus!
