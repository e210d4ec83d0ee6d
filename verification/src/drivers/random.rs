//! Random Number Generator Driver
//!
//! A ChaCha20-based CSPRNG seeded from the CPU's RDSEED/RDRAND
//! instructions (or the TSC), the kernel's entropy estimate, and the
//! getrandom() and /dev/random interfaces over them.  The kernel executes
//! the instructions and hands the bytes they give to this module.

use vstd::prelude::*;
use crate::posix::errno::{EAGAIN, EFAULT};

verus! {

/// Maximum entropy pool size (in bits)
pub const MAX_ENTROPY_BITS: u64 = 4096;

/// The 32-bit left rotation.
pub open spec fn rotl(x: u32, n: u32) -> u32 {
    (x << n) | (x >> ((32 - n) as u32))
}

fn rotate_left(x: u32, n: u32) -> (r: u32)
    requires
        0 < n < 32,
    ensures
        r == rotl(x, n),
{
    (x << n) | (x >> (32 - n))
}

/// The ChaCha quarter round on words a, b, c, d of the state.
pub open spec fn qr(s: Seq<u32>, a: int, b: int, c: int, d: int) -> Seq<u32> {
    let s1 = s.update(a, s[a].wrapping_add(s[b]));
    let s2 = s1.update(d, rotl(s1[d] ^ s1[a], 16));
    let s3 = s2.update(c, s2[c].wrapping_add(s2[d]));
    let s4 = s3.update(b, rotl(s3[b] ^ s3[c], 12));
    let s5 = s4.update(a, s4[a].wrapping_add(s4[b]));
    let s6 = s5.update(d, rotl(s5[d] ^ s5[a], 8));
    let s7 = s6.update(c, s6[c].wrapping_add(s6[d]));
    s7.update(b, rotl(s7[b] ^ s7[c], 7))
}

/// A ChaCha double round: four column rounds, then four diagonal rounds.
pub open spec fn double_round(s: Seq<u32>) -> Seq<u32> {
    let c = qr(qr(qr(qr(s, 0, 4, 8, 12), 1, 5, 9, 13), 2, 6, 10, 14), 3, 7, 11, 15);
    qr(qr(qr(qr(c, 0, 5, 10, 15), 1, 6, 11, 12), 2, 7, 8, 13), 3, 4, 9, 14)
}

/// `n` double rounds.
pub open spec fn rounds(s: Seq<u32>, n: nat) -> Seq<u32>
    decreases n,
{
    if n == 0 {
        s
    } else {
        double_round(rounds(s, (n - 1) as nat))
    }
}

/// The initial ChaCha20 state: constants, key, 64-bit counter, nonce.
pub open spec fn chacha_init(key: Seq<u32>, counter: u64, nonce: Seq<u32>) -> Seq<u32> {
    seq![0x61707865u32, 0x3320646eu32, 0x79622d32u32, 0x6b206574u32] + key + seq![
        counter as u32,
        (counter >> 32) as u32,
    ] + nonce
}

/// Byte `j` (0 to 3) of a word, little-endian.
pub open spec fn le_byte(w: u32, j: int) -> u8 {
    ((w >> (8 * j) as u32) & 0xFF) as u8
}

/// The ChaCha20 block function: twenty rounds, the input state added
/// back, the words serialized little-endian.
pub open spec fn chacha20_block_spec(key: Seq<u32>, counter: u64, nonce: Seq<u32>) -> Seq<u8> {
    let s = chacha_init(key, counter, nonce);
    let w = rounds(s, 10);
    Seq::new(64, |i: int| le_byte(w[i / 4].wrapping_add(s[i / 4]), i % 4))
}

fn quarter_round(state: &mut [u32; 16], a: usize, b: usize, c: usize, d: usize)
    requires
        a < 16 && b < 16 && c < 16 && d < 16,
    ensures
        final(state)@ == qr(old(state)@, a as int, b as int, c as int, d as int),
{
    state[a] = state[a].wrapping_add(state[b]);
    state[d] = rotate_left(state[d] ^ state[a], 16);
    state[c] = state[c].wrapping_add(state[d]);
    state[b] = rotate_left(state[b] ^ state[c], 12);
    state[a] = state[a].wrapping_add(state[b]);
    state[d] = rotate_left(state[d] ^ state[a], 8);
    state[c] = state[c].wrapping_add(state[d]);
    state[b] = rotate_left(state[b] ^ state[c], 7);
    assert(state@ =~= qr(old(state)@, a as int, b as int, c as int, d as int));
}

/// The ChaCha20 block function
pub fn chacha20_block(key: &[u32; 8], counter: u64, nonce: &[u32; 2]) -> (r: [u8; 64])
    ensures
        r@ == chacha20_block_spec(key@, counter, nonce@),
{
    let state: [u32; 16] = [
        0x61707865,
        0x3320646e,
        0x79622d32,
        0x6b206574,
        key[0],
        key[1],
        key[2],
        key[3],
        key[4],
        key[5],
        key[6],
        key[7],
        counter as u32,
        (counter >> 32) as u32,
        nonce[0],
        nonce[1],
    ];
    assert(state@ =~= chacha_init(key@, counter, nonce@));
    let mut working = state;
    let mut r: usize = 0;
    while r < 10
        invariant
            r <= 10,
            working@ == rounds(state@, r as nat),
        decreases 10 - r,
    {
        let ghost before = working@;
        quarter_round(&mut working, 0, 4, 8, 12);
        quarter_round(&mut working, 1, 5, 9, 13);
        quarter_round(&mut working, 2, 6, 10, 14);
        quarter_round(&mut working, 3, 7, 11, 15);
        quarter_round(&mut working, 0, 5, 10, 15);
        quarter_round(&mut working, 1, 6, 11, 12);
        quarter_round(&mut working, 2, 7, 8, 13);
        quarter_round(&mut working, 3, 4, 9, 14);
        assert(working@ == double_round(before));
        r = r + 1;
    }
    let mut out = [0u8; 64];
    let mut i: usize = 0;
    while i < 16
        invariant
            i <= 16,
            working@ == rounds(state@, 10),
            forall|k: int|
                0 <= k < 4 * i ==> #[trigger] out@[k] == le_byte(
                    working@[k / 4].wrapping_add(state@[k / 4]),
                    k % 4,
                ),
        decreases 16 - i,
    {
        let w = working[i].wrapping_add(state[i]);
        out[4 * i] = (w & 0xFF) as u8;
        out[4 * i + 1] = ((w >> 8u32) & 0xFF) as u8;
        out[4 * i + 2] = ((w >> 16u32) & 0xFF) as u8;
        out[4 * i + 3] = ((w >> 24u32) & 0xFF) as u8;
        proof {
            assert(w >> 0u32 == w) by (bit_vector);
            assert forall|k: int| 0 <= k < 4 * (i + 1) implies #[trigger] out@[k] == le_byte(
                working@[k / 4].wrapping_add(state@[k / 4]),
                k % 4,
            ) by {
                if k >= 4 * i {
                    assert(k / 4 == i);
                    if k % 4 == 0 {
                        assert((w >> (8 * 0) as u32) == w >> 0u32);
                    }
                }
            }
        }
        i = i + 1;
    }
    assert(out@ =~= chacha20_block_spec(key@, counter, nonce@));
    out
}

/// The little-endian word of four bytes.
pub open spec fn le_word(b0: u8, b1: u8, b2: u8, b3: u8) -> u32 {
    (b0 as u32) | ((b1 as u32) << 8u32) | ((b2 as u32) << 16u32) | ((b3 as u32) << 24u32)
}

fn word_from_le(b0: u8, b1: u8, b2: u8, b3: u8) -> (r: u32)
    ensures
        r == le_word(b0, b1, b2, b3),
{
    (b0 as u32) | ((b1 as u32) << 8u32) | ((b2 as u32) << 16u32) | ((b3 as u32) << 24u32)
}

/// ChaCha20 CSPRNG state: key, nonce and block counter.
pub struct ChaChaState {
    pub key: [u32; 8],
    pub nonce: [u32; 2],
    pub counter: u64,
}

/// The random number generator: the CSPRNG, the entropy estimate, and
/// what the CPU supports.
pub struct RngState {
    pub csprng: ChaChaState,
    pub entropy: u64,
    pub initialized: bool,
    pub rdrand: bool,
    pub rdseed: bool,
}

/// The keystream from block `counter` on, `n` bytes of it.
pub open spec fn keystream(key: Seq<u32>, counter: u64, nonce: Seq<u32>, n: nat) -> Seq<u8>
    decreases n,
{
    if n == 0 {
        Seq::empty()
    } else {
        let b = chacha20_block_spec(key, counter, nonce);
        if n <= 64 {
            b.take(n as int)
        } else {
            b + keystream(key, counter.wrapping_add(1), nonce, (n - 64) as nat)
        }
    }
}

/// Blocks needed for `n` bytes.
pub open spec fn blocks_for(n: nat) -> nat {
    ((n + 63) / 64) as nat
}

/// The counter after `k` blocks.
pub open spec fn advance(counter: u64, k: nat) -> u64
    decreases k,
{
    if k == 0 {
        counter
    } else {
        advance(counter, (k - 1) as nat).wrapping_add(1)
    }
}

/// The entropy estimate after `k` blocks, each taking 512 bits.
pub open spec fn drain(e: u64, k: nat) -> u64
    decreases k,
{
    if k == 0 {
        e
    } else {
        let d = drain(e, (k - 1) as nat);
        if d >= 512 {
            (d - 512) as u64
        } else {
            0
        }
    }
}

/// The key words of a 40-byte seed.
pub open spec fn seed_key(seed: Seq<u8>) -> Seq<u32> {
    Seq::new(8, |i: int| le_word(seed[4 * i], seed[4 * i + 1], seed[4 * i + 2], seed[4 * i + 3]))
}

/// The nonce words of a 40-byte seed.
pub open spec fn seed_nonce(seed: Seq<u8>) -> Seq<u32> {
    seq![le_word(seed[32], seed[33], seed[34], seed[35]), le_word(seed[36], seed[37], seed[38], seed[39])]
}

/// `n` is `o` after `k` keystream blocks were drawn from key `key`, nonce
/// `nonce` and counter `counter` with entropy estimate `e` at the start;
/// what the CPU supports and whether it is initialized stay.
pub open spec fn drew_blocks(o: RngState, n: RngState, key: Seq<u32>, nonce: Seq<u32>, counter: u64, e: u64, k: nat) -> bool {
    &&& n.csprng.key@ == key
    &&& n.csprng.nonce@ == nonce
    &&& n.csprng.counter == advance(counter, k)
    &&& n.entropy == drain(e, k)
    &&& n.initialized == o.initialized
    &&& n.rdrand == o.rdrand
    &&& n.rdseed == o.rdseed
}

/// `fill` reseeds first when the entropy estimate is below 256 bits.
pub open spec fn fill_reseeds(o: RngState) -> bool {
    o.entropy < 256
}

/// The key `fill` draws with.
pub open spec fn fill_key(o: RngState, seed: Seq<u8>) -> Seq<u32> {
    if fill_reseeds(o) { seed_key(seed) } else { o.csprng.key@ }
}

/// The nonce `fill` draws with.
pub open spec fn fill_nonce(o: RngState, seed: Seq<u8>) -> Seq<u32> {
    if fill_reseeds(o) { seed_nonce(seed) } else { o.csprng.nonce@ }
}

/// The counter `fill` starts from.
pub open spec fn fill_counter(o: RngState) -> u64 {
    if fill_reseeds(o) { 0 } else { o.csprng.counter }
}

/// The entropy estimate `fill` starts from.
pub open spec fn fill_entropy(o: RngState) -> u64 {
    if fill_reseeds(o) { MAX_ENTROPY_BITS } else { o.entropy }
}

/// The `len` bytes `fill` gives from state `o`.
pub open spec fn fill_bytes(o: RngState, len: nat, seed: Seq<u8>) -> Seq<u8> {
    keystream(fill_key(o, seed), fill_counter(o), fill_nonce(o, seed), len)
}

/// `n` is the state after `fill` gave `len` bytes from state `o`.
pub open spec fn filled(o: RngState, n: RngState, len: nat, seed: Seq<u8>) -> bool {
    drew_blocks(o, n, fill_key(o, seed), fill_nonce(o, seed), fill_counter(o), fill_entropy(o), blocks_for(len))
}

impl RngState {
    /// Not initialized, no entropy, no hardware support known.
    pub fn new() -> (r: Self)
        ensures
            !r.initialized && r.entropy == 0 && !r.rdrand && !r.rdseed,
            r.csprng.key@ == seq![0u32; 8],
            r.csprng.nonce@ == seq![0u32; 2],
            r.csprng.counter == 0,
    {
        RngState {
            csprng: ChaChaState { key: [0u32; 8], nonce: [0u32; 2], counter: 0 },
            entropy: 0,
            initialized: false,
            rdrand: false,
            rdseed: false,
        }
    }

    /// Reseed the CSPRNG from 40 seed bytes; the entropy estimate is full.
    pub fn reseed(&mut self, seed: &[u8; 40])
        ensures
            final(self).csprng.key@ == seed_key(seed@),
            final(self).csprng.nonce@ == seed_nonce(seed@),
            final(self).csprng.counter == 0,
            final(self).entropy == MAX_ENTROPY_BITS,
            final(self).initialized == old(self).initialized,
            final(self).rdrand == old(self).rdrand,
            final(self).rdseed == old(self).rdseed,
    {
        let mut i: usize = 0;
        while i < 8
            invariant
                i <= 8,
                forall|k: int| 0 <= k < i ==> #[trigger] self.csprng.key@[k] == seed_key(seed@)[k],
                self.initialized == old(self).initialized,
                self.rdrand == old(self).rdrand,
                self.rdseed == old(self).rdseed,
            decreases 8 - i,
        {
            self.csprng.key[i] = word_from_le(seed[4 * i], seed[4 * i + 1], seed[4 * i + 2], seed[4 * i + 3]);
            i = i + 1;
        }
        self.csprng.nonce = [
            word_from_le(seed[32], seed[33], seed[34], seed[35]),
            word_from_le(seed[36], seed[37], seed[38], seed[39]),
        ];
        self.csprng.counter = 0;
        self.entropy = MAX_ENTROPY_BITS;
        assert(self.csprng.key@ =~= seed_key(seed@));
        assert(self.csprng.nonce@ =~= seed_nonce(seed@));
    }

    /// Produce the next keystream block.
    pub fn generate_block(&mut self) -> (r: [u8; 64])
        ensures
            r@ == chacha20_block_spec(old(self).csprng.key@, old(self).csprng.counter, old(self).csprng.nonce@),
            final(self).csprng.counter == old(self).csprng.counter.wrapping_add(1),
            final(self).csprng.key == old(self).csprng.key,
            final(self).csprng.nonce == old(self).csprng.nonce,
            final(self).entropy == if old(self).entropy >= 512 {
                (old(self).entropy - 512) as u64
            } else {
                0
            },
            final(self).initialized == old(self).initialized,
            final(self).rdrand == old(self).rdrand,
            final(self).rdseed == old(self).rdseed,
    {
        let output = chacha20_block(&self.csprng.key, self.csprng.counter, &self.csprng.nonce);
        self.csprng.counter = self.csprng.counter.wrapping_add(1);
        self.entropy = self.entropy.saturating_sub(512);
        output
    }

    /// Fill `buf` with keystream, reseeding from `seed` first when the
    /// entropy estimate is below 256 bits.
    pub fn fill(&mut self, buf: &mut Vec<u8>, seed: &[u8; 40])
        ensures
            final(buf)@.len() == old(buf)@.len(),
            ({
                let reseed = old(self).entropy < 256;
                let key = if reseed {
                    seed_key(seed@)
                } else {
                    old(self).csprng.key@
                };
                let nonce = if reseed {
                    seed_nonce(seed@)
                } else {
                    old(self).csprng.nonce@
                };
                let counter: u64 = if reseed {
                    0
                } else {
                    old(self).csprng.counter
                };
                let e0: u64 = if reseed {
                    MAX_ENTROPY_BITS
                } else {
                    old(self).entropy
                };
                let k = blocks_for(old(buf)@.len());
                &&& final(buf)@ == keystream(key, counter, nonce, old(buf)@.len())
                &&& final(self).csprng.key@ == key
                &&& final(self).csprng.nonce@ == nonce
                &&& final(self).csprng.counter == advance(counter, k)
                &&& final(self).entropy == drain(e0, k)
            }),
            final(self).initialized == old(self).initialized,
            final(self).rdrand == old(self).rdrand,
            final(self).rdseed == old(self).rdseed,
            final(buf)@ == fill_bytes(*old(self), old(buf)@.len(), seed@),
            filled(*old(self), *final(self), old(buf)@.len(), seed@),
    {
        if self.entropy < 256 {
            self.reseed(seed);
        }
        let ghost key = self.csprng.key@;
        let ghost nonce = self.csprng.nonce@;
        let ghost c0 = self.csprng.counter;
        let ghost e0 = self.entropy;
        let n = buf.len();
        let mut offset: usize = 0;
        let mut blocks: usize = 0;
        while offset < n
            invariant
                offset <= n == buf@.len() == old(buf)@.len(),
                offset < n ==> offset == 64 * blocks,
                blocks == blocks_for(offset as nat),
                self.csprng.key@ == key,
                self.csprng.nonce@ == nonce,
                self.csprng.counter == advance(c0, blocks as nat),
                self.entropy == drain(e0, blocks as nat),
                buf@.take(offset as int) == keystream(key, c0, nonce, offset as nat),
                self.initialized == old(self).initialized,
                self.rdrand == old(self).rdrand,
                self.rdseed == old(self).rdseed,
            decreases n - offset,
        {
            let block = self.generate_block();
            let to_copy = if n - offset < 64 {
                n - offset
            } else {
                64
            };
            let ghost pre = buf@;
            let mut j: usize = 0;
            while j < to_copy
                invariant
                    j <= to_copy <= 64,
                    offset + to_copy <= n == buf@.len() == pre.len(),
                    forall|k: int| 0 <= k < offset ==> buf@[k] == pre[k],
                    forall|k: int| 0 <= k < j ==> #[trigger] buf@[offset + k] == block@[k],
                decreases to_copy - j,
            {
                buf.set(offset + j, block[j]);
                j = j + 1;
            }
            proof {
                lemma_keystream_extend(key, c0, nonce, blocks as nat, to_copy as nat);
                assert forall|k: int| offset <= k < offset + to_copy implies buf@[k] == block@[k - offset] by {
                    assert(buf@[offset + (k - offset)] == block@[k - offset]);
                }
                assert(buf@.take(offset + to_copy) =~= pre.take(offset as int) + block@.take(
                    to_copy as int,
                ));
                assert(blocks_for((offset + to_copy) as nat) == blocks + 1) by (nonlinear_arith)
                    requires
                        offset == 64 * blocks,
                        0 < to_copy <= 64,
                ;
            }
            offset = offset + to_copy;
            blocks = blocks + 1;
        }
        assert(buf@.take(n as int) =~= buf@);
    }
}

/// Counting from the next block is counting one block further.
proof fn lemma_advance_shift(c: u64, j: nat)
    ensures
        advance(c.wrapping_add(1), j) == advance(c, j + 1),
    decreases j,
{
    reveal_with_fuel(advance, 2);
    if j > 0 {
        lemma_advance_shift(c, (j - 1) as nat);
    }
}

/// The keystream of `64 k + m` bytes is that of `64 k` bytes followed by
/// `m` bytes of block `k`.
proof fn lemma_keystream_extend(key: Seq<u32>, c: u64, nonce: Seq<u32>, k: nat, m: nat)
    requires
        0 < m <= 64,
    ensures
        keystream(key, c, nonce, 64 * k + m) == keystream(key, c, nonce, 64 * k) + chacha20_block_spec(
            key,
            advance(c, k),
            nonce,
        ).take(m as int),
    decreases k,
{
    let b = chacha20_block_spec(key, c, nonce);
    if k == 0 {
        assert(keystream(key, c, nonce, 0) =~= Seq::<u8>::empty());
        assert(keystream(key, c, nonce, m) =~= Seq::<u8>::empty() + b.take(m as int));
    } else {
        let c1 = c.wrapping_add(1);
        lemma_keystream_extend(key, c1, nonce, (k - 1) as nat, m);
        lemma_advance_shift(c, (k - 1) as nat);
        assert(keystream(key, c, nonce, 64 * k + m) == b + keystream(key, c1, nonce, (64 * (k - 1) + m) as nat));
        if k == 1 {
            assert(b.take(64) =~= b);
            assert(keystream(key, c1, nonce, 0) =~= Seq::<u8>::empty());
            assert(keystream(key, c, nonce, 64) =~= b + keystream(key, c1, nonce, 0));
        } else {
            assert(keystream(key, c, nonce, 64 * k) == b + keystream(key, c1, nonce, (64 * (k - 1)) as nat));
        }
        assert(keystream(key, c, nonce, 64 * k + m) =~= keystream(key, c, nonce, 64 * k)
            + chacha20_block_spec(key, advance(c, k), nonce).take(m as int));
    }
}


/// The bytes of the TSC-based seed: a 64-bit linear congruential
/// generator started from `state`, one top byte per step.
pub open spec fn lcg_bytes(state: u64, n: nat) -> Seq<u8>
    decreases n,
{
    if n == 0 {
        Seq::empty()
    } else {
        let next = state.wrapping_mul(6364136223846793005).wrapping_add(1);
        seq![(next >> 56u64) as u8] + lcg_bytes(next, (n - 1) as nat)
    }
}

/// Seed bytes when the CPU gives no random numbers: the TSC reading
/// mixed with a stack address, stretched by a linear congruential
/// generator.
pub fn fallback_seed(tsc: u64, stack_addr: u64, buf: &mut Vec<u8>)
    ensures
        final(buf)@ == lcg_bytes(tsc ^ stack_addr, old(buf)@.len()),
{
    let mut state = tsc ^ stack_addr;
    let ghost s0 = state;
    let n = buf.len();
    let mut i: usize = 0;
    while i < n
        invariant
            i <= n == buf@.len() == old(buf)@.len(),
            buf@.take(i as int) + lcg_bytes(state, (n - i) as nat) == lcg_bytes(s0, n as nat),
        decreases n - i,
    {
        let next = state.wrapping_mul(6364136223846793005).wrapping_add(1);
        let ghost rest = lcg_bytes(next, (n - i - 1) as nat);
        buf.set(i, (next >> 56u64) as u8);
        proof {
            assert(lcg_bytes(state, (n - i) as nat) == seq![(next >> 56u64) as u8] + rest);
            assert(buf@.take(i + 1) =~= buf@.take(i as int).push((next >> 56u64) as u8));
            assert(buf@.take(i + 1) + rest =~= buf@.take(i as int) + (seq![(next >> 56u64) as u8] + rest));
            assert(buf@.take(i as int) =~= old(buf)@.take(0) + buf@.take(i as int));
        }
        state = next;
        i = i + 1;
    }
    assert(buf@.take(n as int) =~= buf@);
    assert(lcg_bytes(state, 0) =~= Seq::<u8>::empty());
    assert(buf@ + Seq::<u8>::empty() =~= buf@);
}

/// `n` is the generator `init` makes with this CPU support and seed.
pub open spec fn init_post(n: RngState, rdrand: bool, rdseed: bool, seed: Seq<u8>) -> bool {
    &&& n.initialized && n.rdrand == rdrand && n.rdseed == rdseed
    &&& n.csprng.key@ == seed_key(seed) && n.csprng.nonce@ == seed_nonce(seed)
    &&& n.csprng.counter == 0 && n.entropy == MAX_ENTROPY_BITS
}

/// Initialize the random number generator with the CPU's RDRAND and
/// RDSEED support and a first seed.
pub fn init(st: &mut RngState, rdrand: bool, rdseed: bool, seed: &[u8; 40])
    ensures
        final(st).rdrand == rdrand,
        final(st).rdseed == rdseed,
        final(st).initialized,
        final(st).csprng.key@ == seed_key(seed@),
        final(st).csprng.nonce@ == seed_nonce(seed@),
        final(st).csprng.counter == 0,
        final(st).entropy == MAX_ENTROPY_BITS,
        init_post(*final(st), rdrand, rdseed, seed@),
{
    st.rdrand = rdrand;
    st.rdseed = rdseed;
    st.reseed(seed);
    st.initialized = true;
}

/// Check if RNG is initialized
pub fn is_initialized(st: &RngState) -> (r: bool)
    ensures
        r == st.initialized,
{
    st.initialized
}

/// Get current entropy estimate (in bits)
pub fn entropy_available(st: &RngState) -> (r: u64)
    ensures
        r == st.entropy,
{
    st.entropy
}

/// Fill a buffer with random bytes from the CSPRNG
///
/// Before initialization the CSPRNG is not used: `false`, and the kernel
/// fills the buffer from the CPU or the fallback seed.
pub fn get_random_bytes(st: &mut RngState, buf: &mut Vec<u8>, seed: &[u8; 40]) -> (r: bool)
    ensures
        r == old(st).initialized,
        !r ==> *final(st) == *old(st) && final(buf)@ == old(buf)@,
        r ==> final(buf)@ == fill_bytes(*old(st), old(buf)@.len(), seed@)
            && filled(*old(st), *final(st), old(buf)@.len(), seed@),
        final(buf)@.len() == old(buf)@.len(),
        final(st).initialized == old(st).initialized,
{
    if !st.initialized {
        return false;
    }
    st.fill(buf, seed);
    true
}

/// Get random bytes, reseeding first when the entropy estimate is below
/// the bits asked for.
pub fn get_random_bytes_wait(st: &mut RngState, buf: &mut Vec<u8>, seed: &[u8; 40]) -> (r: bool)
    requires
        old(buf)@.len() * 8 <= u64::MAX,
    ensures
        r == old(st).initialized,
        final(buf)@.len() == old(buf)@.len(),
        final(st).initialized == old(st).initialized,
        old(st).entropy >= old(buf)@.len() * 8 ==> {
            &&& !r ==> *final(st) == *old(st) && final(buf)@ == old(buf)@
            &&& r ==> final(buf)@ == fill_bytes(*old(st), old(buf)@.len(), seed@)
                && filled(*old(st), *final(st), old(buf)@.len(), seed@)
        },
        old(st).entropy < old(buf)@.len() * 8 ==> {
            &&& !r ==> final(buf)@ == old(buf)@ && drew_blocks(*old(st), *final(st), seed_key(seed@), seed_nonce(seed@), 0, MAX_ENTROPY_BITS, 0)
            &&& r ==> final(buf)@ == keystream(seed_key(seed@), 0, seed_nonce(seed@), old(buf)@.len())
                && drew_blocks(*old(st), *final(st), seed_key(seed@), seed_nonce(seed@), 0, MAX_ENTROPY_BITS, blocks_for(old(buf)@.len()))
        },
{
    if st.entropy < (buf.len() as u64) * 8 {
        st.reseed(seed);
    }
    get_random_bytes(st, buf, seed)
}

/// The value of eight little-endian bytes.
pub open spec fn le_u64(b: Seq<u8>) -> u64 {
    (le_word(b[0], b[1], b[2], b[3]) as u64) | ((le_word(b[4], b[5], b[6], b[7]) as u64) << 32u64)
}

/// A random 64-bit value: the CPU's `rdrand` value when it gave one, else
/// eight CSPRNG bytes (`None` before initialization).
pub fn get_random_u64(st: &mut RngState, rdrand: Option<u64>, seed: &[u8; 40]) -> (r: Option<u64>)
    ensures
        final(st).initialized == old(st).initialized,
        rdrand matches Some(v) ==> r == Some(v) && *final(st) == *old(st),
        rdrand is None && !old(st).initialized ==> r is None && *final(st) == *old(st),
        rdrand is None && old(st).initialized ==> r == Some(le_u64(fill_bytes(*old(st), 8, seed@)))
            && filled(*old(st), *final(st), 8, seed@),
{
    match rdrand {
        Some(v) => Some(v),
        None => {
            let mut buf: Vec<u8> = vec![0u8, 0u8, 0u8, 0u8, 0u8, 0u8, 0u8, 0u8];
            if !get_random_bytes(st, &mut buf, seed) {
                return None;
            }
            let lo = word_from_le(buf[0], buf[1], buf[2], buf[3]);
            let hi = word_from_le(buf[4], buf[5], buf[6], buf[7]);
            Some((lo as u64) | ((hi as u64) << 32u64))
        },
    }
}

/// A random 32-bit value: the high half of a random 64-bit value.
pub fn get_random_u32(st: &mut RngState, rdrand: Option<u64>, seed: &[u8; 40]) -> (r: Option<u32>)
    ensures
        final(st).initialized == old(st).initialized,
        rdrand matches Some(v) ==> r == Some((v >> 32u64) as u32) && *final(st) == *old(st),
        rdrand is None && !old(st).initialized ==> r is None && *final(st) == *old(st),
        rdrand is None && old(st).initialized ==> r == Some((le_u64(fill_bytes(*old(st), 8, seed@)) >> 32u64) as u32)
            && filled(*old(st), *final(st), 8, seed@),
{
    match get_random_u64(st, rdrand, seed) {
        Some(v) => Some((v >> 32u64) as u32),
        None => None,
    }
}

/// The key after mixing in entropy bytes: byte `i` goes into byte
/// `i % 4` of word `(i % 32) / 4`.
pub open spec fn mixed_key(key: Seq<u32>, data: Seq<u8>) -> Seq<u32>
    decreases data.len(),
{
    if data.len() == 0 {
        key
    } else {
        let k = mixed_key(key, data.drop_last());
        let i = data.len() - 1;
        let idx = i % 32;
        k.update(idx / 4, k[idx / 4] ^ ((data.last() as u32) << ((idx % 4) * 8) as u32))
    }
}

/// Add entropy: the estimate grows by `entropy_bits`, capped at the
/// maximum, and the bytes are mixed into the key.
pub fn add_entropy(st: &mut RngState, data: &[u8], entropy_bits: u32)
    requires
        old(st).entropy <= MAX_ENTROPY_BITS,
    ensures
        final(st).entropy == if old(st).entropy + entropy_bits > MAX_ENTROPY_BITS {
            MAX_ENTROPY_BITS
        } else {
            (old(st).entropy + entropy_bits) as u64
        },
        final(st).csprng.key@ == mixed_key(old(st).csprng.key@, data@),
        final(st).csprng.nonce == old(st).csprng.nonce,
        final(st).csprng.counter == old(st).csprng.counter,
        final(st).initialized == old(st).initialized,
{
    let current = st.entropy;
    st.entropy = current + entropy_bits as u64;
    if current + entropy_bits as u64 > MAX_ENTROPY_BITS {
        st.entropy = MAX_ENTROPY_BITS;
    }
    let mut i: usize = 0;
    while i < data.len()
        invariant
            i <= data@.len(),
            st.csprng.key@ == mixed_key(old(st).csprng.key@, data@.take(i as int)),
            st.csprng.nonce == old(st).csprng.nonce,
            st.csprng.counter == old(st).csprng.counter,
            st.initialized == old(st).initialized,
            st.entropy == if old(st).entropy + entropy_bits > MAX_ENTROPY_BITS {
                MAX_ENTROPY_BITS
            } else {
                (old(st).entropy + entropy_bits) as u64
            },
        decreases data@.len() - i,
    {
        let idx = i % 32;
        let word_idx = idx / 4;
        let shift = ((idx % 4) * 8) as u32;
        proof {
            assert(data@.take(i + 1).drop_last() =~= data@.take(i as int));
        }
        st.csprng.key[word_idx] = st.csprng.key[word_idx] ^ ((data[i] as u32) << shift);
        i = i + 1;
    }
    assert(data@.take(i as int) =~= data@);
}

/// getrandom() flag: don't block
pub const GRND_NONBLOCK: u32 = 0x0001;

/// getrandom() flag: use /dev/random (blocking) instead of /dev/urandom
pub const GRND_RANDOM: u32 = 0x0002;

/// getrandom() flag: return insecure random data if not initialized
pub const GRND_INSECURE: u32 = 0x0004;

/// What getrandom() does with a request.
#[derive(Clone, Copy, PartialEq, Eq, Structural)]
pub enum GetrandomAction {
    /// Fail with this error number.
    Fail(i32),
    /// Fill the buffer, reseeding first when entropy is short.
    FillWait,
    /// Fill the buffer.
    Fill,
}

/// getrandom() syscall: decide a request for `buflen` bytes at user
/// address `buf_addr`.
///
/// A null or kernel-space address is `EFAULT`.  With `GRND_RANDOM` the
/// bytes come with reseeding; with `GRND_NONBLOCK` as well, too little
/// entropy is `EAGAIN`.  Otherwise `GRND_NONBLOCK` before initialization
/// is `EAGAIN` unless `GRND_INSECURE` is given.
pub fn sys_getrandom(st: &RngState, buf_addr: u64, buflen: usize, flags: u32) -> (r: GetrandomAction)
    requires
        buflen * 8 <= u64::MAX,
    ensures
        r == if buf_addr == 0 || buf_addr >= 0xFFFF_8000_0000_0000 {
            GetrandomAction::Fail(EFAULT)
        } else if flags & GRND_RANDOM != 0 {
            if flags & GRND_NONBLOCK != 0 && st.entropy < buflen * 8 {
                GetrandomAction::Fail(EAGAIN)
            } else {
                GetrandomAction::FillWait
            }
        } else if flags & GRND_INSECURE != 0 {
            GetrandomAction::Fill
        } else if !st.initialized && flags & GRND_NONBLOCK != 0 {
            GetrandomAction::Fail(EAGAIN)
        } else {
            GetrandomAction::Fill
        },
{
    if buf_addr == 0 {
        return GetrandomAction::Fail(EFAULT);
    }
    if buf_addr >= 0xFFFF_8000_0000_0000 {
        return GetrandomAction::Fail(EFAULT);
    }
    if flags & GRND_RANDOM != 0 {
        if flags & GRND_NONBLOCK != 0 {
            if st.entropy < (buflen as u64) * 8 {
                return GetrandomAction::Fail(EAGAIN);
            }
        }
        GetrandomAction::FillWait
    } else if flags & GRND_INSECURE != 0 {
        GetrandomAction::Fill
    } else {
        if !st.initialized && flags & GRND_NONBLOCK != 0 {
            return GetrandomAction::Fail(EAGAIN);
        }
        GetrandomAction::Fill
    }
}

/// Read from /dev/random: the buffer is filled from the CSPRNG, reseeded
/// first when entropy is short (before initialization it is left to the
/// kernel to fill); its length is returned.
pub fn dev_random_read(st: &mut RngState, buf: &mut Vec<u8>, seed: &[u8; 40]) -> (r: usize)
    requires
        old(buf)@.len() * 8 <= u64::MAX,
    ensures
        r == old(buf)@.len(),
        final(buf)@.len() == old(buf)@.len(),
        final(st).initialized == old(st).initialized,
        old(st).initialized && old(st).entropy >= old(buf)@.len() * 8 ==> final(buf)@ == fill_bytes(*old(st), old(buf)@.len(), seed@)
            && filled(*old(st), *final(st), old(buf)@.len(), seed@),
        old(st).initialized && old(st).entropy < old(buf)@.len() * 8 ==> final(buf)@ == keystream(seed_key(seed@), 0, seed_nonce(seed@), old(buf)@.len())
            && drew_blocks(*old(st), *final(st), seed_key(seed@), seed_nonce(seed@), 0, MAX_ENTROPY_BITS, blocks_for(old(buf)@.len())),
        !old(st).initialized ==> final(buf)@ == old(buf)@,
{
    get_random_bytes_wait(st, buf, seed);
    buf.len()
}

/// Read from /dev/urandom: the buffer is filled from the CSPRNG (before
/// initialization it is left to the kernel to fill); its length is
/// returned.
pub fn dev_urandom_read(st: &mut RngState, buf: &mut Vec<u8>, seed: &[u8; 40]) -> (r: usize)
    ensures
        r == old(buf)@.len(),
        final(buf)@.len() == old(buf)@.len(),
        final(st).initialized == old(st).initialized,
        !old(st).initialized ==> *final(st) == *old(st) && final(buf)@ == old(buf)@,
        old(st).initialized ==> final(buf)@ == fill_bytes(*old(st), old(buf)@.len(), seed@)
            && filled(*old(st), *final(st), old(buf)@.len(), seed@),
{
    get_random_bytes(st, buf, seed);
    buf.len()
}

/// Write to /dev/random: the data is mixed in, credited with one bit per
/// byte up to 32; its length is returned.
pub fn dev_random_write(st: &mut RngState, data: &[u8]) -> (r: usize)
    requires
        old(st).entropy <= MAX_ENTROPY_BITS,
    ensures
        r == data@.len(),
        final(st).initialized == old(st).initialized,
        final(st).csprng.key@ == mixed_key(old(st).csprng.key@, data@),
        final(st).entropy == if old(st).entropy + (if data@.len() < 32 {
            data@.len() as int
        } else {
            32
        }) > MAX_ENTROPY_BITS {
            MAX_ENTROPY_BITS as int
        } else {
            old(st).entropy + (if data@.len() < 32 {
                data@.len() as int
            } else {
                32
            })
        },
{
    let bits: u32 = if data.len() < 32 {
        data.len() as u32
    } else {
        32
    };
    add_entropy(st, data, bits);
    data.len()
}

/// `n` follows `o` by a call that leaves initialization as it is: every
/// call on the generator but `init`, which sets it.
pub open spec fn keeps_initialized(o: RngState, n: RngState) -> bool {
    n.initialized == o.initialized
}

/// Law: the generator stays initialized.  Right after `init` it is
/// initialized with a full entropy estimate; every later call keeps it
/// initialized, over any number of calls.
pub proof fn law_rng_stays_initialized(a: RngState, b: RngState, c: RngState, rdrand: bool, rdseed: bool, seed: Seq<u8>)
    requires
        init_post(a, rdrand, rdseed, seed),
        keeps_initialized(a, b),
        keeps_initialized(b, c),
    ensures
        a.entropy == 4096,
        b.initialized,
        c.initialized,
{
}

/// Law: before `init` the generator is not initialized, and no other
/// call initializes it.
pub proof fn law_rng_uninitialized_until_init(a: RngState, b: RngState)
    requires
        !a.initialized,
        keeps_initialized(a, b),
    ensures
        !b.initialized,
{
}

} // verus!
