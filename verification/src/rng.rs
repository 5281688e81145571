//! A deterministic generator that expands a seed into a stream of 256-bit
//! blocks by hashing the seed's digest together with a block counter.
use vstd::prelude::*;

verus! {

/// The Keccak-256 digest of a byte string.
pub uninterp spec fn keccak256(bytes: Seq<u8>) -> Seq<u8>;

/// Hashes `bytes` with `stylus_sdk::crypto::keccak`, which computes
/// Keccak-256.
///
/// Trusted: the digest is a function of the hashed bytes alone. Nothing
/// else is claimed of it.
#[verifier::external_body]
fn keccak(bytes: &[u8]) -> (digest: [u8; 32])
    ensures
        digest@ == keccak256(bytes@),
{
    stylus_sdk::crypto::keccak(bytes).0
}

/// The four bytes of `x`, most significant first.
pub open spec fn be_bytes(x: u32) -> Seq<u8> {
    seq![
        (x / 0x100_0000) as u8,
        (x / 0x1_0000 % 0x100) as u8,
        (x / 0x100 % 0x100) as u8,
        (x % 0x100) as u8,
    ]
}

/// The integer whose `width` little-endian bytes open `bytes`.
pub open spec fn le_value(bytes: Seq<u8>, width: nat) -> nat
    decreases width,
{
    if width == 0 {
        0
    } else {
        bytes[0] as nat + 0x100 * le_value(bytes.skip(1), (width - 1) as nat)
    }
}

/// The mathematical state of a generator: the digest of its seed and the
/// number of the block it hands out next.
pub struct RngModel {
    pub base: Seq<u8>,
    pub counter: u32,
}

impl RngModel {
    /// The state of a generator right after seeding with `entropy`.
    pub open spec fn seeded(entropy: Seq<u8>) -> RngModel {
        RngModel { base: keccak256(entropy), counter: 0 }
    }

    /// The block this state hands out next.
    pub open spec fn block(self) -> Seq<u8> {
        keccak256(self.base + be_bytes(self.counter))
    }

    /// The state after `n` blocks were handed out. The counter has 32 bits
    /// and starts over at zero when they are used up.
    pub open spec fn skip(self, n: nat) -> RngModel {
        RngModel { base: self.base, counter: ((self.counter + n) % 0x1_0000_0000) as u32 }
    }

    /// Whether this state is reached from `earlier` by handing out one block
    /// or more.
    pub open spec fn follows(self, earlier: RngModel) -> bool {
        exists|blocks: nat| blocks >= 1 && self == #[trigger] earlier.skip(blocks)
    }

    /// The state after one block was handed out.
    pub open spec fn next(self) -> RngModel {
        self.skip(1)
    }

    /// Skipping `a` blocks and then `b` more is skipping `a + b`.
    pub proof fn lemma_skip_add(self, a: nat, b: nat)
        ensures
            self.skip(a).skip(b) == self.skip(a + b),
    {
        let m = 0x1_0000_0000int;
        let c = self.counter as int;
        assert(((c + a) % m + b) % m == (c + a + b) % m) by {
            vstd::arithmetic::div_mod::lemma_add_mod_noop(c + a, b as int, m);
            vstd::arithmetic::div_mod::lemma_mod_twice(c + a, m);
            vstd::arithmetic::div_mod::lemma_add_mod_noop((c + a) % m, b as int, m);
        }
    }

    /// The 32-bit word read from the next block: its first four bytes, least
    /// significant first.
    pub open spec fn word32(self) -> nat {
        le_value(self.block(), 4)
    }

    /// The 64-bit word read from the next block: its first eight bytes, least
    /// significant first.
    pub open spec fn word64(self) -> nat {
        le_value(self.block(), 8)
    }

    /// Byte `j` of the stream that starts at this state: the blocks laid end
    /// to end.
    pub open spec fn stream_byte(self, j: int) -> u8 {
        self.skip((j / 32) as nat).block()[j % 32]
    }
}

/// The number of 32-byte blocks it takes to cover `len` bytes.
pub open spec fn blocks_for(len: nat) -> nat {
    ((len + 31) / 32) as nat
}

/// A generator of pseudo-random blocks, each the digest of the seed's digest
/// followed by a 32-bit block counter.
pub struct RngKeccak256 {
    state: [u8; 32],
    counter: u32,
}

impl View for RngKeccak256 {
    type V = RngModel;

    closed spec fn view(&self) -> RngModel {
        RngModel { base: self.state@, counter: self.counter }
    }
}

impl RngKeccak256 {
    /// A generator whose stream is determined by `entropy`.
    pub fn seed(entropy: &[u8]) -> (rng: Self)
        ensures
            rng@ == RngModel::seeded(entropy@),
    {
        RngKeccak256 { state: keccak(entropy), counter: 0 }
    }

    /// Hands out the next block of the stream: the digest of the seed's
    /// digest followed by the counter as four bytes, most significant first.
    /// The counter goes up by one, and from its highest value back to zero.
    pub fn rand256(&mut self) -> (block: [u8; 32])
        ensures
            block@ == old(self)@.block(),
            final(self)@ == old(self)@.next(),
    {
        let mut buf: [u8; 36] = [0u8; 36];
        let mut i: usize = 0;
        while i < 32
            invariant
                i <= 32,
                forall|j: int| 0 <= j < i ==> buf@[j] == self.state@[j],
            decreases 32 - i,
        {
            buf[i] = self.state[i];
            i += 1;
        }
        let c: u32 = self.counter;
        buf[32] = (c / 0x100_0000) as u8;
        buf[33] = (c / 0x1_0000 % 0x100) as u8;
        buf[34] = (c / 0x100 % 0x100) as u8;
        buf[35] = (c % 0x100) as u8;
        assert(buf@ =~= self.state@ + be_bytes(c));
        self.counter = if c == u32::MAX {
            0
        } else {
            c + 1
        };
        keccak(buf.as_slice())
    }
}

/// Reads the first `width` bytes of a block as a little-endian integer.
fn le_word(block: &[u8; 32], width: usize) -> (w: u64)
    requires
        width <= 8,
    ensures
        w == le_value(block@, width as nat),
        w < pow256(width as nat),
{
    let mut w: u64 = 0;
    let mut k: usize = width;
    while k > 0
        invariant
            k <= width <= 8,
            w == le_value(block@.skip(k as int), (width - k) as nat),
            w < pow256((width - k) as nat),
        decreases k,
    {
        k -= 1;
        proof {
            lemma_pow256((width - k - 1) as nat);
            assert(block@.skip(k as int).skip(1) =~= block@.skip(k + 1));
            assert(block@.skip(k as int)[0] == block@[k as int]);
        }
        w = w * 0x100 + block[k] as u64;
    }
    assert(block@.skip(0) =~= block@);
    w
}

/// 256 to the power `n`.
spec fn pow256(n: nat) -> nat
    decreases n,
{
    if n == 0 {
        1
    } else {
        0x100 * pow256((n - 1) as nat)
    }
}

/// The powers of 256 that fit in 64 bits.
proof fn lemma_pow256(n: nat)
    requires
        n <= 8,
    ensures
        pow256(n) > 0,
        n < 8 ==> pow256(n) <= 0x100_0000_0000_0000,
        n == 4 ==> pow256(n) == 0x1_0000_0000,
{
    reveal_with_fuel(pow256, 9);
}

/// `rand::Error`, the error with which a generator may fail to fill a
/// buffer. This generator never fails; the type is only named in the
/// signature that the trait of generators prescribes.
#[verifier::external_type_specification]
#[verifier::external_body]
pub struct ExRandError(rand::Error);

/// The generator as a source of words and bytes for samplers. Words are read
/// least significant byte first, so that a stream gives the same words on
/// every machine.
impl rand::RngCore for RngKeccak256 {
    /// Spends one block and returns the word read from its first four bytes.
    fn next_u32(&mut self) -> (w: u32)
        ensures
            w == old(self)@.word32(),
            final(self)@ == old(self)@.next(),
    {
        let block = self.rand256();
        let w = le_word(&block, 4);
        proof {
            lemma_pow256(4);
        }
        w as u32
    }

    /// Spends one block and returns the word read from its first eight bytes.
    fn next_u64(&mut self) -> (w: u64)
        ensures
            w == old(self)@.word64(),
            final(self)@ == old(self)@.next(),
    {
        let block = self.rand256();
        le_word(&block, 8)
    }

    /// Fills `dest` with the bytes of successive blocks laid end to end; of
    /// the last block only as many bytes are used as `dest` still has room
    /// for.
    fn fill_bytes(&mut self, dest: &mut [u8])
        ensures
            final(dest)@.len() == old(dest)@.len(),
            forall|j: int|
                0 <= j < old(dest)@.len() ==> final(dest)@[j] == old(self)@.stream_byte(j),
            final(self)@ == old(self)@.skip(blocks_for(old(dest)@.len())),
    {
        let n = dest.len();
        let mut i: usize = 0;
        let ghost mut blocks: nat = 0;
        while i < n
            invariant
                dest@.len() == n,
                i <= n,
                i < n ==> i == 32 * blocks,
                i == n ==> blocks == blocks_for(n as nat),
                self@ == old(self)@.skip(blocks),
                forall|j: int| 0 <= j < i ==> dest@[j] == old(self)@.stream_byte(j),
            decreases n - i,
        {
            let block = self.rand256();
            proof {
                old(self)@.lemma_skip_add(blocks, 1);
            }
            let mut k: usize = 0;
            while k < 32 && i < n
                invariant
                    dest@.len() == n,
                    k <= 32,
                    i <= n,
                    i == 32 * blocks + k,
                    block@ == old(self)@.skip(blocks).block(),
                    forall|j: int| 0 <= j < i ==> dest@[j] == old(self)@.stream_byte(j),
                decreases 32 - k,
            {
                proof {
                    assert((i as int) / 32 == blocks && (i as int) % 32 == k);
                }
                dest[i] = block[k];
                i += 1;
                k += 1;
            }
            proof {
                blocks = blocks + 1;
            }
        }
    }

    /// Fills `dest` as `fill_bytes` does. It cannot fail.
    fn try_fill_bytes(&mut self, dest: &mut [u8]) -> (res: Result<(), rand::Error>)
        ensures
            res is Ok,
            final(dest)@.len() == old(dest)@.len(),
            forall|j: int|
                0 <= j < old(dest)@.len() ==> final(dest)@[j] == old(self)@.stream_byte(j),
            final(self)@ == old(self)@.skip(blocks_for(old(dest)@.len())),
    {
        self.fill_bytes(dest);
        Ok(())
    }
}

/// Determinism of the stream: the block handed out after `n` earlier ones is
/// the digest of the seed's digest followed by `n`, reduced to 32 bits, as
/// four big-endian bytes. It depends on the entropy and on `n`, and on nothing
/// else.
pub proof fn lemma_stream_is_determined_by_seed(entropy: Seq<u8>, n: nat)
    ensures
        RngModel::seeded(entropy).skip(n).block() == keccak256(
            keccak256(entropy) + be_bytes((n % 0x1_0000_0000) as u32),
        ),
{
}

} // verus!
