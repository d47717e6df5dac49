use vstd::prelude::*;

use rand::RngCore;
use rand::SeedableRng;

use crate::group::{FromRng, Group};

verus! {

/// The number of bytes in a seed.
pub const SEED_LEN: usize = 32;

/// The number of stream bytes drawn from a seed per expansion:
/// two child seeds, two control bytes, four unused bytes, a converted
/// seed and a four-byte draw.
pub const BLOCK_LEN: usize = 104;

/// What the ChaCha20 generator of `rand_chacha`, seeded with `seed` and
/// with its stream position at zero, writes into a buffer of `len` bytes.
pub uninterp spec fn chacha20_stream(seed: Seq<u8>, len: nat) -> Seq<u8>;

/// Seeds `rand_chacha::ChaCha20Rng` with `seed` (`SeedableRng::from_seed`)
/// and fills a fresh buffer of `len` bytes with `RngCore::fill_bytes`.
/// The contract claims that the bytes are a function of the seed and the
/// length alone, named `chacha20_stream`, and that the whole buffer is
/// returned.
#[verifier::external_body]
fn chacha20_bytes(seed: [u8; 32], len: usize) -> (out: Vec<u8>)
    ensures
        out@.len() == len,
        out@ == chacha20_stream(seed@, len as nat),
{
    let mut rng = rand_chacha::ChaCha20Rng::from_seed(seed);
    let mut out = vec![0u8; len];
    rng.fill_bytes(&mut out);
    out
}

/// Thirty-two bytes from `rand::random`, which draws from the thread-local
/// generator of `rand`. Nothing is claimed of the bytes.
#[verifier::external_body]
fn random_key() -> (out: [u8; 32]) {
    rand::random::<[u8; 32]>()
}

/// The bytes that a seed expands to.
pub open spec fn prg_block(s: Seq<u8>) -> Seq<u8> {
    chacha20_stream(s, BLOCK_LEN as nat)
}

/// The child seed in direction `dir` (`false` for left, `true` for right).
pub open spec fn expand_seed(s: Seq<u8>, dir: bool) -> Seq<u8> {
    let off: int = if dir { 32 } else { 0 };
    Seq::new(32, |i: int| prg_block(s)[off + i])
}

/// The control bit in direction `dir`: the low bit of its control byte.
pub open spec fn expand_bit(s: Seq<u8>, dir: bool) -> bool {
    let at: int = if dir { 65 } else { 64 };
    prg_block(s)[at] % 2 == 1
}

/// The seed that `convert` hands out beside the word.
pub open spec fn convert_seed(s: Seq<u8>) -> Seq<u8> {
    Seq::new(32, |i: int| prg_block(s)[68 + i])
}

/// The little-endian 32-bit draw from which `convert` builds its word.
pub open spec fn convert_draw(s: Seq<u8>) -> u32 {
    let b = prg_block(s);
    (b[100] as int + 0x100 * b[101] as int + 0x1_0000 * b[102] as int + 0x100_0000
        * b[103] as int) as u32
}

/// Bytewise exclusive or of two seeds.
pub open spec fn seq_xor(a: Seq<u8>, b: Seq<u8>) -> Seq<u8> {
    Seq::new(32, |i: int| a[i] ^ b[i])
}

/// A seed of the pseudorandom generator.
#[derive(Clone, Copy, Debug)]
pub struct PrgSeed {
    pub key: [u8; 32],
}

/// Two child seeds and two control bits.
#[derive(Clone, Copy, Debug)]
pub struct PrgOutput {
    pub bits: (bool, bool),
    pub seeds: (PrgSeed, PrgSeed),
}

/// A fresh seed and a group element drawn from a seed.
#[derive(Debug)]
pub struct ConvertOutput<T> {
    pub seed: PrgSeed,
    pub word: T,
}

impl PrgOutput {
    /// The child seed in direction `dir`.
    pub fn seed_in(&self, dir: bool) -> (r: PrgSeed)
        ensures
            r == (if dir { self.seeds.1 } else { self.seeds.0 }),
    {
        if dir {
            self.seeds.1
        } else {
            self.seeds.0
        }
    }

    /// The control bit in direction `dir`.
    pub fn bit_in(&self, dir: bool) -> (r: bool)
        ensures
            r == (if dir { self.bits.1 } else { self.bits.0 }),
    {
        if dir {
            self.bits.1
        } else {
            self.bits.0
        }
    }
}

/// The 32 bytes of `bytes` from `off` on, as a key.
fn key_at(bytes: &Vec<u8>, off: usize) -> (r: [u8; 32])
    requires
        off + 32 <= bytes@.len(),
    ensures
        r@ == Seq::new(32, |i: int| bytes@[off + i]),
{
    let mut key: [u8; 32] = [0u8; 32];
    let mut i: usize = 0;
    while i < 32
        invariant
            i <= 32,
            off + 32 <= bytes.len(),
            key@.len() == 32,
            forall|j: int| 0 <= j < i ==> key@[j] == bytes@[off + j],
        decreases 32 - i,
    {
        key[i] = bytes[off + i];
        i = i + 1;
    }
    assert(key@ =~= Seq::new(32, |i: int| bytes@[off + i]));
    key
}

impl PrgSeed {
    /// A seed drawn from the thread-local generator of `rand`.
    pub fn random() -> (r: PrgSeed) {
        PrgSeed { key: random_key() }
    }

    /// The two child seeds and control bits of this seed.
    pub fn expand(&self) -> (r: PrgOutput)
        ensures
            r.seeds.0.key@ == expand_seed(self.key@, false),
            r.seeds.1.key@ == expand_seed(self.key@, true),
            r.bits.0 == expand_bit(self.key@, false),
            r.bits.1 == expand_bit(self.key@, true),
    {
        let block = chacha20_bytes(self.key, BLOCK_LEN);
        let left = PrgSeed { key: key_at(&block, 0) };
        let right = PrgSeed { key: key_at(&block, 32) };
        let bl: bool = block[64] % 2 == 1;
        let br: bool = block[65] % 2 == 1;
        PrgOutput { bits: (bl, br), seeds: (left, right) }
    }

    /// A fresh seed and a group element built from the generator's output.
    pub fn convert<T: FromRng + Group>(&self) -> (r: ConvertOutput<T>)
        ensures
            r.seed.key@ == convert_seed(self.key@),
            r.word == T::spec_from_rng(convert_draw(self.key@)),
    {
        let block = chacha20_bytes(self.key, BLOCK_LEN);
        let seed = PrgSeed { key: key_at(&block, 68) };
        let draw: u32 = block[100] as u32 + 0x100 * (block[101] as u32) + 0x1_0000 * (
        block[102] as u32) + 0x100_0000 * (block[103] as u32);
        let mut word = T::zero();
        word.from_rng(draw);
        ConvertOutput { seed, word }
    }

    /// The bytewise exclusive or of two seeds.
    pub fn xor(&self, other: &PrgSeed) -> (r: PrgSeed)
        ensures
            r.key@ == seq_xor(self.key@, other.key@),
    {
        let mut key: [u8; 32] = [0u8; 32];
        let mut i: usize = 0;
        while i < 32
            invariant
                i <= 32,
                key@.len() == 32,
                forall|j: int| 0 <= j < i ==> key@[j] == self.key@[j] ^ other.key@[j],
            decreases 32 - i,
        {
            key[i] = self.key[i] ^ other.key[i];
            i = i + 1;
        }
        assert(key@ =~= seq_xor(self.key@, other.key@));
        PrgSeed { key }
    }
}

} // verus!
