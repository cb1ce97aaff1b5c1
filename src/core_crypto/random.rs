//! Random material for key generation and encryption, drawn from an AES-CTR generator.
use vstd::prelude::*;
use concrete_csprng::generators::{RandomGenerator, SoftwareRandomGenerator};
use concrete_csprng::seeders::Seed;
use crate::core_crypto::lwe::{wrap, sub_mod};

verus! {

#[verifier::external_type_specification]
#[verifier::external_body]
pub struct ExSoftwareRandomGenerator(SoftwareRandomGenerator);

/// The first `n` bytes that the AES-CTR generator keyed by `seed` outputs.
pub uninterp spec fn csprng_bytes(seed: u128, n: nat) -> Seq<u8>;

/// Relies on `RandomGenerator::new` and the generator's byte stream: the first `n` bytes of
/// a fresh generator keyed by `seed`, which depend on the seed alone. A fresh generator
/// can output 2^132 bytes, so all `n` come.
#[verifier::external_body]
fn seeded_bytes(seed: u128, n: usize) -> (r: Vec<u8>)
    ensures
        r@ == csprng_bytes(seed, n as nat),
        r@.len() == n,
{
    SoftwareRandomGenerator::new(Seed(seed)).take(n).collect()
}

/// Relies on `RandomGenerator::new`: a generator keyed by `seed`.
#[verifier::external_body]
fn new_software_generator(seed: u128) -> (r: SoftwareRandomGenerator) {
    SoftwareRandomGenerator::new(Seed(seed))
}

/// Fewer bytes than a fresh AES-CTR generator can output (2^132): `2^128`.
pub open spec fn byte_budget() -> nat {
    vstd::arithmetic::power2::pow2(128)
}

/// A generator built by [`new_software_generator`], with the number of bytes requested from
/// it since.
struct CountedGenerator {
    inner: SoftwareRandomGenerator,
    requested: Ghost<nat>,
}

impl CountedGenerator {
    /// A fresh generator keyed by `seed`; no byte has been requested yet.
    fn new(seed: u128) -> (r: Self)
        ensures
            r.requested@ == 0,
    {
        CountedGenerator { inner: new_software_generator(seed), requested: Ghost(0) }
    }
}

/// Relies on `RandomGenerator::next_byte`: the next byte of the stream; it is `None` only
/// once the generator has reached its bound, more than `2^128` bytes after it was built by
/// `RandomGenerator::new`. Each call counts as one requested byte.
#[verifier::external_body]
fn next_byte(g: &mut CountedGenerator) -> (r: Option<u8>)
    ensures
        final(g).requested@ == old(g).requested@ + 1,
        old(g).requested@ < byte_budget() ==> r is Some,
{
    g.inner.next_byte()
}

/// The little-endian word of the eight bytes `b[at..at + 8]`.
pub open spec fn le_word(b: Seq<u8>, at: int) -> int {
    le_word_from(b, at, 0)
}

/// The words that the bytes `b` give, eight little-endian bytes each.
pub open spec fn words_of_bytes(b: Seq<u8>, n: nat) -> Seq<u64> {
    Seq::new(n, |i: int| le_word(b, 8 * i) as u64)
}

/// Assembles the word of the eight bytes at `at`, least significant first.
pub fn word_at(b: &Vec<u8>, at: usize) -> (r: u64)
    requires
        at + 8 <= b@.len(),
        at + 8 <= usize::MAX,
    ensures
        r == le_word(b@, at as int),
{
    let mut acc: u64 = 0;
    let mut k: usize = 8;
    while k > 0
        invariant
            k <= 8,
            at + 8 <= b@.len(),
            at + 8 <= usize::MAX,
            acc as int == (if k == 8 {
                0
            } else {
                le_word_from(b@, at as int, k as int)
            }),
            acc < pow256(8 - k),
        decreases k,
    {
        k = k - 1;
        assert(at + k < b@.len());
        let idx: usize = at + k;
        let byte = b[idx] as u64;
        proof {
            lemma_le_word_step(b@, at as int, k as int, acc as int);
        }
        acc = acc * 256 + byte;
    }
    acc
}

pub open spec fn pow256(e: int) -> int
    decreases e,
{
    if e <= 0 {
        1
    } else {
        256 * pow256(e - 1)
    }
}

/// The value of the bytes `b[at + k..at + 8]`, least significant first.
pub open spec fn le_word_from(b: Seq<u8>, at: int, k: int) -> int
    decreases 8 - k,
{
    if k >= 8 {
        0
    } else {
        b[at + k] as int + 256 * le_word_from(b, at, k + 1)
    }
}

proof fn lemma_le_word_step(b: Seq<u8>, at: int, k: int, acc: int)
    requires
        0 <= k < 8,
        acc == (if k + 1 == 8 {
            0
        } else {
            le_word_from(b, at, k + 1)
        }),
        0 <= acc < pow256(7 - k),
        0 <= at + k < b.len(),
    ensures
        acc * 256 + b[at + k] == le_word_from(b, at, k),
        0 <= acc * 256 + b[at + k] < pow256(8 - k),
        acc * 256 + b[at + k] <= u64::MAX,
{
    assert(le_word_from(b, at, 8) == 0);
    assert(pow256(8 - k) == 256 * pow256(7 - k));
    assert(pow256(0) == 1);
    assert(pow256(1) == 256);
    assert(pow256(2) == 0x10000);
    assert(pow256(3) == 0x1000000);
    assert(pow256(4) == 0x100000000);
    assert(pow256(5) == 0x10000000000);
    assert(pow256(6) == 0x1000000000000);
    assert(pow256(7) == 0x100000000000000);
    assert(pow256(8) == 0x10000000000000000);
    assert(acc * 256 + b[at + k] < pow256(8 - k)) by (nonlinear_arith)
        requires
            acc < pow256(7 - k),
            pow256(8 - k) == 256 * pow256(7 - k),
            b[at + k] < 256,
    ;
}

/// The two AES-CTR generators of encryption: one for the public masks, one for the
/// secret material (keys and noise).
pub struct EncryptionRandomGenerator {
    mask_generator: CountedGenerator,
    noise_generator: CountedGenerator,
}

/// A generator reached the end of its stream.
#[derive(Debug, Clone, Copy, PartialEq, Eq, Structural)]
pub struct GeneratorExhausted;

impl EncryptionRandomGenerator {
    /// The number of bytes requested from both streams so far.
    pub closed spec fn used(&self) -> nat {
        self.mask_generator.requested@ + self.noise_generator.requested@
    }

    /// Keys the mask generator with `mask_seed` and the noise generator with `noise_seed`.
    pub fn new(mask_seed: u128, noise_seed: u128) -> (r: Self)
        ensures
            r.used() == 0,
    {
        EncryptionRandomGenerator {
            mask_generator: CountedGenerator::new(mask_seed),
            noise_generator: CountedGenerator::new(noise_seed),
        }
    }

    /// `n` uniform words of the mask stream.
    pub fn random_mask(&mut self, n: usize) -> (r: Result<Vec<u64>, GeneratorExhausted>)
        ensures
            r is Ok ==> r->Ok_0@.len() == n,
            final(self).used() <= old(self).used() + 8 * n,
            old(self).used() + 8 * n <= byte_budget() ==> r is Ok,
    {
        let mut out: Vec<u64> = Vec::new();
        while out.len() < n
            invariant
                out@.len() <= n,
                self.used() <= old(self).used() + 8 * out@.len(),
                old(self).used() + 8 * n <= byte_budget() ==> self.used() == old(self).used() + 8
                    * out@.len(),
            decreases n - out@.len(),
        {
            let w = word_from_stream(&mut self.mask_generator)?;
            out.push(w);
        }
        Ok(out)
    }

    /// `n` uniform bits of the secret stream, one per word.
    pub fn random_binary(&mut self, n: usize) -> (r: Result<Vec<u64>, GeneratorExhausted>)
        ensures
            r is Ok ==> r->Ok_0@.len() == n,
            r is Ok ==> forall|i: int| 0 <= i < n ==> #[trigger] r->Ok_0@[i] <= 1,
            final(self).used() <= old(self).used() + n,
            old(self).used() + n <= byte_budget() ==> r is Ok,
    {
        let mut out: Vec<u64> = Vec::new();
        while out.len() < n
            invariant
                out@.len() <= n,
                forall|i: int| 0 <= i < out@.len() ==> #[trigger] out@[i] <= 1,
                self.used() == old(self).used() + out@.len(),
            decreases n - out@.len(),
        {
            let b = match next_byte(&mut self.noise_generator) {
                Some(b) => b,
                None => {
                    return Err(GeneratorExhausted);
                },
            };
            let bit = (b & 1) as u64;
            assert((b & 1) <= 1) by (bit_vector);
            out.push(bit);
        }
        Ok(out)
    }

    /// A noise value drawn from the bounded distribution on `[-2^bound_log, 2^bound_log]`
    /// that adds a uniform value of `bound_log + 1` bits and one more uniform bit, then
    /// recenters; the result is that value modulo `2^64`.
    pub fn random_noise(&mut self, bound_log: u32) -> (r: Result<u64, GeneratorExhausted>)
        requires
            bound_log < 62,
        ensures
            final(self).used() <= old(self).used() + 8,
            old(self).used() + 8 <= byte_budget() ==> r is Ok,
            r is Ok ==> exists|e: int|
                -pow2(bound_log as nat) <= e <= pow2(bound_log as nat) && r->Ok_0 == wrap(e),
    {
        let w = word_from_stream(&mut self.noise_generator)?;
        let span: u64 = 1u64 << (bound_log + 1);
        let half: u64 = 1u64 << bound_log;
        assert(span > 0) by (bit_vector)
            requires
                bound_log < 62,
                span == 1u64 << (bound_log + 1),
        ;
        let v = w % span;
        let c = (w >> 63) & 1;
        proof {
            assert(span == 2 * half) by (bit_vector)
                requires
                    bound_log < 62,
                    span == 1u64 << (bound_log + 1),
                    half == 1u64 << bound_log,
            ;
            assert(c <= 1) by (bit_vector)
                requires
                    c == (w >> 63) & 1,
            ;
            assert(half == pow2(bound_log as nat)) by {
                vstd::arithmetic::power2::lemma_pow2_strictly_increases(bound_log as nat, 64);
                vstd::arithmetic::power2::lemma2_to64();
                vstd::bits::lemma_u64_shl_is_mul(1, bound_log as u64);
            }
            assert(half <= 0x4000_0000_0000_0000) by (bit_vector)
                requires
                    bound_log < 62,
                    half == 1u64 << bound_log,
            ;
        }
        let e = sub_mod(v + c, half);
        proof {
            let k = v + c - half;
            assert(-pow2(bound_log as nat) <= k <= pow2(bound_log as nat));
        }
        Ok(e)
    }
}

pub open spec fn pow2(e: nat) -> int {
    vstd::arithmetic::power2::pow2(e) as int
}

/// Eight bytes of `g`, least significant first.
fn word_from_stream(g: &mut CountedGenerator) -> (r: Result<u64, GeneratorExhausted>)
    ensures
        final(g).requested@ <= old(g).requested@ + 8,
        old(g).requested@ + 8 <= byte_budget() ==> r is Ok && final(g).requested@
            == old(g).requested@ + 8,
{
    let mut bytes: Vec<u8> = Vec::new();
    while bytes.len() < 8
        invariant
            bytes@.len() <= 8,
            g.requested@ == old(g).requested@ + bytes@.len(),
        decreases 8 - bytes@.len(),
    {
        match next_byte(g) {
            Some(b) => bytes.push(b),
            None => {
                return Err(GeneratorExhausted);
            },
        }
    }
    Ok(word_at(&bytes, 0))
}

/// The `n` words that the generator keyed by `seed` gives first, eight bytes each.
pub fn seeded_words(seed: u128, n: usize) -> (r: Vec<u64>)
    requires
        n <= usize::MAX / 8,
    ensures
        r@ == words_of_bytes(csprng_bytes(seed, 8 * n as nat), n as nat),
{
    let bytes = seeded_bytes(seed, 8 * n);
    let mut out: Vec<u64> = Vec::new();
    let mut i: usize = 0;
    while i < n
        invariant
            i <= n <= usize::MAX / 8,
            bytes@ == csprng_bytes(seed, 8 * n as nat),
            bytes@.len() == 8 * n,
            out@.len() == i,
            forall|j: int| 0 <= j < i ==> out@[j] == le_word(bytes@, 8 * j) as u64,
        decreases n - i,
    {
        let w = word_at(&bytes, 8 * i);
        out.push(w);
        i = i + 1;
    }
    assert(out@ =~= words_of_bytes(bytes@, n as nat));
    out
}

} // verus!
