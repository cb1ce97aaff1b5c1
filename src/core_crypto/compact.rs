//! Seeded (compressed) LWE samples and compact lists of LWE samples sharing one mask.
use vstd::prelude::*;
use crate::core_crypto::lwe::{CiphertextModulus, LweCiphertext, sub_mod, wrap};
use crate::core_crypto::random::{csprng_bytes, seeded_words, words_of_bytes};

verus! {

/// An LWE sample whose mask is the first words that the generator keyed by
/// `compression_seed` outputs; only the body is stored.
#[derive(Debug, Clone, Copy, PartialEq, Eq, Structural)]
pub struct SeededLweCiphertext {
    pub body: u64,
    pub lwe_size: usize,
    pub compression_seed: u128,
    pub ciphertext_modulus: CiphertextModulus,
}

/// The mask of `lwe_dimension` words regenerated from `seed`.
pub open spec fn seeded_mask(seed: u128, lwe_dimension: nat) -> Seq<u64> {
    words_of_bytes(csprng_bytes(seed, 8 * lwe_dimension), lwe_dimension)
}

impl SeededLweCiphertext {
    pub open spec fn wf(&self) -> bool {
        1 <= self.lwe_size <= usize::MAX / 8
    }

    /// The full sample: regenerated mask, then body.
    pub open spec fn decompressed_spec(&self) -> Seq<u64> {
        seeded_mask(self.compression_seed, (self.lwe_size - 1) as nat).push(self.body)
    }

    /// Regenerates the mask and returns the full sample.
    pub fn decompress_into_lwe_ciphertext(self) -> (r: LweCiphertext)
        requires
            self.wf(),
        ensures
            r.data@ == self.decompressed_spec(),
            r.ciphertext_modulus == self.ciphertext_modulus,
    {
        let mut data = seeded_words(self.compression_seed, self.lwe_size - 1);
        data.push(self.body);
        LweCiphertext { data, ciphertext_modulus: self.ciphertext_modulus }
    }
}

/// A list of LWE samples stored as one mask per bin of `lwe_dimension` samples and one
/// body per sample; sample `i` of a bin has the mask of the negacyclic product that gives
/// coefficient `i` of the bin's mask times the key.
#[derive(Debug, Clone, PartialEq)]
pub struct LweCompactCiphertextList {
    pub lwe_dimension: usize,
    pub mask_list: Vec<u64>,
    pub body_list: Vec<u64>,
    pub ciphertext_modulus: CiphertextModulus,
}

/// Coefficient `k` of the mask of sample `i` in a bin whose mask is `a`, of length `n`:
/// `a[i - k]` for `k <= i`, else `-a[n + i - k]`.
pub open spec fn compact_mask_coef(a: Seq<u64>, n: int, i: int, k: int) -> u64 {
    if k <= i {
        a[i - k]
    } else {
        wrap(-a[n + i - k]) as u64
    }
}

/// The mask of sample `c` of a list with masks `masks` and dimension `n`.
pub open spec fn compact_mask(masks: Seq<u64>, n: int, c: int) -> Seq<u64> {
    let bin = c / n;
    let i = c % n;
    Seq::new(n as nat, |k: int| compact_mask_coef(masks.subrange(bin * n, bin * n + n), n, i, k))
}

impl LweCompactCiphertextList {
    pub open spec fn wf(&self) -> bool {
        &&& 1 <= self.lwe_dimension
        &&& self.lwe_dimension < usize::MAX
        &&& (self.mask_list@.len() as int) % (self.lwe_dimension as int) == 0
        &&& self.body_list@.len() <= self.mask_list@.len()
    }

    /// Sample `c` of the list, mask then body.
    pub open spec fn sample_spec(&self, c: int) -> Seq<u64> {
        compact_mask(self.mask_list@, self.lwe_dimension as int, c).push(self.body_list@[c])
    }

    /// The number of words stored: all masks and all bodies.
    pub fn size_elements(&self) -> (r: usize)
        requires
            self.mask_list@.len() + self.body_list@.len() <= usize::MAX,
        ensures
            r == self.mask_list@.len() + self.body_list@.len(),
    {
        self.mask_list.len() + self.body_list.len()
    }

    /// The number of bytes stored, eight per word.
    pub fn size_bytes(&self) -> (r: usize)
        requires
            8 * (self.mask_list@.len() + self.body_list@.len()) <= usize::MAX,
        ensures
            r == 8 * (self.mask_list@.len() + self.body_list@.len()),
    {
        8 * (self.mask_list.len() + self.body_list.len())
    }

    /// Builds the mask of sample `c`.
    pub fn mask_of(&self, c: usize) -> (r: Vec<u64>)
        requires
            self.wf(),
            c < self.body_list@.len(),
        ensures
            r@ == compact_mask(self.mask_list@, self.lwe_dimension as int, c as int),
    {
        compact_mask_at(&self.mask_list, self.lwe_dimension, c)
    }

}

proof fn lemma_bin_in_range(c: int, n: int, len: int)
    requires
        1 <= n,
        0 <= c < len,
        len % n == 0,
    ensures
        (c / n) * n + n <= len,
        0 <= (c / n) * n,
        c % n < n,
        0 <= c % n,
{
    vstd::arithmetic::div_mod::lemma_fundamental_div_mod(c, n);
    vstd::arithmetic::div_mod::lemma_fundamental_div_mod(len, n);
    vstd::arithmetic::div_mod::lemma_mod_bound(c, n);
    assert((c / n) * n + n <= len) by (nonlinear_arith)
        requires
            c == n * (c / n) + c % n,
            len == n * (len / n),
            0 <= c % n < n,
            c < len,
            1 <= n,
    ;
    assert(0 <= (c / n) * n) by (nonlinear_arith)
        requires
            0 <= c,
            1 <= n,
            c == n * (c / n) + c % n,
            c % n < n,
    ;
}

/// The mask of sample `c` of a compact list whose masks are `mask_list`, in bins of `n`.
pub fn compact_mask_at(mask_list: &Vec<u64>, n: usize, c: usize) -> (r: Vec<u64>)
    requires
        1 <= n,
        (mask_list@.len() as int) % (n as int) == 0,
        c < mask_list@.len(),
    ensures
        r@ == compact_mask(mask_list@, n as int, c as int),
{
    let len = mask_list.len();
    let bin = c / n;
    let i = c % n;
    proof {
        lemma_bin_in_range(c as int, n as int, mask_list@.len() as int);
    }
    assert(bin * n + n <= len);
    let start = bin * n;
    let ghost a = mask_list@.subrange(start as int, start + n);
    let mut out: Vec<u64> = Vec::new();
    let mut k: usize = 0;
    while k < n
        invariant
            i < n,
            start + n <= mask_list@.len(),
            len == mask_list@.len(),
            a == mask_list@.subrange(start as int, start + n),
            k <= n,
            out@.len() == k,
            forall|j: int| 0 <= j < k ==> out@[j] == compact_mask_coef(a, n as int, i as int, j),
        decreases n - k,
    {
        let v = if k <= i {
            mask_list[start + (i - k)]
        } else {
            sub_mod(0, mask_list[start + n - (k - i)])
        };
        out.push(v);
        k = k + 1;
    }
    assert(out@ =~= compact_mask(mask_list@, n as int, c as int));
    out
}

} // verus!
