//! Laws that relate several operations of the small-integer layer.
use vstd::prelude::*;
use crate::shortint::ciphertext::{
    Ciphertext, CompactCiphertextList, CompressedCiphertext, Degree, max_usize, min_usize,
};
use crate::shortint::engine::encrypts_with_noise;

verus! {

/// The AND bound holds for every pair of plaintexts under the two degrees: `x & y` never
/// exceeds the smaller degree, which is what `after_bitand` returns. The OR and XOR bounds
/// are at least the larger degree, since their scan starts there.
pub proof fn lemma_bitwise_degree_bounds(a: Degree, b: Degree)
    ensures
        forall|x: usize, y: usize|
            x <= a.0 && y <= b.0 ==> #[trigger] (x & y) <= min_usize(a.0, b.0),
        max_usize(a.0, b.0) >= a.0,
        max_usize(a.0, b.0) >= b.0,
        min_usize(a.0, b.0) <= a.0,
        min_usize(a.0, b.0) <= b.0,
{
    assert forall|x: usize, y: usize| x <= a.0 && y <= b.0 implies #[trigger] (x & y) <= min_usize(
        a.0,
        b.0,
    ) by {
        assert(x & y <= x) by (bit_vector);
        assert(x & y <= y) by (bit_vector);
    }
}

/// Decompressing a compressed encryption gives a ciphertext that encrypts the same
/// plaintext under the same key with the same noise bound, and keeps the degree, noise
/// level, moduli and order: `c` is what compressed encryption returns and `d` what
/// `decompress` returns for it.
pub proof fn lemma_decompress_round_trip(
    c: CompressedCiphertext,
    d: Ciphertext,
    key: Seq<u64>,
    plaintext: int,
    noise_bound_log: u32,
)
    requires
        encrypts_with_noise(c.ct.decompressed_spec(), key, plaintext, noise_bound_log),
        d.ct.data@ == c.ct.decompressed_spec(),
        d.degree == c.degree,
        d.noise_level == c.noise_level,
        d.message_modulus == c.message_modulus,
        d.carry_modulus == c.carry_modulus,
        d.pbs_order == c.pbs_order,
    ensures
        encrypts_with_noise(d.ct.data@, key, plaintext, noise_bound_log),
        d.degree == c.degree && d.noise_level == c.noise_level,
        d.message_modulus == c.message_modulus && d.carry_modulus == c.carry_modulus,
        d.pbs_order == c.pbs_order,
{
}

/// Expanding a compact list of `n` encryptions gives exactly `n` ciphertexts, the `i`-th
/// encrypting the `i`-th plaintext: `list` is what compact encryption returns and
/// `expanded` what `expand` returns for it.
pub proof fn lemma_expand_round_trip(
    list: CompactCiphertextList,
    expanded: Seq<Ciphertext>,
    key: Seq<u64>,
    plaintexts: Seq<int>,
    noise_bound_log: u32,
)
    requires
        list.ct_list.body_list@.len() == plaintexts.len(),
        forall|c: int|
            0 <= c < plaintexts.len() ==> #[trigger] encrypts_with_noise(
                list.ct_list.sample_spec(c),
                key,
                plaintexts[c],
                noise_bound_log,
            ),
        expanded.len() == list.ct_list.body_list@.len(),
        forall|c: int| 0 <= c < expanded.len() ==> list.is_expanded(#[trigger] expanded[c], c),
    ensures
        expanded.len() == plaintexts.len(),
        forall|c: int|
            0 <= c < expanded.len() ==> #[trigger] encrypts_with_noise(
                expanded[c].ct.data@,
                key,
                plaintexts[c],
                noise_bound_log,
            ),
{
    assert forall|c: int| 0 <= c < expanded.len() implies #[trigger] encrypts_with_noise(
        expanded[c].ct.data@,
        key,
        plaintexts[c],
        noise_bound_log,
    ) by {
        assert(list.is_expanded(expanded[c], c));
        assert(encrypts_with_noise(list.ct_list.sample_spec(c), key, plaintexts[c], noise_bound_log));
    }
}

} // verus!
