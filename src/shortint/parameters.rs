//! The parameters of a small-integer scheme.
use vstd::prelude::*;
use crate::core_crypto::bootstrap::{glwe_shape_ok, pow2_usize};
use crate::core_crypto::keyswitch::decomposition_wf;
use crate::core_crypto::lwe::CiphertextModulus;
use crate::shortint::ciphertext::{CarryModulus, MessageModulus, PBSOrder};

verus! {

/// Lattice dimensions, decompositions, noise bounds and plaintext moduli of a scheme whose
/// refresh is a classic programmable bootstrap. Noise is drawn from the bounded
/// distribution on `[-2^b, 2^b]` with `b` the matching `*_noise_bound_log`.
#[derive(Debug, Clone, Copy, PartialEq, Eq, Structural)]
pub struct ClassicPBSParameters {
    pub lwe_dimension: usize,
    pub glwe_dimension: usize,
    pub log_polynomial_size: u32,
    pub lwe_noise_bound_log: u32,
    pub glwe_noise_bound_log: u32,
    pub pbs_base_log: u32,
    pub pbs_level: u32,
    pub ks_base_log: u32,
    pub ks_level: u32,
    pub message_modulus: MessageModulus,
    pub carry_modulus: CarryModulus,
    pub max_noise_level: usize,
    pub ciphertext_modulus: CiphertextModulus,
    pub pbs_order: PBSOrder,
}

/// The plaintext space `message_modulus * carry_modulus`.
pub open spec fn plaintext_space(message_modulus: MessageModulus, carry_modulus: CarryModulus) -> int {
    message_modulus.0 * carry_modulus.0
}

/// The encoding step `2^63 / (message_modulus * carry_modulus)`, which leaves the top bit
/// of the torus as padding.
pub open spec fn delta_of(message_modulus: MessageModulus, carry_modulus: CarryModulus) -> int {
    0x8000_0000_0000_0000int / plaintext_space(message_modulus, carry_modulus)
}

/// Both moduli are at least one and their product fits in the polynomial of size
/// `polynomial_size` with at least two coefficients per value.
pub open spec fn moduli_fit(
    message_modulus: MessageModulus,
    carry_modulus: CarryModulus,
    polynomial_size: int,
) -> bool {
    &&& 1 <= message_modulus.0
    &&& 1 <= carry_modulus.0
    &&& 2 * plaintext_space(message_modulus, carry_modulus) <= polynomial_size
}

impl ClassicPBSParameters {
    pub open spec fn polynomial_size_spec(&self) -> int {
        pow2_usize(self.log_polynomial_size)
    }

    pub open spec fn wf(&self) -> bool {
        &&& 1 <= self.lwe_dimension <= 0x10_0000
        &&& glwe_shape_ok(self.glwe_dimension, self.log_polynomial_size)
        &&& decomposition_wf(self.pbs_base_log, self.pbs_level)
        &&& decomposition_wf(self.ks_base_log, self.ks_level)
        &&& self.lwe_noise_bound_log < 62
        &&& self.glwe_noise_bound_log < 62
        &&& moduli_fit(self.message_modulus, self.carry_modulus, self.polynomial_size_spec())
    }
}

/// Computes `2^63 / (message_modulus * carry_modulus)`.
pub fn compute_delta(message_modulus: MessageModulus, carry_modulus: CarryModulus) -> (r: u64)
    requires
        1 <= message_modulus.0 <= 0x10_0000,
        1 <= carry_modulus.0 <= 0x10_0000,
        plaintext_space(message_modulus, carry_modulus) <= 0x10_0000,
    ensures
        r == delta_of(message_modulus, carry_modulus),
        r >= 1,
{
    let space = message_modulus.0 * carry_modulus.0;
    proof {
        assert(space >= 1) by (nonlinear_arith)
            requires
                space == message_modulus.0 * carry_modulus.0,
                1 <= message_modulus.0,
                1 <= carry_modulus.0,
        ;
        assert(1u64 << 63 == 0x8000_0000_0000_0000u64) by (bit_vector);
        assert(0x8000_0000_0000_0000int / (space as int) >= 1) by (nonlinear_arith)
            requires
                1 <= space <= 0x10_0000,
        ;
    }
    let top: u64 = 1u64 << 63;
    top / (space as u64)
}

} // verus!
