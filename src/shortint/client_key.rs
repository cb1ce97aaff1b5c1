//! The secret keys of the small-integer scheme, and decryption.
use vstd::prelude::*;
use crate::core_crypto::bootstrap::GlweSecretKey;
use crate::core_crypto::lwe::{LweSecretKey, decrypt_lwe, phase_of, wrap};
use crate::shortint::ciphertext::{Ciphertext, PBSOrder};
use crate::shortint::parameters::{ClassicPBSParameters, compute_delta, delta_of, plaintext_space};

verus! {

/// The secret keys: the GLWE key (also read as the large LWE key) and the small LWE key.
pub struct ClientKey {
    pub glwe_secret_key: GlweSecretKey,
    pub lwe_secret_key: LweSecretKey,
    pub parameters: ClassicPBSParameters,
}

/// A decrypted plaintext split into its message, carry and padding parts.
#[derive(Debug, Clone, Copy, PartialEq, Eq, Structural)]
pub struct DecodedMessage {
    pub msg: u64,
    pub carry: u64,
    pub padding: u64,
}

/// The phase divided by `delta`, rounded to the nearest multiple, modulo `2^64 / delta`.
pub open spec fn decode_phase(phase: u64, delta: u64) -> int
    recommends
        delta > 0,
{
    wrap(phase + ((phase & (delta >> 1u64)) << 1u64)) / delta as int
}

/// The large key as an LWE key, the small key, or the key that ciphertexts of this order
/// live under.
pub open spec fn key_for_order(
    order: PBSOrder,
    large: Seq<u64>,
    small: Seq<u64>,
) -> Seq<u64> {
    if order == PBSOrder::KeyswitchBootstrap {
        large
    } else {
        small
    }
}

impl ClientKey {
    pub open spec fn wf(&self) -> bool {
        &&& self.parameters.wf()
        &&& self.glwe_secret_key.wf()
        &&& self.glwe_secret_key.glwe_dimension == self.parameters.glwe_dimension
        &&& self.glwe_secret_key.polynomial_size == self.parameters.polynomial_size_spec()
        &&& self.lwe_secret_key.data@.len() == self.parameters.lwe_dimension
    }

    /// The key that ciphertexts are encrypted under, as a sequence of coefficients.
    pub open spec fn encryption_key_spec(&self) -> Seq<u64> {
        key_for_order(
            self.parameters.pbs_order,
            self.glwe_secret_key.polys@.map_values(|p: Vec<u64>| p@).flatten(),
            self.lwe_secret_key.data@,
        )
    }

    /// The key that ciphertexts are encrypted under.
    pub fn encryption_key(&self) -> (r: LweSecretKey)
        requires
            self.wf(),
        ensures
            r.data@ == self.encryption_key_spec(),
    {
        if self.parameters.pbs_order == PBSOrder::KeyswitchBootstrap {
            self.glwe_secret_key.as_lwe_secret_key()
        } else {
            self.lwe_secret_key.clone()
        }
    }

    /// The phase of `ct` under the encryption key: the encoded plaintext plus noise.
    pub fn decrypt_no_decode(&self, ct: &Ciphertext) -> (r: u64)
        requires
            self.wf(),
            ct.ct.data@.len() == self.encryption_key_spec().len() + 1,
        ensures
            r == phase_of(ct.ct.data@, self.encryption_key_spec()),
    {
        let key = self.encryption_key();
        decrypt_lwe(&key, &ct.ct)
    }

    /// Decrypts and decodes `ct`, message, carry and padding bit.
    pub fn decrypt_decode_padding(&self, ct: &Ciphertext) -> (r: DecodedMessage)
        requires
            self.wf(),
            ct.ct.data@.len() == self.encryption_key_spec().len() + 1,
        ensures
            ({
                let d = decode_phase(
                    phase_of(ct.ct.data@, self.encryption_key_spec()) as u64,
                    delta_of(self.parameters.message_modulus, self.parameters.carry_modulus)
                        as u64,
                );
                let m = self.parameters.message_modulus.0 as int;
                let c = self.parameters.carry_modulus.0 as int;
                &&& r.msg == d % m
                &&& r.carry == (d / m) % c
                &&& r.padding == (d / (m * c)) % 2
            }),
    {
        let phase = self.decrypt_no_decode(ct);
        let decoded = self.decode(phase);
        proof {
            self.lemma_space_bounds();
        }
        let m = self.parameters.message_modulus.0 as u64;
        let c = self.parameters.carry_modulus.0 as u64;
        proof {
            assert(m * c <= 0x10_0000 && m * c >= 1) by (nonlinear_arith)
                requires
                    1 <= m,
                    1 <= c,
                    m * c == plaintext_space(
                        self.parameters.message_modulus,
                        self.parameters.carry_modulus,
                    ),
                    plaintext_space(self.parameters.message_modulus, self.parameters.carry_modulus)
                        <= 0x8_0000,
            ;
        }
        DecodedMessage { msg: decoded % m, carry: (decoded / m) % c, padding: (decoded / (m * c)) % 2 }
    }

    /// Decrypts `ct` into its message and carry: the decoded plaintext modulo the plaintext
    /// space.
    pub fn decrypt_message_and_carry(&self, ct: &Ciphertext) -> (r: u64)
        requires
            self.wf(),
            ct.ct.data@.len() == self.encryption_key_spec().len() + 1,
        ensures
            r == decode_phase(
                phase_of(ct.ct.data@, self.encryption_key_spec()) as u64,
                delta_of(self.parameters.message_modulus, self.parameters.carry_modulus) as u64,
            ) % plaintext_space(self.parameters.message_modulus, self.parameters.carry_modulus),
    {
        let phase = self.decrypt_no_decode(ct);
        let decoded = self.decode(phase);
        proof {
            self.lemma_space_bounds();
        }
        decoded % ((self.parameters.message_modulus.0 * self.parameters.carry_modulus.0) as u64)
    }

    /// Decrypts the message part of `ct`.
    pub fn decrypt(&self, ct: &Ciphertext) -> (r: u64)
        requires
            self.wf(),
            ct.ct.data@.len() == self.encryption_key_spec().len() + 1,
        ensures
            r == decode_phase(
                phase_of(ct.ct.data@, self.encryption_key_spec()) as u64,
                delta_of(self.parameters.message_modulus, self.parameters.carry_modulus) as u64,
            ) % plaintext_space(self.parameters.message_modulus, self.parameters.carry_modulus)
                % (self.parameters.message_modulus.0 as int),
    {
        let mc = self.decrypt_message_and_carry(ct);
        proof {
            self.lemma_space_bounds();
        }
        mc % (self.parameters.message_modulus.0 as u64)
    }

    proof fn lemma_space_bounds(&self)
        requires
            self.wf(),
        ensures
            1 <= plaintext_space(self.parameters.message_modulus, self.parameters.carry_modulus)
                <= 0x8_0000,
            1 <= self.parameters.message_modulus.0 <= 0x8_0000,
            1 <= self.parameters.carry_modulus.0 <= 0x8_0000,
    {
        vstd::arithmetic::power2::lemma2_to64();
        if self.parameters.log_polynomial_size < 20 {
            vstd::arithmetic::power2::lemma_pow2_strictly_increases(
                self.parameters.log_polynomial_size as nat,
                20,
            );
        }
        let m = self.parameters.message_modulus.0;
        let c = self.parameters.carry_modulus.0;
        assert(1 <= m * c && m <= m * c && c <= m * c) by (nonlinear_arith)
            requires
                1 <= m,
                1 <= c,
        ;
    }

    fn decode(&self, phase: u64) -> (r: u64)
        requires
            self.wf(),
        ensures
            r == decode_phase(
                phase,
                delta_of(self.parameters.message_modulus, self.parameters.carry_modulus) as u64,
            ),
    {
        proof {
            self.lemma_space_bounds();
        }
        let delta = compute_delta(self.parameters.message_modulus, self.parameters.carry_modulus);
        let rounding_bit = delta >> 1;
        let rounding = (phase & rounding_bit) << 1;
        proof {
            crate::core_crypto::lwe::lemma_wrap_small(0);
        }
        let sum = crate::core_crypto::lwe::add_mod(phase, rounding);
        sum / delta
    }
}

} // verus!
