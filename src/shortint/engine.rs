//! The engine that owns the randomness of key generation and encryption, and runs the
//! unchecked and smart scalar additions.
use vstd::prelude::*;
use crate::core_crypto::bootstrap::{GlweSecretKey, lemma_glwe_key_len, par_allocate_and_generate_new_lwe_bootstrap_key};
use crate::core_crypto::keyswitch::allocate_and_generate_new_lwe_keyswitch_key;
use crate::core_crypto::lwe::{LweCiphertext, LweSecretKey, encrypt_lwe_with_mask, lemma_wrap_add, mul_mod, phase_of, wrap};
use crate::core_crypto::random::{EncryptionRandomGenerator, byte_budget, pow2};
pub use crate::core_crypto::lwe::encrypts_with_noise;
use crate::core_crypto::compact::{LweCompactCiphertextList, SeededLweCiphertext, compact_mask, compact_mask_at};
use crate::core_crypto::random::seeded_words;
use crate::shortint::ciphertext::{Ciphertext, CompactCiphertextList, CompressedCiphertext, Degree, NoiseLevel, PBSOrder};
use crate::shortint::client_key::ClientKey;
use crate::shortint::parameters::{ClassicPBSParameters, compute_delta, delta_of, plaintext_space};
use crate::shortint::server_key::{ServerKey, lookup_table_spec, refresh_spec, table_values};
use crate::core_crypto::glwe::glwe_view;
use crate::core_crypto::bootstrap::{encrypts_glwe_constant, ggsw_row_constant, glwe_key_as_lwe};
use crate::core_crypto::keyswitch::ksk_row_plaintext;

verus! {

/// Why an engine operation failed.
#[derive(Debug, Clone, Copy, PartialEq, Eq, Structural)]
pub enum EngineError {
    /// The random generator reached the end of its stream.
    GeneratorExhausted,
}

pub type EngineResult<T> = Result<T, EngineError>;

/// Holds the random generators of one evaluation context.
pub struct ShortintEngine {
    pub encryption_generator: EncryptionRandomGenerator,
}

/// The table of `x -> (x + scalar) mod modulus` on `[0, space)`.
pub open spec fn scalar_shift_values(space: int, scalar: u8, modulus: int) -> Seq<u64> {
    Seq::new(space as nat, |i: int| ((scalar + i) % modulus) as u64)
}

/// The ciphertext `after` is `before` with `shift` added to its body.
pub open spec fn body_shifted(after: Seq<u64>, before: Seq<u64>, shift: int) -> bool {
    after == LweCiphertext::with_body(before, wrap(before.last() + shift))
}

impl ShortintEngine {
    /// An engine whose mask generator is keyed by `mask_seed` and whose secret generator is
    /// keyed by `noise_seed`.
    pub fn new(mask_seed: u128, noise_seed: u128) -> (r: Self)
        ensures
            r.encryption_generator.used() == 0,
    {
        ShortintEngine { encryption_generator: EncryptionRandomGenerator::new(mask_seed, noise_seed) }
    }

    /// Draws the secret keys of `parameters`.
    pub fn new_client_key(&mut self, parameters: ClassicPBSParameters) -> (r: EngineResult<
        ClientKey,
    >)
        requires
            parameters.wf(),
        ensures
            r is Ok ==> r->Ok_0.wf() && r->Ok_0.parameters == parameters,
            final(self).encryption_generator.used() <= old(self).encryption_generator.used()
                + 0x200_0000,
            old(self).encryption_generator.used() + 0x200_0000 <= byte_budget() ==> r is Ok,
    {
        let n = crate::core_crypto::bootstrap::polynomial_size_of(parameters.log_polynomial_size);
        let glwe = match GlweSecretKey::generate(
            parameters.glwe_dimension,
            n,
            &mut self.encryption_generator,
        ) {
            Ok(k) => k,
            Err(_) => {
                return Err(EngineError::GeneratorExhausted);
            },
        };
        let lwe = match self.encryption_generator.random_binary(parameters.lwe_dimension) {
            Ok(d) => d,
            Err(_) => {
                return Err(EngineError::GeneratorExhausted);
            },
        };
        Ok(
            ClientKey {
                glwe_secret_key: glwe,
                lwe_secret_key: LweSecretKey { data: lwe },
                parameters,
            },
        )
    }

    /// Generates the evaluation keys of `cks`: a bootstrapping key from the small key to
    /// the GLWE key, and a keyswitching key from the large key back to the small one.
    pub fn new_server_key(&mut self, cks: &ClientKey) -> (r: EngineResult<ServerKey>)
        requires
            cks.wf(),
        ensures
            final(self).encryption_generator.used() <= old(self).encryption_generator.used()
                + 0x1000_0000_0000_0000,
            old(self).encryption_generator.used() + 0x1000_0000_0000_0000 <= byte_budget()
                ==> r is Ok,
            r is Ok ==> r->Ok_0.wf(),
            r is Ok ==> r->Ok_0.ciphertext_lwe_size() == cks.encryption_key_spec().len() + 1,
            r is Ok ==> r->Ok_0.message_modulus == cks.parameters.message_modulus,
            r is Ok ==> r->Ok_0.carry_modulus == cks.parameters.carry_modulus,
            r is Ok ==> r->Ok_0.pbs_order == cks.parameters.pbs_order,
            r is Ok ==> r->Ok_0.ciphertext_modulus == cks.parameters.ciphertext_modulus,
            r is Ok ==> r->Ok_0.max_noise_level == cks.parameters.max_noise_level,
            r is Ok ==> forall|j: int|
                0 <= j < r->Ok_0.key_switching_key.data@.len() ==> #[trigger] encrypts_with_noise(
                    r->Ok_0.key_switching_key.data@[j].data@,
                    cks.lwe_secret_key.data@,
                    ksk_row_plaintext(
                        glwe_key_as_lwe(cks.glwe_secret_key),
                        cks.parameters.ks_base_log,
                        cks.parameters.ks_level,
                        j,
                    ),
                    cks.parameters.lwe_noise_bound_log,
                ),
            r is Ok ==> forall|i: int, row: int|
                0 <= i < r->Ok_0.bootstrapping_key.ggsw_list@.len() && 0 <= row
                    < r->Ok_0.bootstrapping_key.ggsw_list@[i]@.len() ==> #[trigger] encrypts_glwe_constant(
                    glwe_view(r->Ok_0.bootstrapping_key.ggsw_list@[i]@[row]@),
                    glwe_view(cks.glwe_secret_key.polys@),
                    cks.glwe_secret_key.polynomial_size as nat,
                    row / (cks.parameters.pbs_level as int),
                    ggsw_row_constant(cks.lwe_secret_key.data@[i], cks.parameters.pbs_base_log, cks.parameters.pbs_level, row),
                    cks.parameters.glwe_noise_bound_log,
                ),
    {
        let p = cks.parameters;
        let bsk = match par_allocate_and_generate_new_lwe_bootstrap_key(
            &cks.lwe_secret_key,
            &cks.glwe_secret_key,
            p.log_polynomial_size,
            p.pbs_base_log,
            p.pbs_level,
            p.glwe_noise_bound_log,
            &mut self.encryption_generator,
        ) {
            Ok(k) => k,
            Err(_) => {
                return Err(EngineError::GeneratorExhausted);
            },
        };
        let big = cks.glwe_secret_key.as_lwe_secret_key();
        proof {
            lemma_glwe_key_len(&cks.glwe_secret_key);
            crate::core_crypto::bootstrap::lemma_glwe_key_small(&cks.glwe_secret_key, p.log_polynomial_size);
        }
        let ksk = match allocate_and_generate_new_lwe_keyswitch_key(
            &big,
            &cks.lwe_secret_key,
            p.ks_base_log,
            p.ks_level,
            p.lwe_noise_bound_log,
            p.ciphertext_modulus,
            &mut self.encryption_generator,
        ) {
            Ok(k) => k,
            Err(_) => {
                return Err(EngineError::GeneratorExhausted);
            },
        };
        proof {
            assert(p.message_modulus.0 * p.carry_modulus.0 >= 1) by (nonlinear_arith)
                requires
                    p.message_modulus.0 >= 1,
                    p.carry_modulus.0 >= 1,
            ;
        }
        Ok(
            ServerKey {
                key_switching_key: ksk,
                bootstrapping_key: bsk,
                message_modulus: p.message_modulus,
                carry_modulus: p.carry_modulus,
                max_degree: Degree(p.message_modulus.0 * p.carry_modulus.0 - 1),
                max_noise_level: p.max_noise_level,
                ciphertext_modulus: p.ciphertext_modulus,
                pbs_order: p.pbs_order,
            },
        )
    }

    /// Encrypts the plaintext `plaintext` (already scaled) under the key of `cks`, with
    /// noise of the bound of that key.
    fn encrypt_plaintext(&mut self, cks: &ClientKey, plaintext: u64) -> (r: EngineResult<
        LweCiphertext,
    >)
        requires
            cks.wf(),
        ensures
            final(self).encryption_generator.used() <= old(self).encryption_generator.used()
                + 0x1000_0000,
            old(self).encryption_generator.used() + 0x1000_0000 <= byte_budget() ==> r is Ok,
            r is Ok ==> encrypts_with_noise(
                r->Ok_0.data@,
                cks.encryption_key_spec(),
                plaintext as int,
                cks.noise_bound_log_spec(),
            ),
            r is Ok ==> r->Ok_0.ciphertext_modulus == cks.parameters.ciphertext_modulus,
    {
        let key = cks.encryption_key();
        proof {
            cks.lemma_encryption_key_len();
        }
        let bound_log = cks.noise_bound_log();
        let mask = match self.encryption_generator.random_mask(key.data.len()) {
            Ok(m) => m,
            Err(_) => {
                return Err(EngineError::GeneratorExhausted);
            },
        };
        let noise = match self.encryption_generator.random_noise(bound_log) {
            Ok(e) => e,
            Err(_) => {
                return Err(EngineError::GeneratorExhausted);
            },
        };
        let ct = encrypt_lwe_with_mask(&key, mask, plaintext, noise, cks.parameters.ciphertext_modulus);
        proof {
            let e = choose|e: int|
                -pow2(bound_log as nat) <= e <= pow2(bound_log as nat) && noise == wrap(e);
            lemma_wrap_add(plaintext as int, e);
            assert(phase_of(ct.data@, key.data@) == wrap(plaintext + e));
        }
        Ok(ct)
    }

    /// Encrypts `message` reduced modulo the message modulus; the degree is the largest
    /// message.
    pub fn encrypt(&mut self, cks: &ClientKey, message: u64) -> (r: EngineResult<Ciphertext>)
        requires
            cks.wf(),
        ensures
            final(self).encryption_generator.used() <= old(self).encryption_generator.used()
                + 0x1000_0000,
            old(self).encryption_generator.used() + 0x1000_0000 <= byte_budget() ==> r is Ok,
            r is Ok ==> encrypts_with_noise(
                r->Ok_0.ct.data@,
                cks.encryption_key_spec(),
                wrap(
                    (message as int % (cks.parameters.message_modulus.0 as int)) * delta_of(
                        cks.parameters.message_modulus,
                        cks.parameters.carry_modulus,
                    ),
                ),
                cks.noise_bound_log_spec(),
            ),
            r is Ok ==> r->Ok_0.degree.0 == cks.parameters.message_modulus.0 - 1,
            r is Ok ==> r->Ok_0.noise_level == NoiseLevel::nominal(),
            r is Ok ==> r->Ok_0.message_modulus == cks.parameters.message_modulus,
            r is Ok ==> r->Ok_0.carry_modulus == cks.parameters.carry_modulus,
            r is Ok ==> r->Ok_0.pbs_order == cks.parameters.pbs_order,
            r is Ok ==> r->Ok_0.ct.ciphertext_modulus == cks.parameters.ciphertext_modulus,
    {
        proof {
            cks.lemma_moduli_bounds();
        }
        let m = message % (cks.parameters.message_modulus.0 as u64);
        let delta = compute_delta(cks.parameters.message_modulus, cks.parameters.carry_modulus);
        let ct = self.encrypt_plaintext(cks, mul_mod(m, delta))?;
        proof {
            assert forall|e: int| #[trigger] wrap(wrap(m * delta) + e) == wrap(m * delta + e) by {
                lemma_wrap_add(m * delta, e);
            }
        }
        Ok(
            Ciphertext {
                ct,
                degree: Degree(cks.parameters.message_modulus.0 - 1),
                noise_level: NoiseLevel::nominal(),
                message_modulus: cks.parameters.message_modulus,
                carry_modulus: cks.parameters.carry_modulus,
                pbs_order: cks.parameters.pbs_order,
            },
        )
    }

    /// Encrypts `message` without reducing it: the carry part may be filled; the degree is
    /// the largest value of the plaintext space.
    pub fn unchecked_encrypt(&mut self, cks: &ClientKey, message: u64) -> (r: EngineResult<
        Ciphertext,
    >)
        requires
            cks.wf(),
        ensures
            final(self).encryption_generator.used() <= old(self).encryption_generator.used()
                + 0x1000_0000,
            old(self).encryption_generator.used() + 0x1000_0000 <= byte_budget() ==> r is Ok,
            r is Ok ==> encrypts_with_noise(
                r->Ok_0.ct.data@,
                cks.encryption_key_spec(),
                wrap(message * delta_of(cks.parameters.message_modulus, cks.parameters.carry_modulus)),
                cks.noise_bound_log_spec(),
            ),
            r is Ok ==> r->Ok_0.degree.0 == plaintext_space(
                cks.parameters.message_modulus,
                cks.parameters.carry_modulus,
            ) - 1,
            r is Ok ==> r->Ok_0.noise_level == NoiseLevel::nominal(),
            r is Ok ==> r->Ok_0.message_modulus == cks.parameters.message_modulus,
            r is Ok ==> r->Ok_0.carry_modulus == cks.parameters.carry_modulus,
            r is Ok ==> r->Ok_0.pbs_order == cks.parameters.pbs_order,
    {
        proof {
            cks.lemma_moduli_bounds();
        }
        let delta = compute_delta(cks.parameters.message_modulus, cks.parameters.carry_modulus);
        let ct = self.encrypt_plaintext(cks, mul_mod(message, delta))?;
        proof {
            assert forall|e: int| #[trigger] wrap(wrap(message * delta) + e) == wrap(
                message * delta + e,
            ) by {
                lemma_wrap_add(message * delta, e);
            }
        }
        Ok(
            Ciphertext {
                ct,
                degree: Degree(cks.parameters.message_modulus.0 * cks.parameters.carry_modulus.0 - 1),
                noise_level: NoiseLevel::nominal(),
                message_modulus: cks.parameters.message_modulus,
                carry_modulus: cks.parameters.carry_modulus,
                pbs_order: cks.parameters.pbs_order,
            },
        )
    }

    /// `ct + scalar` without any check: the body gains `scalar * delta`, the degree grows
    /// by `scalar` and the noise is unchanged.
    pub fn unchecked_scalar_add(&mut self, server_key: &ServerKey, ct: &Ciphertext, scalar: u8) -> (r:
        EngineResult<Ciphertext>)
        requires
            server_key.wf(),
            ct.degree.0 + scalar <= usize::MAX,
        ensures
            r is Ok,
            ct.ct.data@.len() >= 1 ==> body_shifted(
                r->Ok_0.ct.data@,
                ct.ct.data@,
                scalar * delta_of(server_key.message_modulus, server_key.carry_modulus),
            ),
            r->Ok_0.degree == Degree((ct.degree.0 + scalar) as usize),
            r->Ok_0.noise_level == ct.noise_level,
            r->Ok_0.ct.ciphertext_modulus == ct.ct.ciphertext_modulus,
            r->Ok_0.message_modulus == ct.message_modulus,
            r->Ok_0.carry_modulus == ct.carry_modulus,
            r->Ok_0.pbs_order == ct.pbs_order,
    {
        let mut ct_result = ct.clone();
        let _ = self.unchecked_scalar_add_assign(server_key, &mut ct_result, scalar);
        Ok(ct_result)
    }

    /// In-place form of [`ShortintEngine::unchecked_scalar_add`].
    pub fn unchecked_scalar_add_assign(
        &mut self,
        server_key: &ServerKey,
        ct: &mut Ciphertext,
        scalar: u8,
    ) -> (r: EngineResult<()>)
        requires
            server_key.wf(),
            old(ct).degree.0 + scalar <= usize::MAX,
        ensures
            r is Ok,
            old(ct).ct.data@.len() >= 1 ==> body_shifted(
                final(ct).ct.data@,
                old(ct).ct.data@,
                scalar * delta_of(server_key.message_modulus, server_key.carry_modulus),
            ),
            old(ct).ct.data@.len() == 0 ==> final(ct).ct.data@.len() == 0,
            final(ct).degree == Degree((old(ct).degree.0 + scalar) as usize),
            final(ct).noise_level == old(ct).noise_level,
            final(ct).ct.ciphertext_modulus == old(ct).ct.ciphertext_modulus,
            final(ct).message_modulus == old(ct).message_modulus,
            final(ct).carry_modulus == old(ct).carry_modulus,
            final(ct).pbs_order == old(ct).pbs_order,
    {
        proof {
            server_key.lemma_moduli_bounds();
        }
        let delta = compute_delta(server_key.message_modulus, server_key.carry_modulus);
        let shift_plaintext = mul_mod(scalar as u64, delta);
        if ct.ct.data.len() >= 1 {
            ct.ct.plaintext_add_assign(shift_plaintext);
        }
        proof {
            lemma_wrap_add(old(ct).ct.data@.last() as int, scalar * delta);
        }
        ct.degree = Degree(ct.degree.0 + scalar as usize);
        Ok(())
    }

    /// `ct + scalar`, refreshing first when the direct addition would overflow the degree.
    pub fn smart_scalar_add(&mut self, server_key: &ServerKey, ct: &mut Ciphertext, scalar: u8) -> (r:
        EngineResult<Ciphertext>)
        requires
            server_key.wf(),
            old(ct).ct.data@.len() == server_key.ciphertext_lwe_size(),
        ensures
            r is Ok,
            *final(ct) == *old(ct),
            server_key.scalar_add_possible_spec(old(ct), scalar) ==> body_shifted(
                r->Ok_0.ct.data@,
                old(ct).ct.data@,
                scalar * delta_of(server_key.message_modulus, server_key.carry_modulus),
            ) && r->Ok_0.degree == Degree((old(ct).degree.0 + scalar) as usize)
                && r->Ok_0.noise_level == old(ct).noise_level,
            !server_key.scalar_add_possible_spec(old(ct), scalar) ==> r->Ok_0.degree == Degree(
                (server_key.message_modulus.0 - 1) as usize,
            ) && r->Ok_0.noise_level == NoiseLevel::nominal() && r->Ok_0.ct.data@.len()
                == old(ct).ct.data@.len(),
            !server_key.scalar_add_possible_spec(old(ct), scalar) ==> r->Ok_0.ct.data@
                == refresh_spec(
                *server_key,
                old(ct).ct.data@,
                lookup_table_spec(*server_key, scalar_shift_values(server_key.space(), scalar, server_key.message_modulus.0 as int)),
            ),
            r->Ok_0.message_modulus == old(ct).message_modulus,
            r->Ok_0.carry_modulus == old(ct).carry_modulus,
            r->Ok_0.pbs_order == old(ct).pbs_order,
    {
        let mut ct_result = ct.clone();
        let _ = self.smart_scalar_add_assign(server_key, &mut ct_result, scalar);
        Ok(ct_result)
    }

    /// In-place form of [`ShortintEngine::smart_scalar_add`]: when the degree would pass
    /// `max_degree`, the table of `x -> (x + scalar) mod message_modulus` is applied
    /// instead, which leaves the degree at `message_modulus - 1` and the noise nominal.
    pub fn smart_scalar_add_assign(
        &mut self,
        server_key: &ServerKey,
        ct: &mut Ciphertext,
        scalar: u8,
    ) -> (r: EngineResult<()>)
        requires
            server_key.wf(),
            old(ct).ct.data@.len() == server_key.ciphertext_lwe_size(),
        ensures
            r is Ok,
            server_key.scalar_add_possible_spec(old(ct), scalar) ==> body_shifted(
                final(ct).ct.data@,
                old(ct).ct.data@,
                scalar * delta_of(server_key.message_modulus, server_key.carry_modulus),
            ) && final(ct).degree == Degree((old(ct).degree.0 + scalar) as usize)
                && final(ct).noise_level == old(ct).noise_level,
            !server_key.scalar_add_possible_spec(old(ct), scalar) ==> final(ct).degree == Degree(
                (server_key.message_modulus.0 - 1) as usize,
            ) && final(ct).noise_level == NoiseLevel::nominal() && final(ct).ct.data@.len()
                == old(ct).ct.data@.len(),
            !server_key.scalar_add_possible_spec(old(ct), scalar) ==> final(ct).ct.data@
                == refresh_spec(
                *server_key,
                old(ct).ct.data@,
                lookup_table_spec(*server_key, scalar_shift_values(server_key.space(), scalar, server_key.message_modulus.0 as int)),
            ),
            final(ct).message_modulus == old(ct).message_modulus,
            final(ct).carry_modulus == old(ct).carry_modulus,
            final(ct).pbs_order == old(ct).pbs_order,
    {
        proof {
            server_key.lemma_moduli_bounds();
        }
        let modulus = server_key.message_modulus.0 as u64;
        if server_key.is_scalar_add_possible(ct, scalar) {
            let _ = self.unchecked_scalar_add_assign(server_key, ct, scalar);
        } else {
            let shift_by_scalar = (|x: u64| -> (y: u64)
                requires
                    x < 0x10_0000,
                    modulus >= 1,
                ensures
                    y == (scalar + x) % (modulus as int),
                { (scalar as u64 + x) % modulus });
            let acc = server_key.generate_lookup_table(shift_by_scalar);
            proof {
                let values = choose|values: Seq<u64>|
                    #[trigger] table_values(shift_by_scalar, server_key.space(), values) && glwe_view(
                        acc.acc@,
                    ) == lookup_table_spec(*server_key, values);
                let want = scalar_shift_values(server_key.space(), scalar, modulus as int);
                assert forall|i: int| 0 <= i < server_key.space() implies values[i] == want[i] by {
                    assert(shift_by_scalar.ensures((i as u64,), values[i]));
                }
                assert(values =~= want);
            }
            server_key.apply_lookup_table_assign(ct, &acc);
            ct.degree = Degree(server_key.message_modulus.0 - 1);
        }
        Ok(())
    }
}

impl ClientKey {
    /// The noise bound of the key that ciphertexts are encrypted under.
    pub open spec fn noise_bound_log_spec(&self) -> u32 {
        if self.parameters.pbs_order == PBSOrder::KeyswitchBootstrap {
            self.parameters.glwe_noise_bound_log
        } else {
            self.parameters.lwe_noise_bound_log
        }
    }

    pub fn noise_bound_log(&self) -> (r: u32)
        ensures
            r == self.noise_bound_log_spec(),
    {
        if self.parameters.pbs_order == PBSOrder::KeyswitchBootstrap {
            self.parameters.glwe_noise_bound_log
        } else {
            self.parameters.lwe_noise_bound_log
        }
    }

    /// The encryption key has between one and `16 * 2^20` coefficients.
    pub proof fn lemma_encryption_key_len(&self)
        requires
            self.wf(),
        ensures
            1 <= self.encryption_key_spec().len() <= 16 * 0x10_0000,
    {
        crate::core_crypto::bootstrap::lemma_glwe_key_len(&self.glwe_secret_key);
        vstd::arithmetic::power2::lemma2_to64();
        if self.parameters.log_polynomial_size < 20 {
            vstd::arithmetic::power2::lemma_pow2_strictly_increases(
                self.parameters.log_polynomial_size as nat,
                20,
            );
        }
        vstd::arithmetic::power2::lemma_pow2_pos(self.parameters.log_polynomial_size as nat);
        let k = self.glwe_secret_key.glwe_dimension;
        let n = self.glwe_secret_key.polynomial_size;
        assert(1 <= k * n <= 16 * 0x10_0000) by (nonlinear_arith)
            requires
                1 <= k <= 16,
                1 <= n <= 0x10_0000,
        ;
    }

    pub proof fn lemma_moduli_bounds(&self)
        requires
            self.wf(),
        ensures
            1 <= plaintext_space(self.parameters.message_modulus, self.parameters.carry_modulus)
                <= 0x8_0000,
            1 <= self.parameters.message_modulus.0 <= 0x8_0000,
            1 <= self.parameters.carry_modulus.0 <= 0x8_0000,
    {
        vstd::arithmetic::power2::lemma2_to64();
        if self.parameters.log_polynomial_size < 20 {
            vstd::arithmetic::power2::lemma_pow2_strictly_increases(
                self.parameters.log_polynomial_size as nat,
                20,
            );
        }
        let m = self.parameters.message_modulus.0;
        let c = self.parameters.carry_modulus.0;
        assert(1 <= m * c && m <= m * c && c <= m * c) by (nonlinear_arith)
            requires
                1 <= m,
                1 <= c,
        ;
    }
}

impl ServerKey {
    pub proof fn lemma_moduli_bounds(&self)
        requires
            self.wf(),
        ensures
            1 <= self.space() <= 0x8_0000,
            1 <= self.message_modulus.0 <= 0x8_0000,
            1 <= self.carry_modulus.0 <= 0x8_0000,
    {
        vstd::arithmetic::power2::lemma2_to64();
        if self.bootstrapping_key.log_polynomial_size < 20 {
            vstd::arithmetic::power2::lemma_pow2_strictly_increases(
                self.bootstrapping_key.log_polynomial_size as nat,
                20,
            );
        }
        let m = self.message_modulus.0;
        let c = self.carry_modulus.0;
        assert(1 <= m * c && m <= m * c && c <= m * c) by (nonlinear_arith)
            requires
                1 <= m,
                1 <= c,
        ;
    }
}

impl ShortintEngine {
    /// Encrypts `message` reduced modulo the message modulus, with the mask regenerated from
    /// `seed`: only the body is kept.
    pub fn encrypt_compressed(&mut self, cks: &ClientKey, message: u64, seed: u128) -> (r:
        EngineResult<CompressedCiphertext>)
        requires
            cks.wf(),
            cks.encryption_key_spec().len() + 1 <= usize::MAX / 8,
        ensures
            r is Ok ==> encrypts_with_noise(
                r->Ok_0.ct.decompressed_spec(),
                cks.encryption_key_spec(),
                wrap(
                    (message as int % (cks.parameters.message_modulus.0 as int)) * delta_of(
                        cks.parameters.message_modulus,
                        cks.parameters.carry_modulus,
                    ),
                ),
                cks.noise_bound_log_spec(),
            ),
            r is Ok ==> r->Ok_0.ct.wf(),
            r is Ok ==> r->Ok_0.ct.compression_seed == seed,
            r is Ok ==> r->Ok_0.degree.0 == cks.parameters.message_modulus.0 - 1,
            r is Ok ==> r->Ok_0.noise_level == NoiseLevel::nominal(),
            r is Ok ==> r->Ok_0.message_modulus == cks.parameters.message_modulus,
            r is Ok ==> r->Ok_0.carry_modulus == cks.parameters.carry_modulus,
            r is Ok ==> r->Ok_0.pbs_order == cks.parameters.pbs_order,
    {
        proof {
            cks.lemma_moduli_bounds();
        }
        let key = cks.encryption_key();
        let n = key.data.len();
        let m = message % (cks.parameters.message_modulus.0 as u64);
        let delta = compute_delta(cks.parameters.message_modulus, cks.parameters.carry_modulus);
        let p = mul_mod(m, delta);
        let mask = seeded_words(seed, n);
        let noise = match self.encryption_generator.random_noise(cks.noise_bound_log()) {
            Ok(e) => e,
            Err(_) => {
                return Err(EngineError::GeneratorExhausted);
            },
        };
        let ct = encrypt_lwe_with_mask(&key, mask, p, noise, cks.parameters.ciphertext_modulus);
        let body = ct.data[n];
        let seeded = SeededLweCiphertext {
            body,
            lwe_size: n + 1,
            compression_seed: seed,
            ciphertext_modulus: cks.parameters.ciphertext_modulus,
        };
        proof {
            assert(ct.data@ =~= seeded.decompressed_spec());
            let bound_log = cks.noise_bound_log_spec();
            let e = choose|e: int|
                -pow2(bound_log as nat) <= e <= pow2(bound_log as nat) && noise == wrap(e);
            lemma_wrap_add(p as int, e);
            lemma_wrap_add(m * delta, e);
            assert(phase_of(ct.data@, key.data@) == wrap(wrap(m * delta) + e));
        }
        Ok(
            CompressedCiphertext {
                ct: seeded,
                degree: Degree(cks.parameters.message_modulus.0 - 1),
                message_modulus: cks.parameters.message_modulus,
                carry_modulus: cks.parameters.carry_modulus,
                pbs_order: cks.parameters.pbs_order,
                noise_level: NoiseLevel::nominal(),
            },
        )
    }

    /// Encrypts every message, reduced modulo the message modulus, into one compact list:
    /// one random mask per bin of `n` messages, `n` being the dimension of the key.
    pub fn encrypt_compact(&mut self, cks: &ClientKey, messages: &Vec<u64>) -> (r: EngineResult<
        CompactCiphertextList,
    >)
        requires
            cks.wf(),
            messages@.len() + cks.encryption_key_spec().len() < usize::MAX,
        ensures
            r is Ok ==> r->Ok_0.ct_list.wf(),
            r is Ok ==> r->Ok_0.ct_list.body_list@.len() == messages@.len(),
            r is Ok ==> forall|c: int|
                0 <= c < messages@.len() ==> #[trigger] encrypts_with_noise(
                    r->Ok_0.ct_list.sample_spec(c),
                    cks.encryption_key_spec(),
                    wrap(
                        (messages@[c] as int % (cks.parameters.message_modulus.0 as int))
                            * delta_of(cks.parameters.message_modulus, cks.parameters.carry_modulus),
                    ),
                    cks.noise_bound_log_spec(),
                ),
            r is Ok ==> r->Ok_0.degree.0 == cks.parameters.message_modulus.0 - 1,
            r is Ok ==> r->Ok_0.noise_level == NoiseLevel::nominal(),
            r is Ok ==> r->Ok_0.message_modulus == cks.parameters.message_modulus,
            r is Ok ==> r->Ok_0.carry_modulus == cks.parameters.carry_modulus,
            r is Ok ==> r->Ok_0.pbs_order == cks.parameters.pbs_order,
    {
        proof {
            cks.lemma_moduli_bounds();
            crate::core_crypto::bootstrap::lemma_glwe_key_len(&cks.glwe_secret_key);
            assert(cks.encryption_key_spec().len() >= 1) by (nonlinear_arith)
                requires
                    cks.encryption_key_spec().len() == cks.parameters.glwe_dimension
                        * cks.glwe_secret_key.polynomial_size
                        || cks.encryption_key_spec().len() == cks.parameters.lwe_dimension,
                    cks.parameters.glwe_dimension >= 1,
                    cks.glwe_secret_key.polynomial_size >= 1,
                    cks.parameters.lwe_dimension >= 1,
            ;
        }
        let key = cks.encryption_key();
        let n = key.data.len();
        let count = messages.len();
        // Enough bins of n masks for every message.
        let mut mask_list: Vec<u64> = Vec::new();
        proof {
            vstd::arithmetic::div_mod::lemma_small_mod(0, n as nat);
        }
        while mask_list.len() < count
            invariant
                1 <= n,
                (mask_list@.len() as int) % (n as int) == 0,
                mask_list@.len() <= count + n,
                count + n < usize::MAX,
            decreases count + n - mask_list@.len(),
        {
            let bin = match self.encryption_generator.random_mask(n) {
                Ok(b) => b,
                Err(_) => {
                    return Err(EngineError::GeneratorExhausted);
                },
            };
            let ghost before = mask_list@.len();
            mask_list.append(&mut bin.clone());
            proof {
                vstd::arithmetic::div_mod::lemma_mod_add_multiples_vanish(before as int, n as int);
            }
        }
        let delta = compute_delta(cks.parameters.message_modulus, cks.parameters.carry_modulus);
        let mut bodies: Vec<u64> = Vec::new();
        let mut c: usize = 0;
        while c < count
            invariant
                cks.wf(),
                key.data@ == cks.encryption_key_spec(),
                n == key.data@.len(),
                1 <= n,
                n < usize::MAX,
                (mask_list@.len() as int) % (n as int) == 0,
                count == messages@.len() <= mask_list@.len(),
                1 <= cks.parameters.message_modulus.0,
                delta == delta_of(cks.parameters.message_modulus, cks.parameters.carry_modulus),
                c <= count,
                bodies@.len() == c,
                forall|j: int|
                    0 <= j < c ==> #[trigger] encrypts_with_noise(
                        compact_mask(mask_list@, n as int, j).push(bodies@[j]),
                        key.data@,
                        wrap(
                            (messages@[j] as int % (cks.parameters.message_modulus.0 as int))
                                * delta,
                        ),
                        cks.noise_bound_log_spec(),
                    ),
            decreases count - c,
        {
            let mask = compact_mask_at(&mask_list, n, c);
            let m = messages[c] % (cks.parameters.message_modulus.0 as u64);
            let p = mul_mod(m, delta);
            let noise = match self.encryption_generator.random_noise(cks.noise_bound_log()) {
                Ok(e) => e,
                Err(_) => {
                    return Err(EngineError::GeneratorExhausted);
                },
            };
            let ct = encrypt_lwe_with_mask(&key, mask, p, noise, cks.parameters.ciphertext_modulus);
            let body = ct.data[n];
            proof {
                let bound_log = cks.noise_bound_log_spec();
                let e = choose|e: int|
                    -pow2(bound_log as nat) <= e <= pow2(bound_log as nat) && noise == wrap(e);
                lemma_wrap_add(p as int, e);
                lemma_wrap_add(m * delta, e);
                assert(ct.data@ =~= compact_mask(mask_list@, n as int, c as int).push(body));
                assert(phase_of(ct.data@, key.data@) == wrap(wrap(m * delta) + e));
            }
            bodies.push(body);
            c = c + 1;
        }
        let ct_list = LweCompactCiphertextList {
            lwe_dimension: n,
            mask_list,
            body_list: bodies,
            ciphertext_modulus: cks.parameters.ciphertext_modulus,
        };
        Ok(
            CompactCiphertextList {
                ct_list,
                degree: Degree(cks.parameters.message_modulus.0 - 1),
                message_modulus: cks.parameters.message_modulus,
                carry_modulus: cks.parameters.carry_modulus,
                pbs_order: cks.parameters.pbs_order,
                noise_level: NoiseLevel::nominal(),
            },
        )
    }
}

} // verus!
