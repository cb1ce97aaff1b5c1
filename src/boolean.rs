//! The boolean engine: refreshes and keyswitches of encrypted bits.
use vstd::prelude::*;
use crate::core_crypto::bootstrap::{
    GlweSecretKey, LweBootstrapKey, glwe_shape_ok, lemma_glwe_key_len,
    bsk_view, modulus_switch_spec, par_allocate_and_generate_new_lwe_bootstrap_key, pbs_spec,
    pow2_usize, programmable_bootstrap_lwe_ciphertext, rotate_steps,
};
use crate::core_crypto::glwe::{
    ggsw_view, ggsw_wf, glwe_monomial_spec, glwe_view, glwe_wf, trivial_glwe_spec,
};
use crate::core_crypto::keyswitch::{
    LweKeyswitchKey, allocate_and_generate_new_lwe_keyswitch_key, decomposition_wf,
    keyswitch_lwe_ciphertext, keyswitch_spec, ks_coeffs, ksk_rows,
};
use crate::core_crypto::lwe::{CiphertextModulus, LweCiphertext, LweSecretKey};
use crate::core_crypto::encoding::{
    decode_words, encode_words, holds_word_encoding, is_word_encoding,
    lemma_word_encoding_round_trip,
};
use crate::core_crypto::flatten::{lemma_map_flatten_injective, lemma_map_flatten_len};
use crate::core_crypto::random::le_word;
use crate::core_crypto::bootstrap::{encrypts_glwe_constant, ggsw_row_constant, glwe_key_as_lwe};
use crate::core_crypto::keyswitch::ksk_row_plaintext;
use crate::core_crypto::lwe::encrypts_with_noise as encrypts_lwe;
use crate::core_crypto::random::{EncryptionRandomGenerator, byte_budget};

verus! {

/// The encoding of `true`: an eighth of the torus.
pub const PLAINTEXT_TRUE: u64 = 0x2000_0000_0000_0000;

/// An encrypted bit, or a bit known in the clear.
pub enum Ciphertext {
    Encrypted(LweCiphertext),
    Trivial(bool),
}

/// The accumulator of a boolean refresh: the trivial GLWE sample whose body holds
/// `PLAINTEXT_TRUE` in every coefficient.
pub open spec fn true_accumulator(bsk: LweBootstrapKey) -> Seq<Seq<u64>> {
    trivial_glwe_spec(
        Seq::new(bsk.polynomial_size as nat, |t: int| PLAINTEXT_TRUE),
        bsk.glwe_dimension as nat,
    )
}

/// The bootstrap of `input` through [`true_accumulator`].
pub open spec fn refresh_true_spec(input: Seq<u64>, bsk: LweBootstrapKey) -> Seq<u64> {
    pbs_spec(input, true_accumulator(bsk), bsk)
}

/// The parameters of the boolean scheme.
#[derive(Debug, Clone, Copy, PartialEq, Eq, Structural)]
pub struct BooleanParameters {
    pub lwe_dimension: usize,
    pub glwe_dimension: usize,
    pub log_polynomial_size: u32,
    pub lwe_noise_bound_log: u32,
    pub glwe_noise_bound_log: u32,
    pub pbs_base_log: u32,
    pub pbs_level: u32,
    pub ks_base_log: u32,
    pub ks_level: u32,
}

impl BooleanParameters {
    pub open spec fn wf(&self) -> bool {
        &&& 1 <= self.lwe_dimension <= 0x10_0000
        &&& glwe_shape_ok(self.glwe_dimension, self.log_polynomial_size)
        &&& decomposition_wf(self.pbs_base_log, self.pbs_level)
        &&& decomposition_wf(self.ks_base_log, self.ks_level)
        &&& self.lwe_noise_bound_log < 62
        &&& self.glwe_noise_bound_log < 62
    }
}

/// The secret keys of the boolean scheme.
pub struct ClientKey {
    pub lwe_secret_key: LweSecretKey,
    pub glwe_secret_key: GlweSecretKey,
    pub parameters: BooleanParameters,
}

impl ClientKey {
    pub open spec fn wf(&self) -> bool {
        &&& self.parameters.wf()
        &&& self.glwe_secret_key.wf()
        &&& self.glwe_secret_key.glwe_dimension == self.parameters.glwe_dimension
        &&& self.glwe_secret_key.polynomial_size == pow2_usize(
            self.parameters.log_polynomial_size,
        )
        &&& self.lwe_secret_key.data@.len() == self.parameters.lwe_dimension
    }
}

/// The public key of the boolean scheme: a bootstrapping key from the small LWE key to the
/// GLWE key, and a keyswitching key from the large LWE key back to the small one.
pub struct ServerKey {
    pub bootstrapping_key: LweBootstrapKey,
    pub key_switching_key: LweKeyswitchKey,
}

impl ServerKey {
    pub open spec fn wf(&self) -> bool {
        &&& self.bootstrapping_key.wf()
        &&& self.key_switching_key.wf()
        &&& self.key_switching_key.input_lwe_dimension
            == self.bootstrapping_key.glwe_dimension * self.bootstrapping_key.polynomial_size
        &&& self.key_switching_key.output_lwe_size == self.bootstrapping_key.input_lwe_dimension
            + 1
        &&& self.bootstrapping_key.input_lwe_dimension <= 0x10_0000
    }
}

/// A reusable buffer holding the accumulator of a refresh and the sample it outputs.
pub struct Memory {
    pub buffer: Vec<u64>,
}

/// Why a bootstrap operation failed.
#[derive(Debug, Clone, Copy, PartialEq, Eq, Structural)]
pub enum BootstrapError {
    /// The random generator reached the end of its stream.
    GeneratorExhausted,
}

impl Memory {
    pub fn new() -> (r: Memory)
        ensures
            r.buffer@.len() == 0,
    {
        Memory { buffer: Vec::new() }
    }

    /// Sizes the buffer for `server_key` and returns `(accumulator_elements, lwe_elements)`:
    /// the accumulator lies in `[0, accumulator_elements)` and holds the trivial encryption
    /// of the constant `PLAINTEXT_TRUE` (zero masks, every body coefficient
    /// `PLAINTEXT_TRUE`), and the output sample lies right after it, in
    /// `[accumulator_elements, accumulator_elements + lwe_elements)`. The buffer grows when
    /// it is too small and never shrinks.
    pub fn as_buffers(&mut self, server_key: &ServerKey) -> (r: (usize, usize))
        requires
            server_key.wf(),
        ensures
            r.0 == (server_key.bootstrapping_key.glwe_dimension + 1)
                * server_key.bootstrapping_key.polynomial_size,
            r.1 == server_key.bootstrapping_key.output_lwe_size_spec(),
            final(self).buffer@.len() == if old(self).buffer@.len() < r.0 + r.1 {
                r.0 + r.1
            } else {
                old(self).buffer@.len() as int
            },
            forall|i: int|
                0 <= i < r.0 ==> #[trigger] final(self).buffer@[i] == if i < r.0
                    - server_key.bootstrapping_key.polynomial_size {
                    0
                } else {
                    PLAINTEXT_TRUE
                },
            forall|i: int|
                r.0 + r.1 <= i < old(self).buffer@.len() ==> #[trigger] final(self).buffer@[i]
                    == old(self).buffer@[i],
    {
        let bsk = &server_key.bootstrapping_key;
        let n = bsk.polynomial_size();
        let k = bsk.glwe_dimension;
        let lwe_dim = bsk.output_lwe_dimension();
        proof {
            assert((k + 1) * n == k * n + n) by (nonlinear_arith);
            vstd::arithmetic::power2::lemma2_to64();
            if bsk.log_polynomial_size < 20 {
                vstd::arithmetic::power2::lemma_pow2_strictly_increases(
                    bsk.log_polynomial_size as nat,
                    20,
                );
            }
        }
        let num_elem_in_accumulator = lwe_dim + n;
        let num_elem_in_lwe = lwe_dim + 1;
        let total = num_elem_in_accumulator + num_elem_in_lwe;
        while self.buffer.len() < total
            invariant
                self.buffer@.len() <= if old(self).buffer@.len() < total {
                    total as int
                } else {
                    old(self).buffer@.len() as int
                },
                old(self).buffer@.len() <= self.buffer@.len(),
                forall|j: int| 0 <= j < old(self).buffer@.len() ==> #[trigger] self.buffer@[j]
                    == old(self).buffer@[j],
            decreases total - self.buffer@.len(),
        {
            self.buffer.push(0);
        }
        let mask_end = lwe_dim;
        let mut i: usize = 0;
        while i < num_elem_in_accumulator
            invariant
                self.buffer@.len() >= total,
                self.buffer@.len() == if old(self).buffer@.len() < total {
                    total as int
                } else {
                    old(self).buffer@.len() as int
                },
                num_elem_in_accumulator <= total,
                mask_end == num_elem_in_accumulator - n,
                i <= num_elem_in_accumulator,
                forall|j: int|
                    0 <= j < i ==> #[trigger] self.buffer@[j] == if j < mask_end {
                        0
                    } else {
                        PLAINTEXT_TRUE
                    },
                forall|j: int| num_elem_in_accumulator <= j < old(self).buffer@.len()
                    ==> #[trigger] self.buffer@[j] == old(self).buffer@[j],
            decreases num_elem_in_accumulator - i,
        {
            if i < mask_end {
                self.buffer.set(i, 0);
            } else {
                self.buffer.set(i, PLAINTEXT_TRUE);
            }
            i = i + 1;
        }
        (num_elem_in_accumulator, num_elem_in_lwe)
    }
}

/// Runs boolean refreshes: owns the scratch memory and the random generators.
pub struct Bootstrapper {
    memory: Memory,
    pub encryption_generator: EncryptionRandomGenerator,
}

impl Bootstrapper {
    /// The number of random bytes requested so far.
    pub closed spec fn used(&self) -> nat {
        self.encryption_generator.used()
    }

    /// The number of words of scratch memory held.
    pub closed spec fn scratch_len(&self) -> int {
        self.memory.buffer@.len() as int
    }

    /// A bootstrapper with empty scratch memory whose mask generator is keyed by `seed` and
    /// whose secret generator is keyed by `noise_seed`.
    pub fn new(seed: u128, noise_seed: u128) -> (r: Self)
        ensures
            r.scratch_len() == 0,
            r.used() == 0,
    {
        Bootstrapper {
            memory: Memory::new(),
            encryption_generator: EncryptionRandomGenerator::new(seed, noise_seed),
        }
    }

    /// Draws the secret keys of `parameters`.
    pub fn new_client_key(&mut self, parameters: BooleanParameters) -> (r: Result<
        ClientKey,
        BootstrapError,
    >)
        requires
            parameters.wf(),
        ensures
            r is Ok ==> r->Ok_0.wf() && r->Ok_0.parameters == parameters,
            final(self).used() <= old(self).used()
                + 0x200_0000,
            old(self).used() + 0x200_0000 <= byte_budget() ==> r is Ok,
    {
        let n = crate::core_crypto::bootstrap::polynomial_size_of(parameters.log_polynomial_size);
        let glwe = match GlweSecretKey::generate(
            parameters.glwe_dimension,
            n,
            &mut self.encryption_generator,
        ) {
            Ok(k) => k,
            Err(_) => {
                return Err(BootstrapError::GeneratorExhausted);
            },
        };
        let lwe = match self.encryption_generator.random_binary(parameters.lwe_dimension) {
            Ok(d) => d,
            Err(_) => {
                return Err(BootstrapError::GeneratorExhausted);
            },
        };
        Ok(ClientKey { lwe_secret_key: LweSecretKey { data: lwe }, glwe_secret_key: glwe, parameters })
    }

    /// Generates the server key of `cks`: the bootstrapping key from the small LWE key to
    /// the GLWE key, then the keyswitching key from the GLWE key, read as an LWE key, back
    /// to the small one.
    pub fn new_server_key(&mut self, cks: &ClientKey) -> (r: Result<ServerKey, BootstrapError>)
        requires
            cks.wf(),
        ensures
            final(self).used() <= old(self).used()
                + 0x1000_0000_0000_0000,
            old(self).used() + 0x1000_0000_0000_0000 <= byte_budget()
                ==> r is Ok,
            r is Ok ==> r->Ok_0.wf(),
            r is Ok ==> r->Ok_0.bootstrapping_key.input_lwe_dimension
                == cks.parameters.lwe_dimension,
            r is Ok ==> r->Ok_0.bootstrapping_key.glwe_dimension
                == cks.parameters.glwe_dimension,
            r is Ok ==> r->Ok_0.bootstrapping_key.log_polynomial_size
                == cks.parameters.log_polynomial_size,
            r is Ok ==> r->Ok_0.bootstrapping_key.decomp_base_log == cks.parameters.pbs_base_log,
            r is Ok ==> r->Ok_0.bootstrapping_key.decomp_level_count == cks.parameters.pbs_level,
            r is Ok ==> r->Ok_0.key_switching_key.decomp_base_log == cks.parameters.ks_base_log,
            r is Ok ==> r->Ok_0.key_switching_key.decomp_level_count == cks.parameters.ks_level,
            r is Ok ==> forall|j: int|
                0 <= j < r->Ok_0.key_switching_key.data@.len() ==> #[trigger] encrypts_lwe(
                    r->Ok_0.key_switching_key.data@[j].data@,
                    cks.lwe_secret_key.data@,
                    ksk_row_plaintext(
                        glwe_key_as_lwe(cks.glwe_secret_key),
                        cks.parameters.ks_base_log,
                        cks.parameters.ks_level,
                        j,
                    ),
                    cks.parameters.lwe_noise_bound_log,
                ),
            r is Ok ==> forall|i: int, row: int|
                0 <= i < r->Ok_0.bootstrapping_key.ggsw_list@.len() && 0 <= row
                    < r->Ok_0.bootstrapping_key.ggsw_list@[i]@.len() ==> #[trigger] encrypts_glwe_constant(
                    glwe_view(r->Ok_0.bootstrapping_key.ggsw_list@[i]@[row]@),
                    glwe_view(cks.glwe_secret_key.polys@),
                    cks.glwe_secret_key.polynomial_size as nat,
                    row / (cks.parameters.pbs_level as int),
                    ggsw_row_constant(cks.lwe_secret_key.data@[i], cks.parameters.pbs_base_log, cks.parameters.pbs_level, row),
                    cks.parameters.glwe_noise_bound_log,
                ),
    {
        let p = cks.parameters;
        let bsk = match par_allocate_and_generate_new_lwe_bootstrap_key(
            &cks.lwe_secret_key,
            &cks.glwe_secret_key,
            p.log_polynomial_size,
            p.pbs_base_log,
            p.pbs_level,
            p.glwe_noise_bound_log,
            &mut self.encryption_generator,
        ) {
            Ok(k) => k,
            Err(_) => {
                return Err(BootstrapError::GeneratorExhausted);
            },
        };
        let big_lwe_secret_key = cks.glwe_secret_key.as_lwe_secret_key();
        proof {
            lemma_glwe_key_len(&cks.glwe_secret_key);
            crate::core_crypto::bootstrap::lemma_glwe_key_small(&cks.glwe_secret_key, p.log_polynomial_size);
        }
        let ksk = match allocate_and_generate_new_lwe_keyswitch_key(
            &big_lwe_secret_key,
            &cks.lwe_secret_key,
            p.ks_base_log,
            p.ks_level,
            p.lwe_noise_bound_log,
            CiphertextModulus::new_native(),
            &mut self.encryption_generator,
        ) {
            Ok(k) => k,
            Err(_) => {
                return Err(BootstrapError::GeneratorExhausted);
            },
        };
        Ok(ServerKey { bootstrapping_key: bsk, key_switching_key: ksk })
    }

    /// Refreshes `input`, a sample under the small key, through the accumulator of the
    /// constant `PLAINTEXT_TRUE`: the output is a sample under the large key whose phase is
    /// `PLAINTEXT_TRUE` or its opposite, by the sign of the input's phase.
    pub fn bootstrap(&mut self, input: &LweCiphertext, server_key: &ServerKey) -> (r: Result<
        LweCiphertext,
        BootstrapError,
    >)
        requires
            server_key.wf(),
            input.data@.len() == server_key.bootstrapping_key.input_lwe_dimension + 1,
        ensures
            r is Ok,
            r->Ok_0.data@ == refresh_true_spec(input.data@, server_key.bootstrapping_key),
            r->Ok_0.data@.len() == server_key.bootstrapping_key.output_lwe_size_spec(),
            r->Ok_0.ciphertext_modulus == input.ciphertext_modulus,
    {
        let out = self.bootstrap_into_memory(input, server_key);
        Ok(out)
    }

    /// Runs the refresh with the accumulator that [`Memory::as_buffers`] prepares, writes the
    /// output into the memory's second region, and copies it out.
    fn bootstrap_into_memory(&mut self, input: &LweCiphertext, server_key: &ServerKey) -> (r:
        LweCiphertext)
        requires
            server_key.wf(),
            input.data@.len() == server_key.bootstrapping_key.input_lwe_dimension + 1,
        ensures
            r.data@ == refresh_true_spec(input.data@, server_key.bootstrapping_key),
            r.data@.len() == server_key.bootstrapping_key.output_lwe_size_spec(),
            r.ciphertext_modulus == input.ciphertext_modulus,
    {
        let bsk = &server_key.bootstrapping_key;
        let (acc_len, lwe_len) = self.memory.as_buffers(server_key);
        let n = bsk.polynomial_size();
        let k = bsk.glwe_dimension;
        proof {
            vstd::arithmetic::power2::lemma2_to64();
            if bsk.log_polynomial_size < 20 {
                vstd::arithmetic::power2::lemma_pow2_strictly_increases(
                    bsk.log_polynomial_size as nat,
                    20,
                );
            }
            vstd::arithmetic::power2::lemma_pow2_pos(bsk.log_polynomial_size as nat);
            assert((k + 1) * n == k * n + n) by (nonlinear_arith);
        }
        let ghost truth = true_accumulator(*bsk);
        // Read the accumulator out of the memory, one polynomial per component.
        let mut accumulator: Vec<Vec<u64>> = Vec::new();
        let mut c: usize = 0;
        while c <= k
            invariant
                1 <= k <= 16,
                1 <= n <= 0x10_0000,
                k == bsk.glwe_dimension,
                n == bsk.polynomial_size,
                truth == true_accumulator(*bsk),
                acc_len == (k + 1) * n,
                (k + 1) * n == k * n + n,
                self.memory.buffer@.len() >= acc_len,
                forall|i: int|
                    0 <= i < acc_len ==> #[trigger] self.memory.buffer@[i] == if i < acc_len - n {
                        0
                    } else {
                        PLAINTEXT_TRUE
                    },
                c <= k + 1,
                accumulator@.len() == c,
                forall|j: int| 0 <= j < c ==> #[trigger] accumulator@[j]@.len() == n,
                forall|j: int| 0 <= j < c ==> #[trigger] accumulator@[j]@ == truth[j],
            decreases k + 1 - c,
        {
            let mut p: Vec<u64> = Vec::new();
            let mut t: usize = 0;
            proof {
                assert(c * n + n <= (k + 1) * n) by (nonlinear_arith)
                    requires
                        c <= k,
                ;
            }
            let base = c * n;
            while t < n
                invariant
                    base == c * n,
                    c <= k,
                    base + n <= acc_len,
                    acc_len == (k + 1) * n,
                    (k + 1) * n == k * n + n,
                    self.memory.buffer@.len() >= acc_len,
                    forall|i: int|
                        0 <= i < acc_len ==> #[trigger] self.memory.buffer@[i] == if i < acc_len
                            - n {
                            0
                        } else {
                            PLAINTEXT_TRUE
                        },
                    t <= n,
                    p@.len() == t,
                    forall|j: int|
                        0 <= j < t ==> p@[j] == if c == k {
                            PLAINTEXT_TRUE
                        } else {
                            0
                        },
                decreases n - t,
            {
                proof {
                    assert(c < k ==> base + t < k * n) by (nonlinear_arith)
                        requires
                            base == c * n,
                            t < n,
                    ;
                    assert(c == k ==> base + t >= k * n) by (nonlinear_arith)
                        requires
                            base == c * n,
                    ;
                }
                p.push(self.memory.buffer[base + t]);
                t = t + 1;
            }
            assert(p@ =~= truth[c as int]);
            accumulator.push(p);
            c = c + 1;
        }
        assert(glwe_view(accumulator@) =~= truth);
        let out = programmable_bootstrap_lwe_ciphertext(input, &accumulator, bsk);
        let blen = self.memory.buffer.len();
        // Write the output into its region, then copy it out.
        let mut i: usize = 0;
        while i < lwe_len
            invariant
                lwe_len == out.data@.len(),
                self.memory.buffer@.len() >= acc_len + lwe_len,
                blen == self.memory.buffer@.len(),
                i <= lwe_len,
                forall|j: int| 0 <= j < i ==> #[trigger] self.memory.buffer@[acc_len + j] == out.data@[j],
            decreases lwe_len - i,
        {
            self.memory.buffer.set(acc_len + i, out.data[i]);
            i = i + 1;
        }
        let mut data: Vec<u64> = Vec::new();
        let mut i: usize = 0;
        while i < lwe_len
            invariant
                lwe_len == out.data@.len(),
                self.memory.buffer@.len() >= acc_len + lwe_len,
                blen == self.memory.buffer@.len(),
                i <= lwe_len,
                data@.len() == i,
                forall|j: int| 0 <= j < lwe_len ==> #[trigger] self.memory.buffer@[acc_len + j] == out.data@[j],
                forall|j: int| 0 <= j < i ==> data@[j] == out.data@[j],
            decreases lwe_len - i,
        {
            data.push(self.memory.buffer[acc_len + i]);
            i = i + 1;
        }
        assert(data@ =~= out.data@);
        LweCiphertext { data, ciphertext_modulus: input.ciphertext_modulus }
    }

    /// Switches `input`, a sample under the large key, to the small key.
    pub fn keyswitch(&mut self, input: &LweCiphertext, server_key: &ServerKey) -> (r: Result<
        LweCiphertext,
        BootstrapError,
    >)
        requires
            server_key.wf(),
            input.data@.len() == server_key.key_switching_key.input_lwe_dimension + 1,
        ensures
            r is Ok,
            r->Ok_0.data@ == keyswitch_spec(server_key.key_switching_key, input.data@),
            r->Ok_0.data@.len() == server_key.bootstrapping_key.input_lwe_dimension + 1,
            r->Ok_0.ciphertext_modulus == input.ciphertext_modulus,
    {
        Ok(keyswitch_lwe_ciphertext(&server_key.key_switching_key, input))
    }

    /// The full refresh: a bootstrap to the large key, then a keyswitch back to the small
    /// one, into the caller's sample.
    pub fn bootstrap_keyswitch(&mut self, ciphertext: LweCiphertext, server_key: &ServerKey) -> (r:
        Result<Ciphertext, BootstrapError>)
        requires
            server_key.wf(),
            ciphertext.data@.len() == server_key.bootstrapping_key.input_lwe_dimension + 1,
        ensures
            r is Ok,
            r->Ok_0 matches Ciphertext::Encrypted(ct) && ct.data@ == keyswitch_spec(
                server_key.key_switching_key,
                refresh_true_spec(ciphertext.data@, server_key.bootstrapping_key),
            ) && ct.data@.len() == ciphertext.data@.len() && ct.ciphertext_modulus
                == ciphertext.ciphertext_modulus,
    {
        let big = self.bootstrap_into_memory(&ciphertext, server_key);
        proof {
            assert(server_key.bootstrapping_key.output_lwe_size_spec()
                == server_key.key_switching_key.input_lwe_dimension + 1);
        }
        let small = keyswitch_lwe_ciphertext(&server_key.key_switching_key, &big);
        Ok(Ciphertext::Encrypted(small))
    }
}

/// The two sub-keys of a server key, each encoded on its own.
#[derive(Debug, Clone, PartialEq, Eq)]
pub struct SerializableServerKey {
    pub bootstrapping_key: Vec<u8>,
    pub key_switching_key: Vec<u8>,
}

/// Why encoded key material was refused.
#[derive(Debug, Clone, Copy, PartialEq, Eq, Structural)]
pub enum KeyDecodingError {
    /// The bytes end before the last word they announce.
    Truncated,
    /// The words do not describe a well-formed key: bad dimensions, or a length that does
    /// not match them.
    InvalidShape,
}

/// Reads the word at `pos`, or fails when the words end.
fn read_word(w: &Vec<u64>, pos: &mut usize) -> (r: Result<u64, KeyDecodingError>)
    ensures
        r is Ok <==> *old(pos) < w@.len(),
        r is Ok ==> r->Ok_0 == w@[*old(pos) as int] && *final(pos) == *old(pos) + 1,
        r is Err ==> *final(pos) == *old(pos) && r == Err::<u64, _>(KeyDecodingError::InvalidShape),
{
    if *pos < w.len() {
        let v = w[*pos];
        *pos = *pos + 1;
        Ok(v)
    } else {
        Err(KeyDecodingError::InvalidShape)
    }
}

/// The coefficients of a GLWE sample, component after component.
pub open spec fn glwe_words(g: Seq<Vec<u64>>) -> Seq<u64> {
    g.map_values(|p: Vec<u64>| p@).flatten()
}

/// The coefficients of a GGSW sample, row after row.
pub open spec fn ggsw_words(g: Seq<Vec<Vec<u64>>>) -> Seq<u64> {
    g.map_values(|r: Vec<Vec<u64>>| glwe_words(r@)).flatten()
}

/// The coefficients of a list of GGSW samples, one after the other.
pub open spec fn ggsw_list_words(l: Seq<Vec<Vec<Vec<u64>>>>) -> Seq<u64> {
    l.map_values(|g: Vec<Vec<Vec<u64>>>| ggsw_words(g@)).flatten()
}

/// The header of a bootstrapping key: `[n, k, log2 N, base_log, levels]`.
pub open spec fn bootstrap_key_header(k: &LweBootstrapKey) -> Seq<u64> {
    seq![
        k.input_lwe_dimension as u64,
        k.glwe_dimension as u64,
        k.log_polynomial_size as u64,
        k.decomp_base_log as u64,
        k.decomp_level_count as u64,
    ]
}

/// The words of a bootstrapping key: its header, then every coefficient, key by key, row by
/// row, component by component.
pub open spec fn bootstrap_key_words(k: &LweBootstrapKey) -> Seq<u64> {
    bootstrap_key_header(k) + ggsw_list_words(k.ggsw_list@)
}

fn bootstrap_key_to_words(bsk: &LweBootstrapKey) -> (r: Vec<u64>)
    requires
        bsk.wf(),
    ensures
        r@ == bootstrap_key_words(bsk),
{
    let mut w: Vec<u64> = Vec::new();
    w.push(bsk.input_lwe_dimension as u64);
    w.push(bsk.glwe_dimension as u64);
    w.push(bsk.log_polynomial_size as u64);
    w.push(bsk.decomp_base_log as u64);
    w.push(bsk.decomp_level_count as u64);
    let ghost header = w@;
    assert(header =~= bootstrap_key_header(bsk));
    let ghost list = bsk.ggsw_list@;
    let mut i: usize = 0;
    assert(list.subrange(0, 0).map_values(|g: Vec<Vec<Vec<u64>>>| ggsw_words(g@)).flatten()
        =~= Seq::<u64>::empty());
    assert(w@ =~= header + ggsw_list_words(list.subrange(0, 0)));
    while i < bsk.ggsw_list.len()
        invariant
            list == bsk.ggsw_list@,
            i <= list.len(),
            w@ == header + ggsw_list_words(list.subrange(0, i as int)),
        decreases list.len() - i,
    {
        let ggsw = &bsk.ggsw_list[i];
        let ghost base_i = w@;
        let mut r: usize = 0;
        assert(ggsw@.subrange(0, 0).map_values(|x: Vec<Vec<u64>>| glwe_words(x@)).flatten()
            =~= Seq::<u64>::empty());
        assert(w@ =~= base_i + ggsw_words(ggsw@.subrange(0, 0)));
        while r < ggsw.len()
            invariant
                r <= ggsw@.len(),
                w@ == base_i + ggsw_words(ggsw@.subrange(0, r as int)),
            decreases ggsw@.len() - r,
        {
            let row = &ggsw[r];
            let ghost base_r = w@;
            let mut c: usize = 0;
            assert(row@.subrange(0, 0).map_values(|p: Vec<u64>| p@).flatten()
                =~= Seq::<u64>::empty());
            assert(w@ =~= base_r + glwe_words(row@.subrange(0, 0)));
            while c < row.len()
                invariant
                    c <= row@.len(),
                    w@ == base_r + glwe_words(row@.subrange(0, c as int)),
                decreases row@.len() - c,
            {
                let poly = &row[c];
                let ghost base_c = w@;
                let mut t: usize = 0;
                while t < poly.len()
                    invariant
                        t <= poly@.len(),
                        w@ == base_c + poly@.subrange(0, t as int),
                    decreases poly@.len() - t,
                {
                    w.push(poly[t]);
                    t = t + 1;
                    assert(w@ =~= base_c + poly@.subrange(0, t as int));
                }
                proof {
                    assert(poly@.subrange(0, t as int) =~= poly@);
                    assert(row@.subrange(0, c + 1) =~= row@.subrange(0, c as int).push(row@[c as int]));
                    crate::core_crypto::flatten::lemma_map_flatten_push(
                        row@.subrange(0, c as int),
                        row@[c as int],
                        |p: Vec<u64>| p@,
                    );
                    assert(w@ =~= base_r + glwe_words(row@.subrange(0, c + 1)));
                }
                c = c + 1;
            }
            proof {
                assert(row@.subrange(0, c as int) =~= row@);
                assert(ggsw@.subrange(0, r + 1) =~= ggsw@.subrange(0, r as int).push(ggsw@[r as int]));
                crate::core_crypto::flatten::lemma_map_flatten_push(
                    ggsw@.subrange(0, r as int),
                    ggsw@[r as int],
                    |x: Vec<Vec<u64>>| glwe_words(x@),
                );
                assert(w@ =~= base_i + ggsw_words(ggsw@.subrange(0, r + 1)));
            }
            r = r + 1;
        }
        proof {
            assert(ggsw@.subrange(0, r as int) =~= ggsw@);
            assert(list.subrange(0, i + 1) =~= list.subrange(0, i as int).push(list[i as int]));
            crate::core_crypto::flatten::lemma_map_flatten_push(
                list.subrange(0, i as int),
                list[i as int],
                |g: Vec<Vec<Vec<u64>>>| ggsw_words(g@),
            );
            assert(w@ =~= header + ggsw_list_words(list.subrange(0, i + 1)));
        }
        i = i + 1;
    }
    assert(list.subrange(0, i as int) =~= list);
    w
}

/// Reads `count` words into a polynomial.
fn read_poly(w: &Vec<u64>, pos: &mut usize, count: usize) -> (r: Result<Vec<u64>, KeyDecodingError>)
    requires
        *old(pos) <= w@.len(),
    ensures
        *final(pos) <= w@.len(),
        r is Ok ==> r->Ok_0@.len() == count,
        r is Ok ==> *final(pos) == *old(pos) + count,
        r is Ok ==> r->Ok_0@ == w@.subrange(*old(pos) as int, *final(pos) as int),
        r is Err ==> r == Err::<Vec<u64>, _>(KeyDecodingError::InvalidShape),
        *old(pos) + count <= w@.len() ==> r is Ok,
{
    let ghost start = *pos;
    let mut p: Vec<u64> = Vec::new();
    while p.len() < count
        invariant
            p@.len() <= count,
            start <= *pos <= w@.len(),
            start == *old(pos),
            *pos == start + p@.len(),
            p@ == w@.subrange(start as int, *pos as int),
        decreases count - p@.len(),
    {
        let v = read_word(w, pos)?;
        p.push(v);
        assert(p@ =~= w@.subrange(start as int, *pos as int));
    }
    Ok(p)
}


/// `k0` is a well-formed bootstrapping key of small enough LWE dimension whose words are `w`.
pub open spec fn bootstrap_key_model(k0: LweBootstrapKey, w: Seq<u64>) -> bool {
    &&& k0.wf()
    &&& k0.input_lwe_dimension <= 0x10_0000
    &&& w == bootstrap_key_words(&k0)
}

/// The words of a well-formed bootstrapping key: the header, then
/// `n * (k + 1) * levels * (k + 1) * N` coefficients.
proof fn lemma_bootstrap_key_words_len(k0: &LweBootstrapKey)
    requires
        k0.wf(),
    ensures
        bootstrap_key_words(k0).len() == 5 + k0.input_lwe_dimension * (((k0.glwe_dimension + 1)
            * k0.decomp_level_count) * ((k0.glwe_dimension + 1) * k0.polynomial_size)),
{
    let k = k0.glwe_dimension;
    let n = k0.polynomial_size;
    let lv = k0.decomp_level_count;
    let glwe_len = ((k + 1) * n) as nat;
    let ggsw_len = (((k + 1) * lv) * glwe_len) as nat;
    assert(0 <= (k + 1) * n) by (nonlinear_arith);
    assert(0 <= ((k + 1) * lv) * glwe_len) by (nonlinear_arith);
    assert forall|i: int| 0 <= i < k0.ggsw_list@.len() implies #[trigger] ggsw_words(
        k0.ggsw_list@[i]@,
    ).len() == ggsw_len by {
        let g = k0.ggsw_list@[i]@;
        assert(ggsw_wf(g, k as nat, n as nat, lv as nat));
        assert forall|r: int| 0 <= r < g.len() implies #[trigger] glwe_words(g[r]@).len()
            == glwe_len by {
            lemma_map_flatten_len(g[r]@, |p: Vec<u64>| p@, n as nat);
        }
        lemma_map_flatten_len(g, |x: Vec<Vec<u64>>| glwe_words(x@), glwe_len);
    }
    lemma_map_flatten_len(k0.ggsw_list@, |g: Vec<Vec<Vec<u64>>>| ggsw_words(g@), ggsw_len);
}

/// The next polynomial of `n` words still fits before the end of the words.
proof fn lemma_next_poly_fits(i: int, r: int, c: int, count: int, rows: int, k: int, n: int)
    requires
        0 <= i < count,
        0 <= r < rows,
        0 <= c <= k,
        0 <= k,
        0 <= n,
    ensures
        5 + i * (rows * ((k + 1) * n)) + r * ((k + 1) * n) + c * n + n <= 5 + count * (rows * ((k
            + 1) * n)),
{
    assert(c * n + n <= (k + 1) * n) by (nonlinear_arith)
        requires
            c <= k,
            0 <= n,
    ;
    assert(r * ((k + 1) * n) + (k + 1) * n <= rows * ((k + 1) * n)) by (nonlinear_arith)
        requires
            r < rows,
            0 <= (k + 1) * n,
    ;
    assert(0 <= (k + 1) * n) by (nonlinear_arith)
        requires
            0 <= k,
            0 <= n,
    ;
    assert(i * (rows * ((k + 1) * n)) + rows * ((k + 1) * n) <= count * (rows * ((k + 1) * n)))
        by (nonlinear_arith)
        requires
            i < count,
            0 <= rows * ((k + 1) * n),
    ;
    assert(0 <= rows * ((k + 1) * n)) by (nonlinear_arith)
        requires
            0 <= rows,
            0 <= (k + 1) * n,
    ;
}

/// Rebuilds a bootstrapping key from its words; the words must describe a well-formed key
/// and hold nothing after it.
fn bootstrap_key_from_words(w: &Vec<u64>, model: Ghost<Option<LweBootstrapKey>>) -> (r: Result<
    LweBootstrapKey,
    KeyDecodingError,
>)
    requires
        model@ is Some ==> bootstrap_key_model(model@->Some_0, w@),
    ensures
        model@ is Some ==> r is Ok,
        r is Ok ==> r->Ok_0.wf(),
        r is Ok ==> r->Ok_0.input_lwe_dimension <= 0x10_0000,
        r is Ok ==> bootstrap_key_words(&r->Ok_0) == w@,
        r is Err ==> r == Err::<LweBootstrapKey, _>(KeyDecodingError::InvalidShape),
{
    let mut pos: usize = 0;
    let n_in = read_word(w, &mut pos)?;
    let k = read_word(w, &mut pos)?;
    let log_n = read_word(w, &mut pos)?;
    let base_log = read_word(w, &mut pos)?;
    let levels = read_word(w, &mut pos)?;
    let ghost header = w@.subrange(0, 5);
    proof {
        if model@ is Some {
            let k0 = model@->Some_0;
            lemma_bootstrap_key_words_len(&k0);
            assert(bootstrap_key_words(&k0)[0] == k0.input_lwe_dimension as u64);
            assert(bootstrap_key_words(&k0)[1] == k0.glwe_dimension as u64);
            assert(bootstrap_key_words(&k0)[2] == k0.log_polynomial_size as u64);
            assert(bootstrap_key_words(&k0)[3] == k0.decomp_base_log as u64);
            assert(bootstrap_key_words(&k0)[4] == k0.decomp_level_count as u64);
            assert(k0.decomp_base_log <= 63 && k0.decomp_level_count <= 63) by (nonlinear_arith)
                requires
                    1 <= k0.decomp_base_log,
                    1 <= k0.decomp_level_count,
                    k0.decomp_base_log * k0.decomp_level_count <= 63,
            ;
        }
    }
    if n_in > 0x10_0000 || k < 1 || k > 16 || log_n < 1 || log_n > 20 || base_log < 1
        || base_log > 63 || levels < 1 || levels > 63 {
        return Err(KeyDecodingError::InvalidShape);
    }
    proof {
        assert(base_log * levels <= 63 * 63 && (k + 1) * levels <= 17 * 63) by (nonlinear_arith)
            requires
                base_log <= 63,
                levels <= 63,
                k <= 16,
        ;
    }
    if base_log * levels > 63 {
        return Err(KeyDecodingError::InvalidShape);
    }
    let n_in = n_in as usize;
    let k = k as usize;
    let log_n = log_n as u32;
    let n = crate::core_crypto::bootstrap::polynomial_size_of(log_n);
    let rows = (k + 1) * (levels as usize);
    let ghost per_glwe = (k + 1) * n;
    let ghost per_ggsw = rows * per_glwe;
    proof {
        if model@ is Some {
            let k0 = model@->Some_0;
            assert(w@.len() == 5 + n_in * per_ggsw);
        }
    }
    let mut list: Vec<Vec<Vec<Vec<u64>>>> = Vec::new();
    assert(list@.map_values(|g: Vec<Vec<Vec<u64>>>| ggsw_words(g@)).flatten() =~= Seq::<u64>::empty());
    assert(w@.subrange(0, pos as int) =~= header + ggsw_list_words(list@));
    while list.len() < n_in
        invariant
            1 <= k <= 16,
            rows == (k + 1) * levels,
            list@.len() <= n_in,
            pos <= w@.len(),
            w@.subrange(0, pos as int) == header + ggsw_list_words(list@),
            per_glwe == (k + 1) * n,
            per_ggsw == rows * per_glwe,
            model@ is Some ==> w@.len() == 5 + n_in * per_ggsw,
            model@ is Some ==> pos == 5 + list@.len() * per_ggsw,
            forall|j: int|
                0 <= j < list@.len() ==> ggsw_wf(#[trigger] list@[j]@, k as nat, n as nat, levels as nat),
        decreases n_in - list@.len(),
    {
        let ghost base_i = w@.subrange(0, pos as int);
        let mut ggsw: Vec<Vec<Vec<u64>>> = Vec::new();
        assert(ggsw@.map_values(|x: Vec<Vec<u64>>| glwe_words(x@)).flatten() =~= Seq::<u64>::empty());
        assert(w@.subrange(0, pos as int) =~= base_i + ggsw_words(ggsw@));
        while ggsw.len() < rows
            invariant
                1 <= k <= 16,
                ggsw@.len() <= rows,
                pos <= w@.len(),
                w@.subrange(0, pos as int) == base_i + ggsw_words(ggsw@),
                list@.len() < n_in,
                per_glwe == (k + 1) * n,
                per_ggsw == rows * per_glwe,
                model@ is Some ==> w@.len() == 5 + n_in * per_ggsw,
                model@ is Some ==> pos == 5 + list@.len() * per_ggsw + ggsw@.len() * per_glwe,
                forall|j: int| 0 <= j < ggsw@.len() ==> glwe_wf(#[trigger] ggsw@[j]@, k as nat, n as nat),
            decreases rows - ggsw@.len(),
        {
            let ghost base_r = w@.subrange(0, pos as int);
            let mut glwe: Vec<Vec<u64>> = Vec::new();
            assert(glwe@.map_values(|p: Vec<u64>| p@).flatten() =~= Seq::<u64>::empty());
            assert(w@.subrange(0, pos as int) =~= base_r + glwe_words(glwe@));
            while glwe.len() <= k
                invariant
                    1 <= k <= 16,
                    glwe@.len() <= k + 1,
                    pos <= w@.len(),
                    w@.subrange(0, pos as int) == base_r + glwe_words(glwe@),
                    list@.len() < n_in,
                    ggsw@.len() < rows,
                    per_glwe == (k + 1) * n,
                    per_ggsw == rows * per_glwe,
                    model@ is Some ==> w@.len() == 5 + n_in * per_ggsw,
                    model@ is Some ==> pos == 5 + list@.len() * per_ggsw + ggsw@.len() * per_glwe
                        + glwe@.len() * n,
                    forall|j: int| 0 <= j < glwe@.len() ==> #[trigger] glwe@[j]@.len() == n,
                decreases k + 1 - glwe@.len(),
            {
                let ghost old_pos = pos;
                let ghost old_glwe = glwe@;
                proof {
                    if model@ is Some {
                        lemma_next_poly_fits(
                            list@.len() as int,
                            ggsw@.len() as int,
                            glwe@.len() as int,
                            n_in as int,
                            rows as int,
                            k as int,
                            n as int,
                        );
                    }
                }
                let p = read_poly(w, &mut pos, n)?;
                proof {
                    crate::core_crypto::flatten::lemma_map_flatten_push(old_glwe, p, |p: Vec<u64>| p@);
                    assert(w@.subrange(0, pos as int) =~= w@.subrange(0, old_pos as int)
                        + w@.subrange(old_pos as int, pos as int));
                }
                proof {
                    assert((glwe@.len() + 1) * n == glwe@.len() * n + n) by (nonlinear_arith);
                }
                glwe.push(p);
                assert(glwe@ =~= old_glwe.push(p));
                assert(w@.subrange(0, pos as int) =~= base_r + glwe_words(glwe@));
            }
            let ghost old_ggsw = ggsw@;
            proof {
                crate::core_crypto::flatten::lemma_map_flatten_push(
                    old_ggsw,
                    glwe,
                    |x: Vec<Vec<u64>>| glwe_words(x@),
                );
            }
            proof {
                assert((ggsw@.len() + 1) * per_glwe == ggsw@.len() * per_glwe + (k + 1) * n)
                    by (nonlinear_arith)
                    requires
                        per_glwe == (k + 1) * n,
                ;
            }
            ggsw.push(glwe);
            assert(ggsw@ =~= old_ggsw.push(glwe));
            assert(w@.subrange(0, pos as int) =~= base_i + ggsw_words(ggsw@));
        }
        let ghost old_list = list@;
        proof {
            crate::core_crypto::flatten::lemma_map_flatten_push(
                old_list,
                ggsw,
                |g: Vec<Vec<Vec<u64>>>| ggsw_words(g@),
            );
        }
        proof {
            assert((list@.len() + 1) * per_ggsw == list@.len() * per_ggsw + rows * per_glwe)
                by (nonlinear_arith)
                requires
                    per_ggsw == rows * per_glwe,
            ;
        }
        list.push(ggsw);
        assert(list@ =~= old_list.push(ggsw));
        assert(w@.subrange(0, pos as int) =~= header + ggsw_list_words(list@));
    }
    if pos != w.len() {
        return Err(KeyDecodingError::InvalidShape);
    }
    let r = LweBootstrapKey {
        input_lwe_dimension: n_in,
        glwe_dimension: k,
        log_polynomial_size: log_n,
        polynomial_size: n,
        decomp_base_log: base_log as u32,
        decomp_level_count: levels as u32,
        ggsw_list: list,
    };
    assert(w@.subrange(0, pos as int) =~= w@);
    assert(bootstrap_key_header(&r) =~= header);
    Ok(r)
}

/// The header of a keyswitching key: `[base_log, levels, input dimension, output size]`.
pub open spec fn keyswitch_key_header(k: &LweKeyswitchKey) -> Seq<u64> {
    seq![
        k.decomp_base_log as u64,
        k.decomp_level_count as u64,
        k.input_lwe_dimension as u64,
        k.output_lwe_size as u64,
    ]
}

/// The coefficients of a list of LWE samples, one after the other.
pub open spec fn lwe_list_words(d: Seq<LweCiphertext>) -> Seq<u64> {
    d.map_values(|ct: LweCiphertext| ct.data@).flatten()
}

/// The words of a keyswitching key: its header, then every row.
pub open spec fn keyswitch_key_words(k: &LweKeyswitchKey) -> Seq<u64> {
    keyswitch_key_header(k) + lwe_list_words(k.data@)
}

fn keyswitch_key_to_words(ksk: &LweKeyswitchKey) -> (r: Vec<u64>)
    requires
        ksk.wf(),
    ensures
        r@ == keyswitch_key_words(ksk),
{
    let mut w: Vec<u64> = Vec::new();
    w.push(ksk.decomp_base_log as u64);
    w.push(ksk.decomp_level_count as u64);
    w.push(ksk.input_lwe_dimension as u64);
    w.push(ksk.output_lwe_size as u64);
    let ghost header = w@;
    assert(header =~= keyswitch_key_header(ksk));
    let ghost d = ksk.data@;
    assert(d.subrange(0, 0).map_values(|ct: LweCiphertext| ct.data@).flatten() =~= Seq::<u64>::empty());
    assert(w@ =~= header + lwe_list_words(d.subrange(0, 0)));
    let mut i: usize = 0;
    while i < ksk.data.len()
        invariant
            d == ksk.data@,
            i <= d.len(),
            w@ == header + lwe_list_words(d.subrange(0, i as int)),
        decreases d.len() - i,
    {
        let ct = &ksk.data[i];
        let ghost base = w@;
        let mut t: usize = 0;
        while t < ct.data.len()
            invariant
                t <= ct.data@.len(),
                w@ == base + ct.data@.subrange(0, t as int),
            decreases ct.data@.len() - t,
        {
            w.push(ct.data[t]);
            t = t + 1;
            assert(w@ =~= base + ct.data@.subrange(0, t as int));
        }
        proof {
            assert(ct.data@.subrange(0, t as int) =~= ct.data@);
            assert(d.subrange(0, i + 1) =~= d.subrange(0, i as int).push(d[i as int]));
            crate::core_crypto::flatten::lemma_map_flatten_push(
                d.subrange(0, i as int),
                d[i as int],
                |ct: LweCiphertext| ct.data@,
            );
            assert(w@ =~= header + lwe_list_words(d.subrange(0, i + 1)));
        }
        i = i + 1;
    }
    assert(d.subrange(0, i as int) =~= d);
    w
}


/// `k0` is a well-formed keyswitching key of small enough dimensions whose words are `w`.
pub open spec fn keyswitch_key_model(k0: LweKeyswitchKey, w: Seq<u64>) -> bool {
    &&& k0.wf()
    &&& k0.input_lwe_dimension <= 0x100_0000
    &&& k0.output_lwe_size <= 0x10_0001
    &&& w == keyswitch_key_words(&k0)
}

/// Rebuilds a keyswitching key from its words; the words must describe a well-formed key
/// and hold nothing after it. Rows are read under the native modulus.
fn keyswitch_key_from_words(w: &Vec<u64>, model: Ghost<Option<LweKeyswitchKey>>) -> (r: Result<
    LweKeyswitchKey,
    KeyDecodingError,
>)
    requires
        model@ is Some ==> keyswitch_key_model(model@->Some_0, w@),
    ensures
        model@ is Some ==> r is Ok,
        r is Ok ==> r->Ok_0.wf(),
        r is Ok ==> keyswitch_key_words(&r->Ok_0) == w@,
        r is Err ==> r == Err::<LweKeyswitchKey, _>(KeyDecodingError::InvalidShape),
{
    let mut pos: usize = 0;
    let base_log = read_word(w, &mut pos)?;
    let levels = read_word(w, &mut pos)?;
    let n_in = read_word(w, &mut pos)?;
    let out_size = read_word(w, &mut pos)?;
    let ghost header = w@.subrange(0, 4);
    proof {
        if model@ is Some {
            let k0 = model@->Some_0;
            let kw = keyswitch_key_words(&k0);
            assert(kw[0] == k0.decomp_base_log as u64);
            assert(kw[1] == k0.decomp_level_count as u64);
            assert(kw[2] == k0.input_lwe_dimension as u64);
            assert(kw[3] == k0.output_lwe_size as u64);
            assert(k0.decomp_base_log <= 63 && k0.decomp_level_count <= 63) by (nonlinear_arith)
                requires
                    1 <= k0.decomp_base_log,
                    1 <= k0.decomp_level_count,
                    k0.decomp_base_log * k0.decomp_level_count <= 63,
            ;
            assert forall|i: int| 0 <= i < k0.data@.len() implies (|ct: LweCiphertext| ct.data@)(
                #[trigger] k0.data@[i],
            ).len() == k0.output_lwe_size by {}
            lemma_map_flatten_len(k0.data@, |ct: LweCiphertext| ct.data@, k0.output_lwe_size as nat);
        }
    }
    if base_log < 1 || base_log > 63 || levels < 1 || levels > 63 || n_in > 0x100_0000
        || out_size < 1 || out_size > 0x10_0001 {
        return Err(KeyDecodingError::InvalidShape);
    }
    proof {
        assert(base_log * levels <= 63 * 63 && n_in * levels <= 0x100_0000 * 63)
            by (nonlinear_arith)
            requires
                base_log <= 63,
                levels <= 63,
                n_in <= 0x100_0000,
        ;
    }
    if base_log * levels > 63 {
        return Err(KeyDecodingError::InvalidShape);
    }
    let n_in = n_in as usize;
    let out_size = out_size as usize;
    let count = n_in * (levels as usize);
    proof {
        if model@ is Some {
            assert(w@.len() == 4 + count * out_size);
        }
    }
    let mut data: Vec<LweCiphertext> = Vec::new();
    assert(data@.map_values(|ct: LweCiphertext| ct.data@).flatten() =~= Seq::<u64>::empty());
    assert(w@.subrange(0, pos as int) =~= header + lwe_list_words(data@));
    while data.len() < count
        invariant
            data@.len() <= count,
            pos <= w@.len(),
            w@.subrange(0, pos as int) == header + lwe_list_words(data@),
            model@ is Some ==> w@.len() == 4 + count * out_size,
            model@ is Some ==> pos == 4 + data@.len() * out_size,
            forall|j: int| 0 <= j < data@.len() ==> #[trigger] data@[j].data@.len() == out_size,
        decreases count - data@.len(),
    {
        let ghost old_pos = pos;
        let ghost old_data = data@;
        proof {
            assert(data@.len() * out_size + out_size <= count * out_size) by (nonlinear_arith)
                requires
                    data@.len() < count,
            ;
            assert((data@.len() + 1) * out_size == data@.len() * out_size + out_size)
                by (nonlinear_arith);
        }
        let d = read_poly(w, &mut pos, out_size)?;
        let ct = LweCiphertext { data: d, ciphertext_modulus: CiphertextModulus::new_native() };
        proof {
            crate::core_crypto::flatten::lemma_map_flatten_push(
                old_data,
                ct,
                |ct: LweCiphertext| ct.data@,
            );
            assert(w@.subrange(0, pos as int) =~= w@.subrange(0, old_pos as int) + w@.subrange(
                old_pos as int,
                pos as int,
            ));
        }
        data.push(ct);
        assert(data@ =~= old_data.push(ct));
        assert(w@.subrange(0, pos as int) =~= header + lwe_list_words(data@));
    }
    if pos != w.len() {
        return Err(KeyDecodingError::InvalidShape);
    }
    let r = LweKeyswitchKey {
        decomp_base_log: base_log as u32,
        decomp_level_count: levels as u32,
        input_lwe_dimension: n_in,
        output_lwe_size: out_size,
        ciphertext_modulus: CiphertextModulus::new_native(),
        data,
    };
    assert(w@.subrange(0, pos as int) =~= w@);
    assert(keyswitch_key_header(&r) =~= header);
    Ok(r)
}

/// The words that the encoding `bytes` holds.
pub open spec fn decoded_words(bytes: Seq<u8>) -> Seq<u64> {
    Seq::new(le_word(bytes, 0) as nat, |i: int| le_word(bytes, 8 + 8 * i) as u64)
}

/// Two server keys have the same dimensions, decompositions and coefficients.
pub open spec fn same_server_key(a: &ServerKey, b: &ServerKey) -> bool {
    let ba = a.bootstrapping_key;
    let bb = b.bootstrapping_key;
    let ka = a.key_switching_key;
    let kb = b.key_switching_key;
    &&& ba.input_lwe_dimension == bb.input_lwe_dimension
    &&& ba.glwe_dimension == bb.glwe_dimension
    &&& ba.log_polynomial_size == bb.log_polynomial_size
    &&& ba.polynomial_size == bb.polynomial_size
    &&& ba.decomp_base_log == bb.decomp_base_log
    &&& ba.decomp_level_count == bb.decomp_level_count
    &&& ba.ggsw_list@.len() == bb.ggsw_list@.len()
    &&& forall|i: int, r: int, c: int|
        0 <= i < ba.ggsw_list@.len() && 0 <= r < ba.ggsw_list@[i]@.len() && 0 <= c
            < ba.ggsw_list@[i]@[r]@.len() ==> #[trigger] ba.ggsw_list@[i]@[r]@[c]@
            == bb.ggsw_list@[i]@[r]@[c]@
    &&& ka.decomp_base_log == kb.decomp_base_log
    &&& ka.decomp_level_count == kb.decomp_level_count
    &&& ka.input_lwe_dimension == kb.input_lwe_dimension
    &&& ka.output_lwe_size == kb.output_lwe_size
    &&& ka.data@.len() == kb.data@.len()
    &&& forall|i: int| 0 <= i < ka.data@.len() ==> #[trigger] ka.data@[i].data@ == kb.data@[i].data@
}

/// The words of a well-formed bootstrapping key determine it.
proof fn lemma_bootstrap_key_words_injective(a: &LweBootstrapKey, b: &LweBootstrapKey)
    requires
        a.wf(),
        b.wf(),
        bootstrap_key_words(a) == bootstrap_key_words(b),
    ensures
        a.input_lwe_dimension == b.input_lwe_dimension,
        a.glwe_dimension == b.glwe_dimension,
        a.log_polynomial_size == b.log_polynomial_size,
        a.polynomial_size == b.polynomial_size,
        a.decomp_base_log == b.decomp_base_log,
        a.decomp_level_count == b.decomp_level_count,
        a.ggsw_list@.len() == b.ggsw_list@.len(),
        forall|i: int, r: int, c: int|
            0 <= i < a.ggsw_list@.len() && 0 <= r < a.ggsw_list@[i]@.len() && 0 <= c
                < a.ggsw_list@[i]@[r]@.len() ==> #[trigger] a.ggsw_list@[i]@[r]@[c]@
                == b.ggsw_list@[i]@[r]@[c]@,
{
    let wa = bootstrap_key_words(a);
    let wb = bootstrap_key_words(b);
    assert(wa[0] == a.input_lwe_dimension as u64 && wb[0] == b.input_lwe_dimension as u64);
    assert(wa[1] == a.glwe_dimension as u64 && wb[1] == b.glwe_dimension as u64);
    assert(wa[2] == a.log_polynomial_size as u64 && wb[2] == b.log_polynomial_size as u64);
    assert(wa[3] == a.decomp_base_log as u64 && wb[3] == b.decomp_base_log as u64);
    assert(wa[4] == a.decomp_level_count as u64 && wb[4] == b.decomp_level_count as u64);
    let k = a.glwe_dimension;
    let n = a.polynomial_size;
    let lv = a.decomp_level_count;
    let glwe_len = ((k + 1) * n) as nat;
    let ggsw_len = ((k + 1) * lv * glwe_len) as nat;
    assert(ggsw_list_words(a.ggsw_list@) =~= wa.subrange(5, wa.len() as int));
    assert(ggsw_list_words(b.ggsw_list@) =~= wb.subrange(5, wb.len() as int));
    // Every GLWE row has (k + 1) * n words and every GGSW (k + 1) * levels rows.
    assert forall|x: LweBootstrapKey, i: int, r: int|
        x.wf() && x.glwe_dimension == k && x.polynomial_size == n && x.decomp_level_count == lv
            && 0 <= i < x.ggsw_list@.len() && 0 <= r < x.ggsw_list@[i]@.len() implies
            #[trigger] glwe_words(x.ggsw_list@[i]@[r]@).len() == glwe_len by {
        assert(ggsw_wf(x.ggsw_list@[i]@, k as nat, n as nat, lv as nat));
        lemma_map_flatten_len(x.ggsw_list@[i]@[r]@, |p: Vec<u64>| p@, n as nat);
    }
    assert forall|x: LweBootstrapKey, i: int|
        x.wf() && x.glwe_dimension == k && x.polynomial_size == n && x.decomp_level_count == lv
            && 0 <= i < x.ggsw_list@.len() implies #[trigger] ggsw_words(x.ggsw_list@[i]@).len()
            == ggsw_len by {
        assert(ggsw_wf(x.ggsw_list@[i]@, k as nat, n as nat, lv as nat));
        assert forall|r: int| 0 <= r < x.ggsw_list@[i]@.len() implies #[trigger] glwe_words(
            x.ggsw_list@[i]@[r]@,
        ).len() == glwe_len by {}
        lemma_map_flatten_len(x.ggsw_list@[i]@, |g: Vec<Vec<u64>>| glwe_words(g@), glwe_len);
    }
    assert forall|i: int| 0 <= i < a.ggsw_list@.len() implies #[trigger] ggsw_words(
        a.ggsw_list@[i]@,
    ).len() == ggsw_len by {}
    assert forall|i: int| 0 <= i < b.ggsw_list@.len() implies #[trigger] ggsw_words(
        b.ggsw_list@[i]@,
    ).len() == ggsw_len by {}
    lemma_map_flatten_injective(
        a.ggsw_list@,
        b.ggsw_list@,
        |g: Vec<Vec<Vec<u64>>>| ggsw_words(g@),
        ggsw_len,
    );
    assert forall|i: int, r: int, c: int|
        0 <= i < a.ggsw_list@.len() && 0 <= r < a.ggsw_list@[i]@.len() && 0 <= c
            < a.ggsw_list@[i]@[r]@.len() implies #[trigger] a.ggsw_list@[i]@[r]@[c]@
            == b.ggsw_list@[i]@[r]@[c]@ by {
        let ga = a.ggsw_list@[i]@;
        let gb = b.ggsw_list@[i]@;
        assert(ggsw_words(ga) == ggsw_words(gb));
        assert(ggsw_wf(ga, k as nat, n as nat, lv as nat));
        assert(ggsw_wf(gb, k as nat, n as nat, lv as nat));
        assert forall|j: int| 0 <= j < ga.len() implies #[trigger] glwe_words(ga[j]@).len()
            == glwe_len by {}
        assert forall|j: int| 0 <= j < gb.len() implies #[trigger] glwe_words(gb[j]@).len()
            == glwe_len by {}
        lemma_map_flatten_injective(ga, gb, |x: Vec<Vec<u64>>| glwe_words(x@), glwe_len);
        let ra = ga[r]@;
        let rb = gb[r]@;
        assert(glwe_words(ra) == glwe_words(rb));
        assert(glwe_wf(ra, k as nat, n as nat));
        assert(glwe_wf(rb, k as nat, n as nat));
        lemma_map_flatten_injective(ra, rb, |p: Vec<u64>| p@, n as nat);
    }
}

/// The words of a well-formed keyswitching key determine its decomposition, dimensions and
/// rows.
proof fn lemma_keyswitch_key_words_injective(a: &LweKeyswitchKey, b: &LweKeyswitchKey)
    requires
        a.wf(),
        b.wf(),
        keyswitch_key_words(a) == keyswitch_key_words(b),
    ensures
        a.decomp_base_log == b.decomp_base_log,
        a.decomp_level_count == b.decomp_level_count,
        a.input_lwe_dimension == b.input_lwe_dimension,
        a.output_lwe_size == b.output_lwe_size,
        a.data@.len() == b.data@.len(),
        forall|i: int| 0 <= i < a.data@.len() ==> #[trigger] a.data@[i].data@ == b.data@[i].data@,
{
    let wa = keyswitch_key_words(a);
    let wb = keyswitch_key_words(b);
    assert(wa[0] == a.decomp_base_log as u64 && wb[0] == b.decomp_base_log as u64);
    assert(wa[1] == a.decomp_level_count as u64 && wb[1] == b.decomp_level_count as u64);
    assert(wa[2] == a.input_lwe_dimension as u64 && wb[2] == b.input_lwe_dimension as u64);
    assert(wa[3] == a.output_lwe_size as u64 && wb[3] == b.output_lwe_size as u64);
    assert(lwe_list_words(a.data@) =~= wa.subrange(4, wa.len() as int));
    assert(lwe_list_words(b.data@) =~= wb.subrange(4, wb.len() as int));
    lemma_map_flatten_injective(
        a.data@,
        b.data@,
        |ct: LweCiphertext| ct.data@,
        a.output_lwe_size as nat,
    );
}


/// Blind rotation depends on a bootstrapping key through its dimensions and coefficients
/// alone.
proof fn lemma_rotate_steps_congruent(
    acc: Seq<Seq<u64>>,
    x: Seq<u64>,
    a: LweBootstrapKey,
    b: LweBootstrapKey,
    i: nat,
)
    requires
        bsk_view(a) == bsk_view(b),
        a.glwe_dimension == b.glwe_dimension,
        a.polynomial_size == b.polynomial_size,
        a.log_polynomial_size == b.log_polynomial_size,
        a.decomp_base_log == b.decomp_base_log,
        a.decomp_level_count == b.decomp_level_count,
    ensures
        rotate_steps(acc, x, a, i) == rotate_steps(acc, x, b, i),
    decreases i,
{
    if i > 0 {
        lemma_rotate_steps_congruent(acc, x, a, b, (i - 1) as nat);
    }
}

/// Keyswitching depends on a key through its dimensions and rows alone.
proof fn lemma_ks_coeffs_congruent(a: LweKeyswitchKey, b: LweKeyswitchKey, x: Seq<u64>, i: nat)
    requires
        ksk_rows(a) == ksk_rows(b),
        a.decomp_base_log == b.decomp_base_log,
        a.decomp_level_count == b.decomp_level_count,
        a.input_lwe_dimension == b.input_lwe_dimension,
        a.output_lwe_size == b.output_lwe_size,
    ensures
        ks_coeffs(a, x, i) == ks_coeffs(b, x, i),
    decreases i,
{
    if i > 0 {
        lemma_ks_coeffs_congruent(a, b, x, (i - 1) as nat);
    }
}

/// Two well-formed server keys with the same dimensions and coefficients refresh and
/// keyswitch every input alike.
pub proof fn lemma_same_key_same_behaviour(a: &ServerKey, b: &ServerKey)
    requires
        a.wf(),
        b.wf(),
        same_server_key(a, b),
    ensures
        forall|x: Seq<u64>|
            #[trigger] refresh_true_spec(x, a.bootstrapping_key) == refresh_true_spec(
                x,
                b.bootstrapping_key,
            ),
        forall|x: Seq<u64>|
            #[trigger] keyswitch_spec(a.key_switching_key, x) == keyswitch_spec(
                b.key_switching_key,
                x,
            ),
{
    let ba = a.bootstrapping_key;
    let bb = b.bootstrapping_key;
    let k = ba.glwe_dimension;
    let n = ba.polynomial_size;
    let lv = ba.decomp_level_count;
    assert forall|i: int| 0 <= i < ba.ggsw_list@.len() implies #[trigger] bsk_view(ba)[i] == bsk_view(
        bb,
    )[i] by {
        let ga = ba.ggsw_list@[i]@;
        let gb = bb.ggsw_list@[i]@;
        assert(ggsw_wf(ga, k as nat, n as nat, lv as nat));
        assert(ggsw_wf(gb, k as nat, n as nat, lv as nat));
        assert forall|r: int| 0 <= r < ga.len() implies #[trigger] glwe_view(ga[r]@) == glwe_view(
            gb[r]@,
        ) by {
            assert(glwe_wf(ga[r]@, k as nat, n as nat));
            assert(glwe_wf(gb[r]@, k as nat, n as nat));
            assert forall|c: int| 0 <= c < ga[r]@.len() implies #[trigger] ga[r]@[c]@ == gb[r]@[c]@ by {
                assert(ba.ggsw_list@[i]@[r]@[c]@ == bb.ggsw_list@[i]@[r]@[c]@);
            }
            assert(glwe_view(ga[r]@) =~= glwe_view(gb[r]@));
        }
        assert(ggsw_view(ga) =~= ggsw_view(gb));
    }
    assert(bsk_view(ba) =~= bsk_view(bb));
    let ka = a.key_switching_key;
    let kb = b.key_switching_key;
    assert(ksk_rows(ka) =~= ksk_rows(kb));
    assert forall|x: Seq<u64>| #[trigger] refresh_true_spec(x, ba) == refresh_true_spec(x, bb) by {
        assert(true_accumulator(ba) == true_accumulator(bb));
        let nn = ba.polynomial_size as int;
        let bm = modulus_switch_spec(x[ba.input_lwe_dimension as int], ba.log_polynomial_size, nn);
        lemma_rotate_steps_congruent(
            glwe_monomial_spec(true_accumulator(ba), (2 * nn - bm) % (2 * nn)),
            x,
            ba,
            bb,
            ba.input_lwe_dimension as nat,
        );
    }
    assert forall|x: Seq<u64>| #[trigger] keyswitch_spec(ka, x) == keyswitch_spec(kb, x) by {
        lemma_ks_coeffs_congruent(ka, kb, x, ka.input_lwe_dimension as nat);
    }
}


impl ServerKey {
    /// Whether the key is well formed: the shapes of both sub-keys and how they fit
    /// together.
    pub fn is_well_formed(&self) -> (r: bool)
        ensures
            r == self.wf(),
    {
        let bsk = &self.bootstrapping_key;
        let ksk = &self.key_switching_key;
        if bsk.glwe_dimension < 1 || bsk.glwe_dimension > 16 || bsk.log_polynomial_size < 1
            || bsk.log_polynomial_size > 20 || bsk.decomp_base_log < 1 || bsk.decomp_base_log > 63
            || bsk.decomp_level_count < 1 || bsk.decomp_level_count > 63 || ksk.decomp_base_log < 1
            || ksk.decomp_base_log > 63 || ksk.decomp_level_count < 1 || ksk.decomp_level_count > 63
            || bsk.input_lwe_dimension > 0x10_0000 {
            proof {
                if self.wf() {
                    assert(bsk.decomp_base_log <= 63 && bsk.decomp_level_count <= 63
                        && ksk.decomp_base_log <= 63 && ksk.decomp_level_count <= 63)
                        by (nonlinear_arith)
                        requires
                            1 <= bsk.decomp_base_log,
                            1 <= bsk.decomp_level_count,
                            bsk.decomp_base_log * bsk.decomp_level_count <= 63,
                            1 <= ksk.decomp_base_log,
                            1 <= ksk.decomp_level_count,
                            ksk.decomp_base_log * ksk.decomp_level_count <= 63,
                    ;
                }
            }
            return false;
        }
        proof {
            assert(bsk.decomp_base_log * bsk.decomp_level_count <= 63 * 63
                && ksk.decomp_base_log * ksk.decomp_level_count <= 63 * 63
                && (bsk.glwe_dimension + 1) * bsk.decomp_level_count <= 17 * 63) by (nonlinear_arith)
                requires
                    bsk.decomp_base_log <= 63,
                    bsk.decomp_level_count <= 63,
                    ksk.decomp_base_log <= 63,
                    ksk.decomp_level_count <= 63,
                    bsk.glwe_dimension <= 16,
            ;
        }
        if bsk.decomp_base_log * bsk.decomp_level_count > 63
            || ksk.decomp_base_log * ksk.decomp_level_count > 63 {
            return false;
        }
        let n = crate::core_crypto::bootstrap::polynomial_size_of(bsk.log_polynomial_size);
        if bsk.polynomial_size != n {
            return false;
        }
        let k = bsk.glwe_dimension;
        proof {
            vstd::arithmetic::power2::lemma2_to64();
            if bsk.log_polynomial_size < 20 {
                vstd::arithmetic::power2::lemma_pow2_strictly_increases(bsk.log_polynomial_size as nat, 20);
            }
            assert(k * n <= 16 * 0x10_0000) by (nonlinear_arith)
                requires
                    k <= 16,
                    n <= 0x10_0000,
            ;
        }
        let big = k * n;
        if ksk.input_lwe_dimension != big || ksk.output_lwe_size != bsk.input_lwe_dimension + 1 {
            return false;
        }
        if bsk.ggsw_list.len() != bsk.input_lwe_dimension {
            return false;
        }
        let rows = (k + 1) * (bsk.decomp_level_count as usize);
        let mut i: usize = 0;
        while i < bsk.ggsw_list.len()
            invariant
                self.bootstrapping_key.ggsw_list@ == bsk.ggsw_list@,
                self.bootstrapping_key.glwe_dimension == bsk.glwe_dimension,
                self.bootstrapping_key.polynomial_size == bsk.polynomial_size,
                self.bootstrapping_key.decomp_level_count == bsk.decomp_level_count,
                i <= bsk.ggsw_list@.len(),
                k <= 16,
                rows == (k + 1) * bsk.decomp_level_count,
                k == bsk.glwe_dimension,
                n == bsk.polynomial_size,
                forall|j: int|
                    0 <= j < i ==> ggsw_wf(
                        #[trigger] bsk.ggsw_list@[j]@,
                        k as nat,
                        n as nat,
                        bsk.decomp_level_count as nat,
                    ),
            decreases bsk.ggsw_list@.len() - i,
        {
            let g = &bsk.ggsw_list[i];
            if g.len() != rows {
                proof {
                    if self.wf() {
                        assert(ggsw_wf(bsk.ggsw_list@[i as int]@, k as nat, n as nat, bsk.decomp_level_count as nat));
                    }
                }
                return false;
            }
            let mut r: usize = 0;
            while r < g.len()
                invariant
                    self.bootstrapping_key.ggsw_list@ == bsk.ggsw_list@,
                    self.bootstrapping_key.glwe_dimension == bsk.glwe_dimension,
                    self.bootstrapping_key.polynomial_size == bsk.polynomial_size,
                    self.bootstrapping_key.decomp_level_count == bsk.decomp_level_count,
                    r <= g@.len(),
                    i < bsk.ggsw_list@.len(),
                    g == bsk.ggsw_list@[i as int],
                    k <= 16,
                    k == bsk.glwe_dimension,
                    n == bsk.polynomial_size,
                    forall|j: int| 0 <= j < r ==> glwe_wf(#[trigger] g@[j]@, k as nat, n as nat),
                decreases g@.len() - r,
            {
                let row = &g[r];
                if row.len() != k + 1 {
                    proof {
                        if self.wf() {
                            assert(ggsw_wf(bsk.ggsw_list@[i as int]@, k as nat, n as nat, bsk.decomp_level_count as nat));
                            assert(glwe_wf(g@[r as int]@, k as nat, n as nat));
                        }
                    }
                    return false;
                }
                let mut c: usize = 0;
                while c < row.len()
                    invariant
                        self.bootstrapping_key.ggsw_list@ == bsk.ggsw_list@,
                        self.bootstrapping_key.glwe_dimension == bsk.glwe_dimension,
                        self.bootstrapping_key.polynomial_size == bsk.polynomial_size,
                        self.bootstrapping_key.decomp_level_count == bsk.decomp_level_count,
                        c <= row@.len(),
                        i < bsk.ggsw_list@.len(),
                        g == bsk.ggsw_list@[i as int],
                        r < g@.len(),
                        row == g@[r as int],
                        k == bsk.glwe_dimension,
                        n == bsk.polynomial_size,
                        forall|j: int| 0 <= j < c ==> #[trigger] row@[j]@.len() == n,
                    decreases row@.len() - c,
                {
                    if row[c].len() != n {
                        proof {
                            if self.wf() {
                                assert(ggsw_wf(bsk.ggsw_list@[i as int]@, k as nat, n as nat, bsk.decomp_level_count as nat));
                                assert(glwe_wf(g@[r as int]@, k as nat, n as nat));
                            }
                        }
                        return false;
                    }
                    c = c + 1;
                }
                r = r + 1;
            }
            i = i + 1;
        }
        let out = ksk.output_lwe_size;
        if out < 1 {
            return false;
        }
        let count = ksk.data.len();
        proof {
            assert(ksk.input_lwe_dimension * ksk.decomp_level_count <= 16 * 0x10_0000 * 63)
                by (nonlinear_arith)
                requires
                    ksk.input_lwe_dimension <= 16 * 0x10_0000,
                    ksk.decomp_level_count <= 63,
            ;
        }
        if count != ksk.input_lwe_dimension * (ksk.decomp_level_count as usize) {
            return false;
        }
        let mut j: usize = 0;
        while j < count
            invariant
                self.key_switching_key.data@ == ksk.data@,
                self.key_switching_key.output_lwe_size == ksk.output_lwe_size,
                count == ksk.data@.len(),
                j <= count,
                out == ksk.output_lwe_size,
                forall|t: int| 0 <= t < j ==> #[trigger] ksk.data@[t].data@.len() == out,
            decreases count - j,
        {
            if ksk.data[j].data.len() != out {
                proof {
                    if self.wf() {
                        assert(ksk.data@[j as int].data@.len() == ksk.output_lwe_size);
                    }
                }
                return false;
            }
            j = j + 1;
        }
        true
    }
}

/// The two blobs encode the words of the two sub-keys of some well-formed server key.
pub open spec fn encodes_server_key(thing: SerializableServerKey) -> bool {
    exists|k0: ServerKey|
        #[trigger] k0.wf() && is_word_encoding(
            thing.bootstrapping_key@,
            bootstrap_key_words(&k0.bootstrapping_key),
        ) && is_word_encoding(thing.key_switching_key@, keyswitch_key_words(&k0.key_switching_key))
}

/// The encoding of a server key decodes, and gives back the same key: `blobs` is what
/// `serialize` returns for `sk`, so `deserialize` succeeds on it, and `back` is the key
/// it returns.
pub proof fn lemma_server_key_round_trip(sk: &ServerKey, blobs: SerializableServerKey, back: &ServerKey)
    requires
        sk.wf(),
        is_word_encoding(blobs.bootstrapping_key@, bootstrap_key_words(&sk.bootstrapping_key)),
        is_word_encoding(blobs.key_switching_key@, keyswitch_key_words(&sk.key_switching_key)),
    ensures
        encodes_server_key(blobs),
        back.wf() && decoded_words(blobs.bootstrapping_key@) == bootstrap_key_words(
            &back.bootstrapping_key,
        ) && decoded_words(blobs.key_switching_key@) == keyswitch_key_words(
            &back.key_switching_key,
        ) ==> same_server_key(sk, back) && (forall|x: Seq<u64>|
            #[trigger] refresh_true_spec(x, back.bootstrapping_key) == refresh_true_spec(
                x,
                sk.bootstrapping_key,
            )) && (forall|x: Seq<u64>|
            #[trigger] keyswitch_spec(back.key_switching_key, x) == keyswitch_spec(
                sk.key_switching_key,
                x,
            )),
{
    assert(sk.wf());
    if back.wf() && decoded_words(blobs.bootstrapping_key@) == bootstrap_key_words(
        &back.bootstrapping_key,
    ) && decoded_words(blobs.key_switching_key@) == keyswitch_key_words(&back.key_switching_key) {
        lemma_same_key_from_words(sk, blobs, back);
        assert forall|i: int, r: int, c: int|
            0 <= i < back.bootstrapping_key.ggsw_list@.len() && 0 <= r
                < back.bootstrapping_key.ggsw_list@[i]@.len() && 0 <= c
                < back.bootstrapping_key.ggsw_list@[i]@[r]@.len() implies #[trigger] back.bootstrapping_key.ggsw_list@[i]@[r]@[c]@
            == sk.bootstrapping_key.ggsw_list@[i]@[r]@[c]@ by {
            let b = back.bootstrapping_key;
            assert(ggsw_wf(b.ggsw_list@[i]@, b.glwe_dimension as nat, b.polynomial_size as nat, b.decomp_level_count as nat));
            assert(ggsw_wf(sk.bootstrapping_key.ggsw_list@[i]@, b.glwe_dimension as nat, b.polynomial_size as nat, b.decomp_level_count as nat));
            assert(glwe_wf(b.ggsw_list@[i]@[r]@, b.glwe_dimension as nat, b.polynomial_size as nat));
            assert(sk.bootstrapping_key.ggsw_list@[i]@[r]@[c]@ == b.ggsw_list@[i]@[r]@[c]@);
        }
        lemma_same_key_same_behaviour(back, sk);
    }
}

proof fn lemma_same_key_from_words(sk: &ServerKey, blobs: SerializableServerKey, back: &ServerKey)
    requires
        sk.wf(),
        back.wf(),
        is_word_encoding(blobs.bootstrapping_key@, bootstrap_key_words(&sk.bootstrapping_key)),
        is_word_encoding(blobs.key_switching_key@, keyswitch_key_words(&sk.key_switching_key)),
        decoded_words(blobs.bootstrapping_key@) == bootstrap_key_words(&back.bootstrapping_key),
        decoded_words(blobs.key_switching_key@) == keyswitch_key_words(&back.key_switching_key),
    ensures
        same_server_key(sk, back),
{
    let wb = bootstrap_key_words(&sk.bootstrapping_key);
    let wk = keyswitch_key_words(&sk.key_switching_key);
    let db = decoded_words(blobs.bootstrapping_key@);
    let dk = decoded_words(blobs.key_switching_key@);
    assert forall|i: int| 0 <= i < db.len() implies #[trigger] db[i] == le_word(
        blobs.bootstrapping_key@,
        8 + 8 * i,
    ) by {}
    assert forall|i: int| 0 <= i < dk.len() implies #[trigger] dk[i] == le_word(
        blobs.key_switching_key@,
        8 + 8 * i,
    ) by {}
    lemma_word_encoding_round_trip(blobs.bootstrapping_key@, wb, db);
    lemma_word_encoding_round_trip(blobs.key_switching_key@, wk, dk);
    lemma_bootstrap_key_words_injective(&sk.bootstrapping_key, &back.bootstrapping_key);
    lemma_keyswitch_key_words_injective(&sk.key_switching_key, &back.key_switching_key);
}

impl ServerKey {
    /// The large LWE dimension is at most `16 * 2^20`.
    proof fn lemma_dimension_bounds(&self)
        requires
            self.wf(),
        ensures
            self.key_switching_key.input_lwe_dimension <= 0x100_0000,
            self.key_switching_key.output_lwe_size <= 0x10_0001,
    {
        let b = self.bootstrapping_key;
        vstd::arithmetic::power2::lemma2_to64();
        if b.log_polynomial_size < 20 {
            vstd::arithmetic::power2::lemma_pow2_strictly_increases(b.log_polynomial_size as nat, 20);
        }
        assert(b.glwe_dimension * b.polynomial_size <= 16 * 0x10_0000) by (nonlinear_arith)
            requires
                b.glwe_dimension <= 16,
                b.polynomial_size <= 0x10_0000,
        ;
    }

    /// Encodes the two sub-keys, each on its own, as the words of
    /// [`bootstrap_key_words`] and [`keyswitch_key_words`].
    pub fn serialize(&self) -> (r: SerializableServerKey)
        requires
            self.wf(),
        ensures
            is_word_encoding(r.bootstrapping_key@, bootstrap_key_words(&self.bootstrapping_key)),
            is_word_encoding(r.key_switching_key@, keyswitch_key_words(&self.key_switching_key)),
    {
        let bsk_words = bootstrap_key_to_words(&self.bootstrapping_key);
        let ksk_words = keyswitch_key_to_words(&self.key_switching_key);
        let key_switching_key = encode_words(&ksk_words);
        let bootstrapping_key = encode_words(&bsk_words);
        SerializableServerKey { bootstrapping_key, key_switching_key }
    }

    /// Decodes the two sub-keys. Fails with `Truncated` exactly when a blob ends before the
    /// words it announces, and otherwise with `InvalidShape` when a sub-key is not well
    /// formed or the two do not fit together. A key it returns has exactly the words that
    /// the blobs hold.
    pub fn deserialize(thing: &SerializableServerKey) -> (r: Result<ServerKey, KeyDecodingError>)
        ensures
            r is Ok ==> r->Ok_0.wf(),
            r is Ok ==> decoded_words(thing.bootstrapping_key@) == bootstrap_key_words(
                &r->Ok_0.bootstrapping_key,
            ),
            r is Ok ==> decoded_words(thing.key_switching_key@) == keyswitch_key_words(
                &r->Ok_0.key_switching_key,
            ),
            !holds_word_encoding(thing.bootstrapping_key@) || !holds_word_encoding(
                thing.key_switching_key@,
            ) <==> r == Err::<ServerKey, _>(KeyDecodingError::Truncated),
            encodes_server_key(*thing) ==> r is Ok,
    {
        let ghost model: Option<ServerKey> = if encodes_server_key(*thing) {
            Some(
                choose|k0: ServerKey|
                    #[trigger] k0.wf() && is_word_encoding(
                        thing.bootstrapping_key@,
                        bootstrap_key_words(&k0.bootstrapping_key),
                    ) && is_word_encoding(
                        thing.key_switching_key@,
                        keyswitch_key_words(&k0.key_switching_key),
                    ),
            )
        } else {
            None
        };
        let ksk_words = match decode_words(thing.key_switching_key.as_slice()) {
            Ok(w) => w,
            Err(_) => {
                return Err(KeyDecodingError::Truncated);
            },
        };
        let bsk_words = match decode_words(thing.bootstrapping_key.as_slice()) {
            Ok(w) => w,
            Err(_) => {
                return Err(KeyDecodingError::Truncated);
            },
        };
        assert(ksk_words@ =~= decoded_words(thing.key_switching_key@));
        assert(bsk_words@ =~= decoded_words(thing.bootstrapping_key@));
        let ghost bsk_model: Option<LweBootstrapKey> = None;
        let ghost ksk_model: Option<LweKeyswitchKey> = None;
        proof {
            if model is Some {
                let k0 = model->Some_0;
                lemma_word_encoding_round_trip(
                    thing.bootstrapping_key@,
                    bootstrap_key_words(&k0.bootstrapping_key),
                    bsk_words@,
                );
                lemma_word_encoding_round_trip(
                    thing.key_switching_key@,
                    keyswitch_key_words(&k0.key_switching_key),
                    ksk_words@,
                );
                k0.lemma_dimension_bounds();
                bsk_model = Some(k0.bootstrapping_key);
                ksk_model = Some(k0.key_switching_key);
            }
        }
        let key_switching_key = keyswitch_key_from_words(&ksk_words, Ghost(ksk_model))?;
        let bootstrapping_key = bootstrap_key_from_words(&bsk_words, Ghost(bsk_model))?;
        proof {
            if model is Some {
                let k0 = model->Some_0;
                lemma_bootstrap_key_words_injective(&k0.bootstrapping_key, &bootstrapping_key);
                lemma_keyswitch_key_words_injective(&k0.key_switching_key, &key_switching_key);
            }
        }
        let big = bootstrapping_key.output_lwe_dimension();
        if key_switching_key.input_lwe_dimension != big
            || key_switching_key.output_lwe_size != bootstrapping_key.input_lwe_dimension + 1 {
            return Err(KeyDecodingError::InvalidShape);
        }
        Ok(ServerKey { bootstrapping_key, key_switching_key })
    }
}

} // verus!
