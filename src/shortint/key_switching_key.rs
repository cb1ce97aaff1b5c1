//! Casting ciphertexts from one parameter set to another.
use vstd::prelude::*;
use crate::core_crypto::keyswitch::{
    LweKeyswitchKey, allocate_and_generate_new_lwe_keyswitch_key, decomposition_wf,
    keyswitch_lwe_ciphertext, keyswitch_spec,
};
use crate::shortint::ciphertext::{Ciphertext, NoiseLevel};
use crate::shortint::client_key::ClientKey;
use crate::shortint::engine::{EngineError, EngineResult, ShortintEngine};
use crate::shortint::parameters::plaintext_space;
use crate::shortint::server_key::{ServerKey, lookup_table_spec, refresh_spec, table_values};
use crate::core_crypto::glwe::glwe_view;

verus! {

/// The decomposition of a keyswitching key between two parameter sets.
#[derive(Debug, Clone, Copy, PartialEq, Eq, Structural)]
pub struct ShortintKeySwitchingParameters {
    pub ks_base_log: u32,
    pub ks_level: u32,
}

impl ShortintKeySwitchingParameters {
    pub fn new(ks_base_log: u32, ks_level: u32) -> (r: Self)
        ensures
            r.ks_base_log == ks_base_log,
            r.ks_level == ks_level,
    {
        ShortintKeySwitchingParameters { ks_base_log, ks_level }
    }
}

/// The number of bits `log2(message_modulus * carry_modulus)` of a plaintext space that is
/// a power of two.
pub open spec fn bits_of(space: int) -> int
    decreases space,
{
    if space <= 1 {
        0
    } else {
        1 + bits_of(space / 2)
    }
}

/// `floor(log2(v))` for `1 <= v <= 2^19`.
pub fn ilog2(v: usize) -> (r: u32)
    requires
        1 <= v <= 0x8_0000,
    ensures
        r == bits_of(v as int),
        r <= 19,
{
    proof {
        lemma_bits_small(v as int);
    }
    let mut x = v;
    let mut r: u32 = 0;
    while x > 1
        invariant
            x >= 1,
            x <= 0x8_0000,
            r + bits_of(x as int) == bits_of(v as int),
            bits_of(v as int) <= 19,
            bits_of(x as int) >= 0,
        decreases x,
    {
        proof {
            lemma_bits_small((x / 2) as int);
        }
        x = x / 2;
        r = r + 1;
    }
    r
}

/// The table of `x -> x >> shift` on `[0, space)`.
pub open spec fn shift_right_values(space: int, shift: u32) -> Seq<u64> {
    Seq::new(space as nat, |i: int| (i as u64) >> shift)
}

/// The table of `x -> x << shift` on `[0, space)`, in 64-bit words.
pub open spec fn shift_left_values(space: int, shift: u32) -> Seq<u64> {
    Seq::new(space as nat, |i: int| (i as u64) << shift)
}

/// A keyswitching key from the encryption key of one client key to that of another, with
/// the two server keys and the shift between the two plaintext spaces.
pub struct KeySwitchingKey {
    pub key_switching_key: LweKeyswitchKey,
    pub src_server_key: ServerKey,
    pub dest_server_key: ServerKey,
    pub cast_rshift: i8,
}

impl KeySwitchingKey {
    pub open spec fn wf(&self) -> bool {
        &&& self.key_switching_key.wf()
        &&& self.src_server_key.wf()
        &&& self.dest_server_key.wf()
        &&& self.key_switching_key.input_lwe_dimension + 1
            == self.src_server_key.ciphertext_lwe_size()
        &&& self.key_switching_key.output_lwe_size == self.dest_server_key.ciphertext_lwe_size()
        &&& -20 <= self.cast_rshift <= 20
    }

    pub fn cast_rshift(&self) -> (r: i8)
        ensures
            r == self.cast_rshift,
    {
        self.cast_rshift
    }
}

impl ShortintEngine {
    /// Builds the key that casts ciphertexts of `key_pair_1` to `key_pair_2`. The shift is
    /// the number of plaintext bits of the second minus that of the first.
    pub fn new_key_switching_key(
        &mut self,
        key_pair_1: (&ClientKey, ServerKey),
        key_pair_2: (&ClientKey, ServerKey),
        params: ShortintKeySwitchingParameters,
    ) -> (r: EngineResult<KeySwitchingKey>)
        requires
            key_pair_1.0.wf(),
            key_pair_2.0.wf(),
            key_pair_1.1.wf(),
            key_pair_2.1.wf(),
            key_pair_1.1.ciphertext_lwe_size() == key_pair_1.0.encryption_key_spec().len() + 1,
            key_pair_2.1.ciphertext_lwe_size() == key_pair_2.0.encryption_key_spec().len() + 1,
            decomposition_wf(params.ks_base_log, params.ks_level),
        ensures
            r is Ok ==> r->Ok_0.wf(),
            r is Ok ==> r->Ok_0.cast_rshift == bits_of(
                plaintext_space(
                    key_pair_2.0.parameters.message_modulus,
                    key_pair_2.0.parameters.carry_modulus,
                ),
            ) - bits_of(
                plaintext_space(
                    key_pair_1.0.parameters.message_modulus,
                    key_pair_1.0.parameters.carry_modulus,
                ),
            ),
    {
        let (ck1, sk1) = key_pair_1;
        let (ck2, sk2) = key_pair_2;
        proof {
            ck1.lemma_encryption_key_len();
            ck2.lemma_encryption_key_len();
        }
        let input_key = ck1.encryption_key();
        let output_key = ck2.encryption_key();
        let ksk = match allocate_and_generate_new_lwe_keyswitch_key(
            &input_key,
            &output_key,
            params.ks_base_log,
            params.ks_level,
            ck2.noise_bound_log(),
            ck2.parameters.ciphertext_modulus,
            &mut self.encryption_generator,
        ) {
            Ok(k) => k,
            Err(_) => {
                return Err(EngineError::GeneratorExhausted);
            },
        };
        proof {
            ck1.lemma_moduli_bounds();
            ck2.lemma_moduli_bounds();
            lemma_bits_small(
                plaintext_space(ck1.parameters.message_modulus, ck1.parameters.carry_modulus),
            );
            lemma_bits_small(
                plaintext_space(ck2.parameters.message_modulus, ck2.parameters.carry_modulus),
            );
        }
        let nb_bits_1 = ilog2(ck1.parameters.message_modulus.0 * ck1.parameters.carry_modulus.0);
        let nb_bits_2 = ilog2(ck2.parameters.message_modulus.0 * ck2.parameters.carry_modulus.0);
        let cast_rshift = nb_bits_2 as i8 - nb_bits_1 as i8;
        Ok(
            KeySwitchingKey {
                key_switching_key: ksk,
                src_server_key: sk1,
                dest_server_key: sk2,
                cast_rshift,
            },
        )
    }
}

proof fn lemma_bits_small(x: int)
    requires
        1 <= x <= 0x8_0000,
    ensures
        0 <= bits_of(x) <= 19,
        x < 0x8_0000 ==> bits_of(x) <= 18,
        x < 0x4_0000 ==> bits_of(x) <= 17,
{
    vstd::arithmetic::power2::lemma2_to64();
    lemma_bits_lt(x, 20);
    if x < 0x8_0000 {
        lemma_bits_lt(x, 19);
    }
    if x < 0x4_0000 {
        lemma_bits_lt(x, 18);
    }
}

proof fn lemma_bits_lt(x: int, k: nat)
    requires
        1 <= x < vstd::arithmetic::power2::pow2(k),
    ensures
        0 <= bits_of(x) < k,
    decreases k,
{
    if x > 1 {
        if k == 0 {
            vstd::arithmetic::power2::lemma2_to64();
        } else {
            vstd::arithmetic::power2::lemma_pow2_unfold(k);
            lemma_bits_lt(x / 2, (k - 1) as nat);
        }
    } else if k == 0 {
        vstd::arithmetic::power2::lemma2_to64();
    }
}

impl KeySwitchingKey {
    /// Casts `ct`, a ciphertext of the first parameter set, to the second: with no shift a
    /// keyswitch alone; to a wider space a keyswitch then a right shift by table on the
    /// destination key; to a narrower space a left shift by table on the source key, which
    /// drops the top bits, then a keyswitch.
    pub fn cast(&self, ct: &Ciphertext) -> (r: Ciphertext)
        requires
            self.wf(),
            ct.ct.data@.len() == self.src_server_key.ciphertext_lwe_size(),
        ensures
            r.ct.data@.len() == self.dest_server_key.ciphertext_lwe_size(),
            r.message_modulus == self.dest_server_key.message_modulus,
            r.carry_modulus == self.dest_server_key.carry_modulus,
            r.pbs_order == self.dest_server_key.pbs_order,
            self.cast_rshift != 0 ==> r.noise_level == NoiseLevel::nominal(),
            self.cast_rshift == 0 ==> r.ct.data@ == keyswitch_spec(self.key_switching_key, ct.ct.data@),
            self.cast_rshift > 0 ==> r.ct.data@ == refresh_spec(
                self.dest_server_key,
                keyswitch_spec(self.key_switching_key, ct.ct.data@),
                lookup_table_spec(
                    self.dest_server_key,
                    shift_right_values(self.dest_server_key.space(), self.cast_rshift as u32),
                ),
            ),
            self.cast_rshift < 0 ==> r.ct.data@ == keyswitch_spec(
                self.key_switching_key,
                refresh_spec(
                    self.src_server_key,
                    ct.ct.data@,
                    lookup_table_spec(
                        self.src_server_key,
                        shift_left_values(self.src_server_key.space(), (0 - self.cast_rshift) as u32),
                    ),
                ),
            ),
    {
        if self.cast_rshift == 0 {
            let out = keyswitch_lwe_ciphertext(&self.key_switching_key, &ct.ct);
            Ciphertext {
                ct: out,
                degree: ct.degree,
                noise_level: ct.noise_level,
                message_modulus: self.dest_server_key.message_modulus,
                carry_modulus: self.dest_server_key.carry_modulus,
                pbs_order: self.dest_server_key.pbs_order,
            }
        } else if self.cast_rshift > 0 {
            let shift = self.cast_rshift as u32;
            let out = keyswitch_lwe_ciphertext(&self.key_switching_key, &ct.ct);
            let mut dest = Ciphertext {
                ct: out,
                degree: ct.degree,
                noise_level: ct.noise_level,
                message_modulus: self.dest_server_key.message_modulus,
                carry_modulus: self.dest_server_key.carry_modulus,
                pbs_order: self.dest_server_key.pbs_order,
            };
            let shift_right = (|n: u64| -> (y: u64)
                requires
                    shift < 64,
                ensures
                    y == n >> shift,
                { n >> shift });
            let acc = self.dest_server_key.generate_lookup_table(shift_right);
            proof {
                let sk = self.dest_server_key;
                let values = choose|values: Seq<u64>|
                    #[trigger] table_values(shift_right, sk.space(), values) && glwe_view(acc.acc@)
                        == lookup_table_spec(sk, values);
                let want = shift_right_values(sk.space(), shift);
                assert forall|i: int| 0 <= i < sk.space() implies values[i] == want[i] by {
                    assert(shift_right.ensures((i as u64,), values[i]));
                }
                assert(values =~= want);
            }
            self.dest_server_key.apply_lookup_table_assign(&mut dest, &acc);
            dest
        } else {
            let shift = (0 - self.cast_rshift) as u32;
            let shift_left = (|n: u64| -> (y: u64)
                requires
                    shift < 64,
                ensures
                    y == n << shift,
                { n << shift });
            let acc = self.src_server_key.generate_lookup_table(shift_left);
            proof {
                let sk = self.src_server_key;
                let values = choose|values: Seq<u64>|
                    #[trigger] table_values(shift_left, sk.space(), values) && glwe_view(acc.acc@)
                        == lookup_table_spec(sk, values);
                let want = shift_left_values(sk.space(), shift);
                assert forall|i: int| 0 <= i < sk.space() implies values[i] == want[i] by {
                    assert(shift_left.ensures((i as u64,), values[i]));
                }
                assert(values =~= want);
            }
            let shifted = self.src_server_key.apply_lookup_table(ct, &acc);
            let out = keyswitch_lwe_ciphertext(&self.key_switching_key, &shifted.ct);
            Ciphertext {
                ct: out,
                degree: shifted.degree,
                noise_level: shifted.noise_level,
                message_modulus: self.dest_server_key.message_modulus,
                carry_modulus: self.dest_server_key.carry_modulus,
                pbs_order: self.dest_server_key.pbs_order,
            }
        }
    }
}

} // verus!
