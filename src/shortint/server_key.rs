//! The public evaluation key of the small-integer scheme and the operations built on it.
use vstd::prelude::*;
use crate::core_crypto::bootstrap::{
    LweBootstrapKey, pbs_spec, programmable_bootstrap_lwe_ciphertext, trivial_accumulator,
};
use crate::core_crypto::glwe::{glwe_view, glwe_wf, monomial_coef, poly_monomial_mul, trivial_glwe_spec};
use crate::core_crypto::keyswitch::{LweKeyswitchKey, keyswitch_lwe_ciphertext, keyswitch_spec};
use crate::core_crypto::lwe::{CiphertextModulus, LweCiphertext, mul_mod, wrap};
use crate::shortint::ciphertext::{CarryModulus, Ciphertext, Degree, MessageModulus, NoiseLevel, PBSOrder};
use crate::shortint::parameters::{compute_delta, delta_of, moduli_fit, plaintext_space};

verus! {

/// The keys that evaluate operations on ciphertexts, with the moduli they were made for.
pub struct ServerKey {
    pub key_switching_key: LweKeyswitchKey,
    pub bootstrapping_key: LweBootstrapKey,
    pub message_modulus: MessageModulus,
    pub carry_modulus: CarryModulus,
    pub max_degree: Degree,
    pub max_noise_level: usize,
    pub ciphertext_modulus: CiphertextModulus,
    pub pbs_order: PBSOrder,
}

/// A function table for a bootstrap: the accumulator and the largest value it holds.
pub struct LookupTable {
    pub acc: Vec<Vec<u64>>,
    pub degree: Degree,
}

/// Among the outputs that `f` may give on `v`, one is at most `bound`.
pub open spec fn lut_output_at_most<F: Fn(u64) -> u64>(f: F, v: u64, bound: u64) -> bool {
    exists|y: u64| #[trigger] f.ensures((v,), y) && y <= bound
}

/// `values[i]` is an output of `f` on `i`, for every `i` of the plaintext space.
pub open spec fn table_values<F: Fn(u64) -> u64>(f: F, space: int, values: Seq<u64>) -> bool {
    &&& values.len() == space
    &&& forall|i: int| 0 <= i < space ==> #[trigger] f.ensures((i as u64,), values[i])
}

/// The body of a table before its half-box rotation: value `i` times `delta` in the `i`-th
/// box of `box_size` coefficients, zeros after the last box.
pub open spec fn lut_body(values: Seq<u64>, delta: int, n: int, box_size: int) -> Seq<u64> {
    Seq::new(
        n as nat,
        |t: int|
            if t < values.len() * box_size {
                wrap(values[t / box_size] * delta) as u64
            } else {
                0u64
            },
    )
}

/// The accumulator of the table of `values` for `sk`: the body rotated back by half a box,
/// with zero masks.
pub open spec fn lookup_table_spec(sk: ServerKey, values: Seq<u64>) -> Seq<Seq<u64>> {
    let n = sk.bootstrapping_key.polynomial_size as int;
    let box_size = n / sk.space();
    let body = lut_body(values, delta_of(sk.message_modulus, sk.carry_modulus), n, box_size);
    trivial_glwe_spec(
        Seq::new(n as nat, |t: int| monomial_coef(body, n, 2 * n - box_size / 2, t)),
        sk.bootstrapping_key.glwe_dimension as nat,
    )
}

/// The refresh of the sample `x` through the accumulator `acc`, in the key's order:
/// keyswitch then bootstrap, or bootstrap then keyswitch.
pub open spec fn refresh_spec(sk: ServerKey, x: Seq<u64>, acc: Seq<Seq<u64>>) -> Seq<u64> {
    if sk.pbs_order == PBSOrder::KeyswitchBootstrap {
        pbs_spec(keyswitch_spec(sk.key_switching_key, x), acc, sk.bootstrapping_key)
    } else {
        keyswitch_spec(sk.key_switching_key, pbs_spec(x, acc, sk.bootstrapping_key))
    }
}

/// `left * factor + right`, coefficient-wise modulo `2^64`: two plaintexts packed in one.
pub open spec fn packed_spec(left: Seq<u64>, right: Seq<u64>, factor: int) -> Seq<u64> {
    Seq::new(left.len(), |j: int| wrap(wrap(left[j] * factor) + right[j]) as u64)
}

/// The table of `x -> ((x / factor) * (x % factor)) mod modulus` on `[0, space)`: the low
/// part of the product of two packed plaintexts.
pub open spec fn product_lsb_values(space: int, factor: int, modulus: int) -> Seq<u64> {
    Seq::new(space as nat, |i: int| (((i / factor) * (i % factor)) % modulus) as u64)
}

/// `m` is the largest output of `f` on `[0, space)`.
pub open spec fn is_table_max<F: Fn(u64) -> u64>(f: F, space: int, m: u64) -> bool {
    &&& forall|v: u64| v < space ==> #[trigger] lut_output_at_most(f, v, m)
    &&& (m == 0 || exists|v: u64| v < space && #[trigger] f.ensures((v,), m))
}

impl ServerKey {
    /// The number of coefficients of the ciphertexts this key works on: samples under the
    /// large key for the keyswitch-first order, under the small key otherwise.
    pub open spec fn ciphertext_lwe_size(&self) -> int {
        if self.pbs_order == PBSOrder::KeyswitchBootstrap {
            self.bootstrapping_key.output_lwe_size_spec()
        } else {
            self.bootstrapping_key.input_lwe_dimension + 1
        }
    }

    pub open spec fn space(&self) -> int {
        plaintext_space(self.message_modulus, self.carry_modulus)
    }

    pub open spec fn wf(&self) -> bool {
        &&& self.bootstrapping_key.wf()
        &&& self.key_switching_key.wf()
        &&& self.key_switching_key.input_lwe_dimension
            == self.bootstrapping_key.glwe_dimension * self.bootstrapping_key.polynomial_size
        &&& self.key_switching_key.output_lwe_size == self.bootstrapping_key.input_lwe_dimension
            + 1
        &&& 1 <= self.bootstrapping_key.input_lwe_dimension <= 0x10_0000
        &&& moduli_fit(
            self.message_modulus,
            self.carry_modulus,
            self.bootstrapping_key.polynomial_size as int,
        )
        &&& self.max_degree.0 == self.space() - 1
    }

    /// Whether adding `scalar` keeps the degree within `max_degree`.
    pub open spec fn scalar_add_possible_spec(&self, ct: &Ciphertext, scalar: u8) -> bool {
        ct.degree.0 + scalar <= self.max_degree.0
    }

    /// Whether `ct + scalar` can be computed without a refresh: the degree stays within
    /// `max_degree` (the noise does not grow).
    pub fn is_scalar_add_possible(&self, ct: &Ciphertext, scalar: u8) -> (r: bool)
        ensures
            r == self.scalar_add_possible_spec(ct, scalar),
    {
        if ct.degree.0 > self.max_degree.0 {
            false
        } else {
            scalar as usize <= self.max_degree.0 - ct.degree.0
        }
    }

    /// Whether adding two ciphertexts keeps the degree and the noise within bounds.
    pub fn is_add_possible(&self, ct_left: &Ciphertext, ct_right: &Ciphertext) -> (r: bool)
        ensures
            r == (ct_left.degree.0 + ct_right.degree.0 <= self.max_degree.0
                && ct_left.noise_level.0 + ct_right.noise_level.0 <= self.max_noise_level),
    {
        if ct_left.degree.0 > self.max_degree.0 || ct_left.noise_level.0 > self.max_noise_level {
            false
        } else {
            ct_right.degree.0 <= self.max_degree.0 - ct_left.degree.0 && ct_right.noise_level.0
                <= self.max_noise_level - ct_left.noise_level.0
        }
    }

    /// The table of `f` on the plaintext space: value `i` fills the `i`-th box of the body
    /// with `f(i) * delta`, and the body is rotated back by half a box so that a phase
    /// anywhere within a box selects it.
    pub fn generate_lookup_table<F: Fn(u64) -> u64>(&self, f: F) -> (r: LookupTable)
        requires
            self.wf(),
            forall|v: u64| v < self.space() ==> #[trigger] f.requires((v,)),
        ensures
            glwe_wf(
                r.acc@,
                self.bootstrapping_key.glwe_dimension as nat,
                self.bootstrapping_key.polynomial_size as nat,
            ),
            exists|m: u64| #[trigger] is_table_max(f, self.space(), m) && r.degree.0 == m as usize,
            exists|values: Seq<u64>|
                #[trigger] table_values(f, self.space(), values) && glwe_view(r.acc@)
                    == lookup_table_spec(*self, values),
    {
        let bsk = &self.bootstrapping_key;
        let n = bsk.polynomial_size;
        proof {
            vstd::arithmetic::power2::lemma2_to64();
            if bsk.log_polynomial_size < 20 {
                vstd::arithmetic::power2::lemma_pow2_strictly_increases(
                    bsk.log_polynomial_size as nat,
                    20,
                );
            }
            assert(self.space() >= 1 && self.message_modulus.0 <= self.space()
                && self.carry_modulus.0 <= self.space()) by (nonlinear_arith)
                requires
                    self.message_modulus.0 >= 1,
                    self.carry_modulus.0 >= 1,
                    self.space() == self.message_modulus.0 * self.carry_modulus.0,
            ;
        }
        let space = self.message_modulus.0 * self.carry_modulus.0;
        let delta = compute_delta(self.message_modulus, self.carry_modulus);
        let box_size = n / space;
        proof {
            assert(box_size >= 2 && space * box_size <= n) by (nonlinear_arith)
                requires
                    box_size == n / space,
                    space >= 1,
                    2 * space <= n,
            ;
        }
        let mut body: Vec<u64> = Vec::new();
        let mut max: u64 = 0;
        let ghost mut values: Seq<u64> = Seq::empty();
        let mut i: usize = 0;
        while i < space
            invariant
                space == self.space(),
                1 <= space,
                box_size >= 2,
                space * box_size <= n,
                i <= space,
                body@.len() == i * box_size,
                values.len() == i,
                forall|j: int| 0 <= j < i ==> #[trigger] f.ensures((j as u64,), values[j]),
                forall|t: int|
                    0 <= t < body@.len() ==> #[trigger] body@[t] == wrap(
                        values[t / (box_size as int)] * delta,
                    ) as u64,
                forall|v: u64| v < self.space() ==> #[trigger] f.requires((v,)),
                forall|v: u64| v < i ==> #[trigger] lut_output_at_most(f, v, max),
                max == 0 || exists|v: u64| v < i && #[trigger] f.ensures((v,), max),
            decreases space - i,
        {
            let fi = f(i as u64);
            let ghost old_max = max;
            if fi > max {
                max = fi;
            }
            proof {
                assert forall|v: u64| v <= i implies #[trigger] lut_output_at_most(f, v, max) by {
                    if v < i {
                        assert(lut_output_at_most(f, v, old_max));
                        let y = choose|y: u64| #[trigger] f.ensures((v,), y) && y <= old_max;
                        assert(f.ensures((v,), y) && y <= max);
                    } else {
                        assert(f.ensures((v,), fi) && fi <= max);
                    }
                }
            }
            let value = mul_mod(fi, delta);
            let ghost old_values = values;
            proof {
                values = values.push(fi);
                assert forall|t: int| 0 <= t < body@.len() implies #[trigger] body@[t] == wrap(
                    values[t / (box_size as int)] * delta,
                ) as u64 by {
                    vstd::arithmetic::div_mod::lemma_fundamental_div_mod(t, box_size as int);
                    vstd::arithmetic::div_mod::lemma_mod_bound(t, box_size as int);
                    let q = t / (box_size as int);
                    assert(q < i) by (nonlinear_arith)
                        requires
                            t == box_size * q + t % (box_size as int),
                            0 <= t % (box_size as int),
                            t < i * box_size,
                            box_size >= 2,
                    ;
                    assert(q >= 0) by (nonlinear_arith)
                        requires
                            t == box_size * q + t % (box_size as int),
                            t % (box_size as int) < box_size,
                            t >= 0,
                            box_size >= 2,
                    ;
                    assert(values[q] == old_values[q]);
                }
            }
            let mut j: usize = 0;
            proof {
                assert((i + 1) * box_size <= space * box_size) by (nonlinear_arith)
                    requires
                        i < space,
                ;
                assert((i + 1) * box_size == i * box_size + box_size) by (nonlinear_arith);
            }
            while j < box_size
                invariant
                    j <= box_size,
                    box_size >= 2,
                    body@.len() == i * box_size + j,
                    (i + 1) * box_size <= n,
                    (i + 1) * box_size == i * box_size + box_size,
                    values.len() == i + 1,
                    values[i as int] == fi,
                    value == wrap(fi * delta),
                    forall|t: int|
                        0 <= t < body@.len() ==> #[trigger] body@[t] == wrap(
                            values[t / (box_size as int)] * delta,
                        ) as u64,
                decreases box_size - j,
            {
                proof {
                    let t = i * box_size + j;
                    vstd::arithmetic::div_mod::lemma_fundamental_div_mod_converse(
                        t as int,
                        box_size as int,
                        i as int,
                        j as int,
                    );
                }
                body.push(value);
                j = j + 1;
            }
            i = i + 1;
        }
        while body.len() < n
            invariant
                body@.len() <= n,
                space * box_size <= body@.len(),
                values.len() == space,
                forall|t: int|
                    0 <= t < body@.len() ==> #[trigger] body@[t] == if t < space * box_size {
                        wrap(values[t / (box_size as int)] * delta) as u64
                    } else {
                        0u64
                    },
            decreases n - body@.len(),
        {
            body.push(0);
        }
        assert(body@ =~= lut_body(values, delta as int, n as int, box_size as int));
        let half_box = box_size / 2;
        let rotated = poly_monomial_mul(&body, 2 * n - half_box);
        let acc = trivial_accumulator(rotated, bsk);
        assert(is_table_max(f, self.space(), max));
        assert(rotated@ =~= Seq::new(
            n as nat,
            |t: int|
                monomial_coef(
                    lut_body(values, delta as int, n as int, box_size as int),
                    n as int,
                    2 * n - box_size / 2,
                    t,
                ),
        ));
        assert(table_values(f, self.space(), values));
        LookupTable { acc, degree: Degree(#[verifier::truncate] (max as usize)) }
    }

    /// Refreshes `ct` through the table `acc`: the plaintext becomes the table's value on
    /// the old one, the degree the table's degree and the noise nominal.
    pub fn apply_lookup_table_assign(&self, ct: &mut Ciphertext, acc: &LookupTable)
        requires
            self.wf(),
            old(ct).ct.data@.len() == self.ciphertext_lwe_size(),
            glwe_wf(
                acc.acc@,
                self.bootstrapping_key.glwe_dimension as nat,
                self.bootstrapping_key.polynomial_size as nat,
            ),
        ensures
            final(ct).ct.data@ == refresh_spec(*self, old(ct).ct.data@, glwe_view(acc.acc@)),
            final(ct).ct.data@.len() == old(ct).ct.data@.len(),
            final(ct).ct.ciphertext_modulus == old(ct).ct.ciphertext_modulus,
            final(ct).degree == acc.degree,
            final(ct).noise_level == NoiseLevel::nominal(),
            final(ct).message_modulus == old(ct).message_modulus,
            final(ct).carry_modulus == old(ct).carry_modulus,
            final(ct).pbs_order == old(ct).pbs_order,
    {
        if self.pbs_order == PBSOrder::KeyswitchBootstrap {
            let small = keyswitch_lwe_ciphertext(&self.key_switching_key, &ct.ct);
            let big = programmable_bootstrap_lwe_ciphertext(
                &small,
                &acc.acc,
                &self.bootstrapping_key,
            );
            ct.ct = big;
        } else {
            let big = programmable_bootstrap_lwe_ciphertext(&ct.ct, &acc.acc, &self.bootstrapping_key);
            let small = keyswitch_lwe_ciphertext(&self.key_switching_key, &big);
            ct.ct = small;
        }
        ct.degree = acc.degree;
        ct.noise_level = NoiseLevel::nominal();
    }

    /// The refresh of a copy of `ct` through `acc`.
    pub fn apply_lookup_table(&self, ct: &Ciphertext, acc: &LookupTable) -> (r: Ciphertext)
        requires
            self.wf(),
            ct.ct.data@.len() == self.ciphertext_lwe_size(),
            glwe_wf(
                acc.acc@,
                self.bootstrapping_key.glwe_dimension as nat,
                self.bootstrapping_key.polynomial_size as nat,
            ),
        ensures
            r.ct.data@ == refresh_spec(*self, ct.ct.data@, glwe_view(acc.acc@)),
            r.ct.data@.len() == ct.ct.data@.len(),
            r.ct.ciphertext_modulus == ct.ct.ciphertext_modulus,
            r.degree == acc.degree,
            r.noise_level == NoiseLevel::nominal(),
            r.message_modulus == ct.message_modulus,
            r.carry_modulus == ct.carry_modulus,
            r.pbs_order == ct.pbs_order,
    {
        let mut r = ct.clone();
        self.apply_lookup_table_assign(&mut r, acc);
        r
    }
}

impl ServerKey {
    /// `ct_left + ct_right` without checks: coefficients and degrees add up, and so do the
    /// noise levels.
    pub fn unchecked_add(&self, ct_left: &Ciphertext, ct_right: &Ciphertext) -> (r: Ciphertext)
        requires
            ct_left.ct.data@.len() == ct_right.ct.data@.len(),
            ct_left.degree.0 + ct_right.degree.0 <= usize::MAX,
            ct_left.noise_level.0 + ct_right.noise_level.0 <= usize::MAX,
        ensures
            r.ct.data@.len() == ct_left.ct.data@.len(),
            forall|i: int|
                0 <= i < r.ct.data@.len() ==> r.ct.data@[i] == wrap(
                    ct_left.ct.data@[i] + ct_right.ct.data@[i],
                ),
            r.degree.0 == ct_left.degree.0 + ct_right.degree.0,
            r.noise_level.0 == ct_left.noise_level.0 + ct_right.noise_level.0,
            r.message_modulus == ct_left.message_modulus,
            r.carry_modulus == ct_left.carry_modulus,
            r.pbs_order == ct_left.pbs_order,
            r.ct.ciphertext_modulus == ct_left.ct.ciphertext_modulus,
    {
        let mut r = ct_left.clone();
        self.unchecked_add_assign(&mut r, ct_right);
        r
    }

    /// In-place form of [`ServerKey::unchecked_add`].
    pub fn unchecked_add_assign(&self, ct_left: &mut Ciphertext, ct_right: &Ciphertext)
        requires
            old(ct_left).ct.data@.len() == ct_right.ct.data@.len(),
            old(ct_left).degree.0 + ct_right.degree.0 <= usize::MAX,
            old(ct_left).noise_level.0 + ct_right.noise_level.0 <= usize::MAX,
        ensures
            final(ct_left).ct.data@.len() == old(ct_left).ct.data@.len(),
            forall|i: int|
                0 <= i < final(ct_left).ct.data@.len() ==> final(ct_left).ct.data@[i] == wrap(
                    old(ct_left).ct.data@[i] + ct_right.ct.data@[i],
                ),
            final(ct_left).degree.0 == old(ct_left).degree.0 + ct_right.degree.0,
            final(ct_left).noise_level.0 == old(ct_left).noise_level.0 + ct_right.noise_level.0,
            final(ct_left).message_modulus == old(ct_left).message_modulus,
            final(ct_left).carry_modulus == old(ct_left).carry_modulus,
            final(ct_left).pbs_order == old(ct_left).pbs_order,
            final(ct_left).ct.ciphertext_modulus == old(ct_left).ct.ciphertext_modulus,
    {
        ct_left.ct.add_assign(&ct_right.ct);
        ct_left.degree = Degree(ct_left.degree.0 + ct_right.degree.0);
        ct_left.noise_level = ct_left.noise_level + ct_right.noise_level;
    }

    /// `ct * scalar` without checks: coefficients, degree and noise level are multiplied by
    /// `scalar`.
    pub fn unchecked_scalar_mul(&self, ct: &Ciphertext, scalar: u8) -> (r: Ciphertext)
        requires
            ct.degree.0 * scalar <= usize::MAX,
            ct.noise_level.0 * scalar <= usize::MAX,
        ensures
            r.ct.data@.len() == ct.ct.data@.len(),
            forall|i: int|
                0 <= i < r.ct.data@.len() ==> r.ct.data@[i] == wrap(ct.ct.data@[i] * scalar),
            r.degree.0 == ct.degree.0 * scalar,
            r.noise_level.0 == ct.noise_level.0 * scalar,
            r.message_modulus == ct.message_modulus,
            r.carry_modulus == ct.carry_modulus,
            r.pbs_order == ct.pbs_order,
            r.ct.ciphertext_modulus == ct.ct.ciphertext_modulus,
    {
        let mut r = ct.clone();
        r.ct.cleartext_mul_assign(scalar as u64);
        r.degree = Degree(r.degree.0 * scalar as usize);
        r.noise_level = r.noise_level * (scalar as usize);
        r
    }

    /// The trivial (noiseless, unmasked) encryption of `value` reduced modulo the message
    /// modulus; its noise level is zero.
    pub fn create_trivial(&self, value: u64) -> (r: Ciphertext)
        requires
            self.wf(),
        ensures
            r.ct.data@.len() == self.ciphertext_lwe_size(),
            forall|i: int| 0 <= i < r.ct.data@.len() - 1 ==> r.ct.data@[i] == 0,
            r.ct.data@.last() == wrap(
                (value as int % (self.message_modulus.0 as int)) * delta_of(
                    self.message_modulus,
                    self.carry_modulus,
                ),
            ),
            r.degree.0 == value as int % (self.message_modulus.0 as int),
            r.noise_level == NoiseLevel::zero(),
            r.message_modulus == self.message_modulus,
            r.carry_modulus == self.carry_modulus,
            r.pbs_order == self.pbs_order,
            r.ct.ciphertext_modulus == self.ciphertext_modulus,
    {
        proof {
            self.lemma_moduli_bounds();
        }
        let m = value % (self.message_modulus.0 as u64);
        let delta = compute_delta(self.message_modulus, self.carry_modulus);
        let size = self.ciphertext_lwe_size_exec();
        let ct = LweCiphertext::new_trivial(mul_mod(m, delta), size, self.ciphertext_modulus);
        Ciphertext {
            ct,
            degree: Degree(m as usize),
            noise_level: NoiseLevel::zero(),
            message_modulus: self.message_modulus,
            carry_modulus: self.carry_modulus,
            pbs_order: self.pbs_order,
        }
    }

    /// The number of coefficients of the ciphertexts this key works on.
    pub fn ciphertext_lwe_size_exec(&self) -> (r: usize)
        requires
            self.wf(),
        ensures
            r == self.ciphertext_lwe_size(),
            r >= 1,
    {
        if self.pbs_order == PBSOrder::KeyswitchBootstrap {
            self.bootstrapping_key.output_lwe_dimension() + 1
        } else {
            self.bootstrapping_key.input_lwe_dimension + 1
        }
    }
}

impl ServerKey {
    /// The low part `(a * b) mod message_modulus` of the product of the plaintexts. When one
    /// operand has degree zero it encrypts zero, so the result is the trivial zero, with no
    /// noise; otherwise both are packed as `a * (deg(b) + 1) + b` and refreshed through the
    /// table of the product, which leaves the noise nominal.
    pub fn unchecked_mul_lsb(&self, ct_left: &Ciphertext, ct_right: &Ciphertext) -> (r: Ciphertext)
        requires
            self.wf(),
            ct_left.ct.data@.len() == self.ciphertext_lwe_size(),
            ct_right.ct.data@.len() == self.ciphertext_lwe_size(),
            ct_left.degree.0 * (ct_right.degree.0 + 1) + ct_right.degree.0 < self.space(),
        ensures
            r.ct.data@.len() == self.ciphertext_lwe_size(),
            ct_left.degree.0 == 0 || ct_right.degree.0 == 0 ==> r.noise_level
                == NoiseLevel::zero() && r.degree.0 == 0,
            ct_left.degree.0 != 0 && ct_right.degree.0 != 0 ==> r.noise_level
                == NoiseLevel::nominal() && r.degree.0 < self.message_modulus.0,
            ct_left.degree.0 == 0 || ct_right.degree.0 == 0 ==> r.message_modulus
                == self.message_modulus && r.carry_modulus == self.carry_modulus,
            ct_left.degree.0 != 0 && ct_right.degree.0 != 0 ==> r.message_modulus
                == ct_left.message_modulus && r.carry_modulus == ct_left.carry_modulus,
            ct_left.degree.0 != 0 && ct_right.degree.0 != 0 ==> r.ct.data@ == refresh_spec(
                *self,
                packed_spec(ct_left.ct.data@, ct_right.ct.data@, ct_right.degree.0 + 1),
                lookup_table_spec(*self, product_lsb_values(self.space(), ct_right.degree.0 + 1, self.message_modulus.0 as int)),
            ),
    {
        proof {
            self.lemma_moduli_bounds();
        }
        if ct_left.degree.0 == 0 || ct_right.degree.0 == 0 {
            return self.create_trivial(0);
        }
        let factor = ct_right.degree.0 + 1;
        proof {
            assert(ct_left.degree.0 * factor <= self.space()) by (nonlinear_arith)
                requires
                    ct_left.degree.0 * factor + ct_right.degree.0 < self.space(),
            ;
        }
        let packed_left = self.unchecked_scalar_mul_usize(ct_left, factor);
        let mut packed = packed_left;
        packed.ct.add_assign(&ct_right.ct);
        let modulus = self.message_modulus.0 as u64;
        let f = factor as u64;
        let product_lsb = (|x: u64| -> (y: u64)
            requires
                x < 0x10_0000,
                f >= 1,
                modulus >= 1,
            ensures
                y < modulus,
                y == ((x as int / f as int) * (x as int % f as int)) % (modulus as int),
            {
                proof {
                    assert((x / f) * (x % f) < 0x10_0000 * 0x10_0000) by (nonlinear_arith)
                        requires
                            x < 0x10_0000,
                            f >= 1,
                    ;
                }
                ((x / f) * (x % f)) % modulus
            });
        let acc = self.generate_lookup_table(product_lsb);
        proof {
            let m = choose|m: u64| #[trigger] is_table_max(product_lsb, self.space(), m)
                && acc.degree.0 == m as usize;
            if m != 0 {
                let v = choose|v: u64| v < self.space() && #[trigger] product_lsb.ensures((v,), m);
            }
            let values = choose|values: Seq<u64>|
                #[trigger] table_values(product_lsb, self.space(), values) && glwe_view(acc.acc@)
                    == lookup_table_spec(*self, values);
            let want = product_lsb_values(self.space(), factor as int, self.message_modulus.0 as int);
            assert forall|i: int| 0 <= i < self.space() implies values[i] == want[i] by {
                assert(product_lsb.ensures((i as u64,), values[i]));
            }
            assert(values =~= want);
            assert(packed.ct.data@ =~= packed_spec(ct_left.ct.data@, ct_right.ct.data@, factor as int));
        }
        self.apply_lookup_table_assign(&mut packed, &acc);
        packed
    }

    /// `ct * scalar` on the coefficients only, for packing two plaintexts.
    fn unchecked_scalar_mul_usize(&self, ct: &Ciphertext, scalar: usize) -> (r: Ciphertext)
        ensures
            r.ct.data@.len() == ct.ct.data@.len(),
            forall|j: int|
                0 <= j < r.ct.data@.len() ==> r.ct.data@[j] == wrap(ct.ct.data@[j] * (scalar as u64)),
            r.message_modulus == ct.message_modulus,
            r.carry_modulus == ct.carry_modulus,
            r.pbs_order == ct.pbs_order,
    {
        let mut r = ct.clone();
        r.ct.cleartext_mul_assign(scalar as u64);
        r
    }
}

} // verus!
