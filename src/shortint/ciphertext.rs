//! Ciphertexts of small integers together with their degree and noise bookkeeping.
use vstd::prelude::*;
use crate::core_crypto::compact::{LweCompactCiphertextList, SeededLweCiphertext};
use crate::core_crypto::lwe::{CiphertextModulus, LweCiphertext};

verus! {

/// An upper bound on the plaintext value that a ciphertext may encrypt.
#[derive(Debug, PartialEq, Eq, Copy, Clone, Structural)]
pub struct Degree(pub usize);

/// A conservative count of the noise units accumulated since the last refresh.
#[derive(Debug, PartialEq, Eq, Copy, Clone, Structural)]
pub struct NoiseLevel(pub usize);

/// The number of values of the message part of the plaintext space.
#[derive(Debug, PartialEq, Eq, Copy, Clone, Structural)]
pub struct MessageModulus(pub usize);

/// The number of values of the carry part of the plaintext space.
#[derive(Debug, PartialEq, Eq, Copy, Clone, Structural)]
pub struct CarryModulus(pub usize);

/// Which of the two steps of a refresh comes first.
#[derive(Debug, PartialEq, Eq, Copy, Clone, Structural)]
pub enum PBSOrder {
    KeyswitchBootstrap,
    BootstrapKeyswitch,
}

impl NoiseLevel {
    /// The noise of a ciphertext that is not encrypted at all.
    pub open spec fn zero_spec() -> NoiseLevel {
        NoiseLevel(0)
    }

    /// The noise right after an encryption or a bootstrap.
    pub open spec fn nominal_spec() -> NoiseLevel {
        NoiseLevel(1)
    }

    #[verifier::when_used_as_spec(zero_spec)]
    pub fn zero() -> (r: NoiseLevel)
        ensures
            r == NoiseLevel::zero_spec(),
    {
        NoiseLevel(0)
    }

    #[verifier::when_used_as_spec(nominal_spec)]
    pub fn nominal() -> (r: NoiseLevel)
        ensures
            r == NoiseLevel::nominal_spec(),
    {
        NoiseLevel(1)
    }
}

impl std::ops::Add for NoiseLevel {
    type Output = NoiseLevel;

    fn add(self, rhs: NoiseLevel) -> (r: NoiseLevel)
        ensures
            r.0 == self.0 + rhs.0,
    {
        NoiseLevel(self.0 + rhs.0)
    }
}

impl vstd::std_specs::ops::AddSpecImpl for NoiseLevel {
    open spec fn obeys_add_spec() -> bool {
        true
    }

    open spec fn add_req(self, rhs: NoiseLevel) -> bool {
        self.0 + rhs.0 <= usize::MAX
    }

    open spec fn add_spec(self, rhs: NoiseLevel) -> NoiseLevel {
        NoiseLevel((self.0 + rhs.0) as usize)
    }
}

impl std::ops::Mul<usize> for NoiseLevel {
    type Output = NoiseLevel;

    fn mul(self, rhs: usize) -> (r: NoiseLevel)
        ensures
            r.0 == self.0 * rhs,
    {
        NoiseLevel(self.0 * rhs)
    }
}

impl vstd::std_specs::ops::MulSpecImpl<usize> for NoiseLevel {
    open spec fn obeys_mul_spec() -> bool {
        true
    }

    open spec fn mul_req(self, rhs: usize) -> bool {
        self.0 * rhs <= usize::MAX
    }

    open spec fn mul_spec(self, rhs: usize) -> NoiseLevel {
        NoiseLevel((self.0 * rhs) as usize)
    }
}

pub open spec fn max_usize(a: usize, b: usize) -> usize {
    if a >= b { a } else { b }
}

pub open spec fn min_usize(a: usize, b: usize) -> usize {
    if a <= b { a } else { b }
}

/// `r` is the largest of `start` and of the `(hi ^ i)` for `i` in `[0, n]`.
pub open spec fn is_max_of_xor_scan(r: usize, start: usize, hi: usize, n: usize) -> bool {
    &&& r >= start
    &&& forall|i: usize| i <= n ==> #[trigger] (hi ^ i) <= r
    &&& (r == start || exists|i: usize| i <= n && r == #[trigger] (hi ^ i))
}

/// `r` is the largest of `start` and of the `(hi | i)` for `i` in `[0, n]`.
pub open spec fn is_max_of_or_scan(r: usize, start: usize, hi: usize, n: usize) -> bool {
    &&& r >= start
    &&& forall|i: usize| i <= n ==> #[trigger] (hi | i) <= r
    &&& (r == start || exists|i: usize| i <= n && r == #[trigger] (hi | i))
}

/// The value `v << shift` in 64-bit words, reduced modulo `modulus`.
pub open spec fn shifted_mod(v: usize, shift: u8, modulus: usize) -> usize
    recommends
        modulus > 0,
{
    (((v as u64) << shift) % (modulus as u64)) as usize
}

/// One of the outputs that `f` may give on `v` is at most `bound`.
pub open spec fn has_output_at_most<F: Fn(usize) -> usize>(f: F, v: usize, bound: usize) -> bool {
    exists|y: usize| #[trigger] f.ensures((v,), y) && y <= bound
}

impl Degree {
    /// Worst-case degree after a bitwise XOR of plaintexts bounded by `self` and `other`:
    /// the larger bound XORed with every value up to the smaller bound, and the larger
    /// bound itself.
    pub fn after_bitxor(&self, other: Degree) -> (r: Degree)
        ensures
            is_max_of_xor_scan(
                r.0,
                max_usize(self.0, other.0),
                max_usize(self.0, other.0),
                min_usize(self.0, other.0),
            ),
    {
        let max = if self.0 >= other.0 { self.0 } else { other.0 };
        let min = if self.0 <= other.0 { self.0 } else { other.0 };
        let mut result = max;
        let mut i: usize = 0;
        while i < min
            invariant
                i <= min,
                result >= max,
                forall|j: usize| j < i ==> #[trigger] (max ^ j) <= result,
                result == max || exists|j: usize| j < i && result == #[trigger] (max ^ j),
            decreases min - i,
        {
            if max ^ i > result {
                result = max ^ i;
            }
            i = i + 1;
        }
        if max ^ min > result {
            result = max ^ min;
        }
        assert forall|j: usize| j <= min implies #[trigger] (max ^ j) <= result by {
            if j < min {
            }
        }
        Degree(result)
    }

    /// Worst-case degree after a bitwise OR, found by the same scan as for XOR.
    pub fn after_bitor(&self, other: Degree) -> (r: Degree)
        ensures
            is_max_of_or_scan(
                r.0,
                max_usize(self.0, other.0),
                max_usize(self.0, other.0),
                min_usize(self.0, other.0),
            ),
    {
        let max = if self.0 >= other.0 { self.0 } else { other.0 };
        let min = if self.0 <= other.0 { self.0 } else { other.0 };
        let mut result = max;
        let mut i: usize = 0;
        while i < min
            invariant
                i <= min,
                result >= max,
                forall|j: usize| j < i ==> #[trigger] (max | j) <= result,
                result == max || exists|j: usize| j < i && result == #[trigger] (max | j),
            decreases min - i,
        {
            if max | i > result {
                result = max | i;
            }
            i = i + 1;
        }
        if max | min > result {
            result = max | min;
        }
        assert forall|j: usize| j <= min implies #[trigger] (max | j) <= result by {
            if j < min {
            }
        }
        Degree(result)
    }

    /// Worst-case degree after a bitwise AND: the smaller of the two bounds.
    pub fn after_bitand(&self, other: Degree) -> (r: Degree)
        ensures
            r.0 == min_usize(self.0, other.0),
    {
        Degree(if self.0 <= other.0 { self.0 } else { other.0 })
    }

    /// Worst-case degree after a left shift by `shift` in a plaintext space of `modulus`
    /// values: the largest `(v << shift) % modulus` over every `v` up to `self`.
    pub fn after_left_shift(&self, shift: u8, modulus: usize) -> (r: Degree)
        requires
            shift < 64,
            modulus > 0,
        ensures
            forall|v: usize| v <= self.0 ==> #[trigger] shifted_mod(v, shift, modulus) <= r.0,
            exists|v: usize| v <= self.0 && r.0 == #[trigger] shifted_mod(v, shift, modulus),
    {
        let m = modulus as u64;
        let mut result: usize = 0;
        let mut i: usize = 0;
        while i < self.0
            invariant
                i <= self.0,
                shift < 64,
                modulus > 0,
                m == modulus,
                forall|j: usize| j < i ==> #[trigger] shifted_mod(j, shift, modulus) <= result,
                result == 0 || exists|j: usize|
                    j < i && result == #[trigger] shifted_mod(j, shift, modulus),
            decreases self.0 - i,
        {
            let tmp = (((i as u64) << shift) % m) as usize;
            assert(tmp == shifted_mod(i, shift, modulus));
            if tmp > result {
                result = tmp;
            }
            i = i + 1;
        }
        let tmp = (((i as u64) << shift) % m) as usize;
        assert(tmp == shifted_mod(i, shift, modulus));
        if tmp > result {
            result = tmp;
        }
        assert forall|v: usize| v <= self.0 implies #[trigger] shifted_mod(v, shift, modulus)
            <= result by {
            if v < i {
            }
        }
        if result == 0 {
            assert(shifted_mod(0, shift, modulus) == 0) by {
                assert(((0u64 << shift) % m) == 0) by (bit_vector)
                    requires
                        m > 0,
                ;
            }
        }
        Degree(result)
    }

    /// Worst-case degree after evaluating `f` on every plaintext value up to `self`.
    pub fn after_pbs<F: Fn(usize) -> usize>(&self, f: F) -> (r: Degree)
        requires
            forall|v: usize| v <= self.0 ==> #[trigger] f.requires((v,)),
        ensures
            forall|v: usize| v <= self.0 ==> #[trigger] has_output_at_most(f, v, r.0),
            r.0 == 0 || exists|v: usize| v <= self.0 && #[trigger] f.ensures((v,), r.0),
    {
        let mut result: usize = 0;
        let mut i: usize = 0;
        while i < self.0
            invariant
                i <= self.0,
                forall|v: usize| v <= self.0 ==> #[trigger] f.requires((v,)),
                forall|v: usize| v < i ==> #[trigger] has_output_at_most(f, v, result),
                result == 0 || exists|v: usize| v < i && #[trigger] f.ensures((v,), result),
            decreases self.0 - i,
        {
            let tmp = f(i);
            let ghost old_result = result;
            if tmp > result {
                result = tmp;
            }
            assert forall|v: usize| v <= i implies #[trigger] has_output_at_most(f, v, result) by {
                if v < i {
                    assert(has_output_at_most(f, v, old_result));
                    let y = choose|y: usize| #[trigger] f.ensures((v,), y) && y <= old_result;
                    assert(f.ensures((v,), y) && y <= result);
                } else {
                    assert(f.ensures((v,), tmp) && tmp <= result);
                }
            }
            i = i + 1;
        }
        let tmp = f(i);
        let ghost old_result = result;
        if tmp > result {
            result = tmp;
        }
        assert forall|v: usize| v <= self.0 implies #[trigger] has_output_at_most(f, v, result) by {
            if v < i {
                assert(has_output_at_most(f, v, old_result));
                let y = choose|y: usize| #[trigger] f.ensures((v,), y) && y <= old_result;
                assert(f.ensures((v,), y) && y <= result);
            } else {
                assert(f.ensures((v,), tmp) && tmp <= result);
            }
        }
        Degree(result)
    }
}

/// An encrypted small integer: an LWE sample under the native or a power-of-two modulus,
/// with the bound on its plaintext, its noise level and the moduli of its plaintext space.
#[derive(Debug)]
pub struct Ciphertext {
    pub ct: LweCiphertext,
    pub degree: Degree,
    pub noise_level: NoiseLevel,
    pub message_modulus: MessageModulus,
    pub carry_modulus: CarryModulus,
    pub pbs_order: PBSOrder,
}

impl Ciphertext {
    /// Every field of `self` equals the one of `other`, the LWE coefficients included.
    pub open spec fn same_as(&self, other: &Ciphertext) -> bool {
        &&& self.ct.data@ == other.ct.data@
        &&& self.ct.ciphertext_modulus == other.ct.ciphertext_modulus
        &&& self.degree == other.degree
        &&& self.noise_level == other.noise_level
        &&& self.message_modulus == other.message_modulus
        &&& self.carry_modulus == other.carry_modulus
        &&& self.pbs_order == other.pbs_order
    }
}

impl PartialEq for Ciphertext {
    fn eq(&self, other: &Ciphertext) -> (r: bool)
        ensures
            r == self.same_as(other),
    {
        self.ct == other.ct && self.degree == other.degree && self.noise_level
            == other.noise_level && self.message_modulus == other.message_modulus
            && self.carry_modulus == other.carry_modulus && self.pbs_order == other.pbs_order
    }
}

impl vstd::std_specs::cmp::PartialEqSpecImpl for Ciphertext {
    open spec fn obeys_eq_spec() -> bool {
        true
    }

    open spec fn eq_spec(&self, other: &Ciphertext) -> bool {
        self.same_as(other)
    }
}

impl Eq for Ciphertext {

}

impl Clone for Ciphertext {
    fn clone(&self) -> (r: Self)
        ensures
            r.same_as(self),
    {
        Ciphertext {
            ct: self.ct.clone(),
            degree: self.degree,
            noise_level: self.noise_level,
            message_modulus: self.message_modulus,
            carry_modulus: self.carry_modulus,
            pbs_order: self.pbs_order,
        }
    }

    /// Overwrites `self` with `source`, reusing the coefficient buffer when it already
    /// has the right size and modulus.
    fn clone_from(&mut self, source: &Self)
        ensures
            final(self).same_as(source),
    {
        if self.ct.ciphertext_modulus != source.ct.ciphertext_modulus || self.ct.data.len()
            != source.ct.data.len() {
            self.ct = source.ct.clone();
        } else {
            let n = source.ct.data.len();
            let mut i: usize = 0;
            while i < n
                invariant
                    n == source.ct.data@.len() == self.ct.data@.len(),
                    self.ct.ciphertext_modulus == source.ct.ciphertext_modulus,
                    i <= n,
                    forall|j: int| 0 <= j < i ==> self.ct.data@[j] == source.ct.data@[j],
                decreases n - i,
            {
                self.ct.data.set(i, source.ct.data[i]);
                i = i + 1;
            }
            assert(self.ct.data@ =~= source.ct.data@);
        }
        self.degree = source.degree;
        self.message_modulus = source.message_modulus;
        self.carry_modulus = source.carry_modulus;
        self.pbs_order = source.pbs_order;
        self.noise_level = source.noise_level;
    }
}

/// The shape and metadata that a ciphertext from an untrusted source must have.
#[derive(Debug, Copy, Clone, PartialEq, Eq, Structural)]
pub struct CiphertextConformanceParams {
    pub lwe_size: usize,
    pub ciphertext_modulus: CiphertextModulus,
    pub message_modulus: MessageModulus,
    pub carry_modulus: CarryModulus,
    pub pbs_order: PBSOrder,
    pub degree: Degree,
    pub noise_level: NoiseLevel,
}

impl Ciphertext {
    /// Assembles a ciphertext from its parts.
    pub fn new(
        ct: LweCiphertext,
        degree: Degree,
        noise_level: NoiseLevel,
        message_modulus: MessageModulus,
        carry_modulus: CarryModulus,
        pbs_order: PBSOrder,
    ) -> (r: Ciphertext)
        ensures
            r.ct.data@ == ct.data@,
            r.ct.ciphertext_modulus == ct.ciphertext_modulus,
            r.degree == degree,
            r.noise_level == noise_level,
            r.message_modulus == message_modulus,
            r.carry_modulus == carry_modulus,
            r.pbs_order == pbs_order,
    {
        Ciphertext { ct, degree, noise_level, message_modulus, carry_modulus, pbs_order }
    }

    /// Whether the plaintext bound leaves the carry part empty.
    pub fn carry_is_empty(&self) -> (r: bool)
        ensures
            r == (self.degree.0 < self.message_modulus.0),
    {
        self.degree.0 < self.message_modulus.0
    }

    pub open spec fn conforms(&self, param: CiphertextConformanceParams) -> bool {
        &&& self.ct.data@.len() == param.lwe_size
        &&& self.ct.ciphertext_modulus == param.ciphertext_modulus
        &&& self.message_modulus == param.message_modulus
        &&& self.carry_modulus == param.carry_modulus
        &&& self.pbs_order == param.pbs_order
        &&& self.degree == param.degree
        &&& self.noise_level == param.noise_level
    }

    /// Whether the ciphertext has exactly the shape and metadata that `param` declares.
    pub fn is_conformant(&self, param: &CiphertextConformanceParams) -> (r: bool)
        ensures
            r == self.conforms(*param),
    {
        self.ct.data.len() == param.lwe_size && self.ct.ciphertext_modulus
            == param.ciphertext_modulus && self.message_modulus == param.message_modulus
            && self.carry_modulus == param.carry_modulus && self.pbs_order == param.pbs_order
            && self.degree == param.degree && self.noise_level == param.noise_level
    }
}

/// A ciphertext whose mask is regenerated from a seed.
#[derive(Debug, Clone, Copy, PartialEq, Eq, Structural)]
pub struct CompressedCiphertext {
    pub ct: SeededLweCiphertext,
    pub degree: Degree,
    pub message_modulus: MessageModulus,
    pub carry_modulus: CarryModulus,
    pub pbs_order: PBSOrder,
    pub noise_level: NoiseLevel,
}

impl CompressedCiphertext {
    pub open spec fn conforms(&self, param: CiphertextConformanceParams) -> bool {
        &&& self.ct.lwe_size == param.lwe_size
        &&& self.ct.ciphertext_modulus == param.ciphertext_modulus
        &&& self.message_modulus == param.message_modulus
        &&& self.carry_modulus == param.carry_modulus
        &&& self.pbs_order == param.pbs_order
        &&& self.degree == param.degree
        &&& self.noise_level == param.noise_level
    }

    /// Whether the compressed ciphertext has exactly the shape and metadata of `param`.
    pub fn is_conformant(&self, param: &CiphertextConformanceParams) -> (r: bool)
        ensures
            r == self.conforms(*param),
    {
        self.ct.lwe_size == param.lwe_size && self.ct.ciphertext_modulus
            == param.ciphertext_modulus && self.message_modulus == param.message_modulus
            && self.carry_modulus == param.carry_modulus && self.pbs_order == param.pbs_order
            && self.degree == param.degree && self.noise_level == param.noise_level
    }

    /// The full ciphertext: the mask regenerated from the seed, the same body, and the same
    /// degree, noise level, moduli and order.
    pub fn decompress(self) -> (r: Ciphertext)
        requires
            self.ct.wf(),
        ensures
            r.ct.data@ == self.ct.decompressed_spec(),
            r.ct.ciphertext_modulus == self.ct.ciphertext_modulus,
            r.degree == self.degree,
            r.noise_level == self.noise_level,
            r.message_modulus == self.message_modulus,
            r.carry_modulus == self.carry_modulus,
            r.pbs_order == self.pbs_order,
    {
        let CompressedCiphertext { ct, degree, message_modulus, carry_modulus, pbs_order, noise_level } =
            self;
        Ciphertext {
            ct: ct.decompress_into_lwe_ciphertext(),
            degree,
            message_modulus,
            carry_modulus,
            pbs_order,
            noise_level,
        }
    }
}

/// The shape and metadata that a compact list from an untrusted source must have.
#[derive(Debug, Copy, Clone, PartialEq, Eq, Structural)]
pub struct CiphertextListConformanceParams {
    pub lwe_dimension: usize,
    pub max_lwe_count: usize,
    pub ciphertext_modulus: CiphertextModulus,
    pub message_modulus: MessageModulus,
    pub carry_modulus: CarryModulus,
    pub pbs_order: PBSOrder,
    pub degree: Degree,
    pub noise_level: NoiseLevel,
}

/// Many ciphertexts sharing one mask per bin and the same metadata.
#[derive(Clone, Debug, PartialEq)]
pub struct CompactCiphertextList {
    pub ct_list: LweCompactCiphertextList,
    pub degree: Degree,
    pub message_modulus: MessageModulus,
    pub carry_modulus: CarryModulus,
    pub pbs_order: PBSOrder,
    pub noise_level: NoiseLevel,
}

impl CompactCiphertextList {
    /// `ct` is sample `c` of the list with the list's metadata.
    pub open spec fn is_expanded(&self, ct: Ciphertext, c: int) -> bool {
        &&& ct.ct.data@ == self.ct_list.sample_spec(c)
        &&& ct.ct.ciphertext_modulus == self.ct_list.ciphertext_modulus
        &&& ct.degree == self.degree
        &&& ct.noise_level == self.noise_level
        &&& ct.message_modulus == self.message_modulus
        &&& ct.carry_modulus == self.carry_modulus
        &&& ct.pbs_order == self.pbs_order
    }

    pub open spec fn conforms(&self, param: CiphertextListConformanceParams) -> bool {
        &&& self.ct_list.wf()
        &&& self.ct_list.lwe_dimension == param.lwe_dimension
        &&& self.ct_list.body_list@.len() <= param.max_lwe_count
        &&& self.ct_list.ciphertext_modulus == param.ciphertext_modulus
        &&& self.message_modulus == param.message_modulus
        &&& self.carry_modulus == param.carry_modulus
        &&& self.pbs_order == param.pbs_order
        &&& self.degree == param.degree
        &&& self.noise_level == param.noise_level
    }

    /// Whether the list is well formed and has the shape and metadata of `param`.
    pub fn is_conformant(&self, param: &CiphertextListConformanceParams) -> (r: bool)
        ensures
            r == self.conforms(*param),
    {
        let n = self.ct_list.lwe_dimension;
        let well_formed = 1 <= n && n < usize::MAX && self.ct_list.mask_list.len() % n == 0
            && self.ct_list.body_list.len() <= self.ct_list.mask_list.len();
        well_formed && n == param.lwe_dimension && self.ct_list.body_list.len()
            <= param.max_lwe_count && self.ct_list.ciphertext_modulus
            == param.ciphertext_modulus && self.message_modulus == param.message_modulus
            && self.carry_modulus == param.carry_modulus && self.pbs_order == param.pbs_order
            && self.degree == param.degree && self.noise_level == param.noise_level
    }

    /// One ciphertext per body of the list, in order, each with the list's metadata.
    pub fn expand(&self) -> (r: Vec<Ciphertext>)
        requires
            self.ct_list.wf(),
        ensures
            r@.len() == self.ct_list.body_list@.len(),
            forall|c: int| 0 <= c < r@.len() ==> self.is_expanded(#[trigger] r@[c], c),
    {
        let mut out: Vec<Ciphertext> = Vec::new();
        let mut c: usize = 0;
        while c < self.ct_list.body_list.len()
            invariant
                self.ct_list.wf(),
                c <= self.ct_list.body_list@.len(),
                out@.len() == c,
                forall|j: int| 0 <= j < c ==> self.is_expanded(#[trigger] out@[j], j),
            decreases self.ct_list.body_list@.len() - c,
        {
            let mut data = self.ct_list.mask_of(c);
            data.push(self.ct_list.body_list[c]);
            assert(data@ == self.ct_list.sample_spec(c as int));
            let ct = LweCiphertext::from_container(data, self.ct_list.ciphertext_modulus);
            out.push(
                Ciphertext {
                    ct,
                    degree: self.degree,
                    message_modulus: self.message_modulus,
                    carry_modulus: self.carry_modulus,
                    pbs_order: self.pbs_order,
                    noise_level: self.noise_level,
                },
            );
            c = c + 1;
        }
        out
    }

    pub fn size_elements(&self) -> (r: usize)
        requires
            self.ct_list.mask_list@.len() + self.ct_list.body_list@.len() <= usize::MAX,
        ensures
            r == self.ct_list.mask_list@.len() + self.ct_list.body_list@.len(),
    {
        self.ct_list.size_elements()
    }

    pub fn size_bytes(&self) -> (r: usize)
        requires
            8 * (self.ct_list.mask_list@.len() + self.ct_list.body_list@.len()) <= usize::MAX,
        ensures
            r == 8 * (self.ct_list.mask_list@.len() + self.ct_list.body_list@.len()),
    {
        self.ct_list.size_bytes()
    }
}

} // verus!
