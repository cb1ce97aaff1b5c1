//! LWE samples: a mask of coefficients followed by one body coefficient.
use vstd::prelude::*;

verus! {

/// The modulus `2^power` of the ciphertext coefficients; `power == 64` is the native
/// modulus of `u64` arithmetic.
#[derive(Clone, Copy, Debug, PartialEq, Eq, Structural)]
pub struct CiphertextModulus {
    pub power: u32,
}

/// Why a modulus could not be built.
#[derive(Clone, Copy, Debug, PartialEq, Eq, Structural)]
pub enum CiphertextModulusError {
    /// The exponent is zero: a modulus of one holds no information.
    Trivial,
    /// The exponent is larger than the width of `u64`.
    TooLarge,
}

impl CiphertextModulus {
    pub open spec fn wf(self) -> bool {
        1 <= self.power <= 64
    }

    pub open spec fn is_native_spec(self) -> bool {
        self.power == 64
    }

    /// The modulus `2^64` of wrapping `u64` arithmetic.
    pub fn new_native() -> (r: Self)
        ensures
            r.wf(),
            r.is_native_spec(),
    {
        CiphertextModulus { power: 64 }
    }

    /// The modulus `2^exponent`.
    pub fn try_new_power_of_2(exponent: usize) -> (r: Result<Self, CiphertextModulusError>)
        ensures
            exponent == 0 <==> r == Err::<Self, _>(CiphertextModulusError::Trivial),
            exponent > 64 <==> r == Err::<Self, _>(CiphertextModulusError::TooLarge),
            1 <= exponent <= 64 ==> r == Ok::<_, CiphertextModulusError>(
                CiphertextModulus { power: exponent as u32 },
            ),
    {
        if exponent == 0 {
            Err(CiphertextModulusError::Trivial)
        } else if exponent > 64 {
            Err(CiphertextModulusError::TooLarge)
        } else {
            Ok(CiphertextModulus { power: exponent as u32 })
        }
    }

}

/// An LWE ciphertext: `data[0..n]` is the mask, `data[n]` the body, with `n` the LWE
/// dimension.
#[derive(Debug)]
pub struct LweCiphertext {
    pub data: Vec<u64>,
    pub ciphertext_modulus: CiphertextModulus,
}

pub type LweCiphertextOwned = LweCiphertext;

impl PartialEq for LweCiphertext {
    fn eq(&self, other: &LweCiphertext) -> (r: bool)
        ensures
            r == (self.data@ == other.data@ && self.ciphertext_modulus
                == other.ciphertext_modulus),
    {
        if self.ciphertext_modulus != other.ciphertext_modulus {
            return false;
        }
        if self.data.len() != other.data.len() {
            return false;
        }
        let mut i: usize = 0;
        while i < self.data.len()
            invariant
                i <= self.data.len() == other.data.len(),
                forall|j: int| 0 <= j < i ==> self.data@[j] == other.data@[j],
            decreases self.data.len() - i,
        {
            if self.data[i] != other.data[i] {
                return false;
            }
            i = i + 1;
        }
        assert(self.data@ =~= other.data@);
        true
    }
}

impl vstd::std_specs::cmp::PartialEqSpecImpl for LweCiphertext {
    open spec fn obeys_eq_spec() -> bool {
        true
    }

    open spec fn eq_spec(&self, other: &LweCiphertext) -> bool {
        self.data@ == other.data@ && self.ciphertext_modulus == other.ciphertext_modulus
    }
}

impl Eq for LweCiphertext {

}

impl Clone for LweCiphertext {
    fn clone(&self) -> (r: Self)
        ensures
            r.data@ == self.data@,
            r.ciphertext_modulus == self.ciphertext_modulus,
    {
        LweCiphertext { data: self.data.clone(), ciphertext_modulus: self.ciphertext_modulus }
    }
}

impl LweCiphertext {
    /// Wraps a container holding mask and body.
    pub fn from_container(data: Vec<u64>, ciphertext_modulus: CiphertextModulus) -> (r: Self)
        ensures
            r.data@ == data@,
            r.ciphertext_modulus == ciphertext_modulus,
    {
        LweCiphertext { data, ciphertext_modulus }
    }

    /// The number of coefficients: the LWE dimension plus one.
    pub fn lwe_size(&self) -> (r: usize)
        ensures
            r == self.data@.len(),
    {
        self.data.len()
    }

    pub fn ciphertext_modulus(&self) -> (r: CiphertextModulus)
        ensures
            r == self.ciphertext_modulus,
    {
        self.ciphertext_modulus
    }
}

/// The number of residues of native 64-bit arithmetic.
pub open spec fn native_mod() -> int {
    0x1_0000_0000_0000_0000
}

/// `x` reduced into `[0, 2^64)`.
pub open spec fn wrap(x: int) -> int {
    x % native_mod()
}

/// `sum_{i < n} a[i] * s[i]`, over the integers.
pub open spec fn dot_prefix(a: Seq<u64>, s: Seq<u64>, n: nat) -> int
    decreases n,
{
    if n == 0 {
        0
    } else {
        dot_prefix(a, s, (n - 1) as nat) + a[n - 1] as int * s[n - 1] as int
    }
}

/// The phase of an LWE sample `data` under `key`: body minus the mask-key product.
pub open spec fn phase_of(data: Seq<u64>, key: Seq<u64>) -> int {
    wrap(data.last() as int - dot_prefix(data, key, key.len()))
}

pub proof fn lemma_wrap_add(x: int, y: int)
    ensures
        wrap(wrap(x) + wrap(y)) == wrap(x + y),
        wrap(wrap(x) + y) == wrap(x + y),
        wrap(x + wrap(y)) == wrap(x + y),
        wrap(wrap(x) - wrap(y)) == wrap(x - y),
        wrap(wrap(x) - y) == wrap(x - y),
        wrap(x - wrap(y)) == wrap(x - y),
        0 <= wrap(x) < native_mod(),
{
    let m = native_mod();
    vstd::arithmetic::div_mod::lemma_add_mod_noop(x, y, m);
    vstd::arithmetic::div_mod::lemma_mod_twice(y, m);
    vstd::arithmetic::div_mod::lemma_mod_twice(x, m);
    vstd::arithmetic::div_mod::lemma_add_mod_noop(x % m, y, m);
    vstd::arithmetic::div_mod::lemma_add_mod_noop(x, y % m, m);
    vstd::arithmetic::div_mod::lemma_sub_mod_noop(x, y, m);
    vstd::arithmetic::div_mod::lemma_sub_mod_noop(x % m, y, m);
    vstd::arithmetic::div_mod::lemma_sub_mod_noop(x, y % m, m);
    vstd::arithmetic::div_mod::lemma_mod_bound(x, m);
}

pub proof fn lemma_wrap_small(x: int)
    requires
        0 <= x < native_mod(),
    ensures
        wrap(x) == x,
{
    vstd::arithmetic::div_mod::lemma_small_mod(x as nat, native_mod() as nat);
}

/// `(a + b) mod 2^64`.
pub fn add_mod(a: u64, b: u64) -> (r: u64)
    ensures
        r == wrap(a + b),
{
    proof {
        if a + b < native_mod() {
            lemma_wrap_small(a + b);
        } else {
            lemma_wrap_small(a + b - native_mod());
            vstd::arithmetic::div_mod::lemma_mod_add_multiples_vanish(
                a + b - native_mod(),
                native_mod(),
            );
        }
    }
    a.wrapping_add(b)
}

/// `(a - b) mod 2^64`.
pub fn sub_mod(a: u64, b: u64) -> (r: u64)
    ensures
        r == wrap(a - b),
{
    proof {
        if a >= b {
            lemma_wrap_small(a - b);
        } else {
            lemma_wrap_small(a - b + native_mod());
            vstd::arithmetic::div_mod::lemma_mod_add_multiples_vanish(a - b, native_mod());
        }
    }
    a.wrapping_sub(b)
}

/// `(a * b) mod 2^64`.
pub fn mul_mod(a: u64, b: u64) -> (r: u64)
    ensures
        r == wrap(a * b),
{
    a.wrapping_mul(b)
}

/// `sum_{i < n} a[i] * s[i] mod 2^64`.
pub fn dot_mod(a: &[u64], s: &[u64], n: usize) -> (r: u64)
    requires
        n <= a@.len(),
        n <= s@.len(),
    ensures
        r == wrap(dot_prefix(a@, s@, n as nat)),
{
    let mut acc: u64 = 0;
    let mut i: usize = 0;
    proof {
        lemma_wrap_small(0);
    }
    while i < n
        invariant
            i <= n <= a@.len(),
            n <= s@.len(),
            acc == wrap(dot_prefix(a@, s@, i as nat)),
        decreases n - i,
    {
        let p = mul_mod(a[i], s[i]);
        proof {
            lemma_wrap_add(dot_prefix(a@, s@, i as nat), a@[i as int] * s@[i as int]);
        }
        acc = add_mod(acc, p);
        proof {
            lemma_wrap_add(acc as int, 0);
        }
        i = i + 1;
    }
    acc
}

/// A binary LWE secret key.
#[derive(Debug)]
pub struct LweSecretKey {
    pub data: Vec<u64>,
}

impl Clone for LweSecretKey {
    fn clone(&self) -> (r: Self)
        ensures
            r.data@ == self.data@,
    {
        LweSecretKey { data: self.data.clone() }
    }
}

impl LweSecretKey {
    pub fn lwe_dimension(&self) -> (r: usize)
        ensures
            r == self.data@.len(),
    {
        self.data.len()
    }
}

impl LweCiphertext {
    /// Wraps `data` with the body `b` put in place of the last coefficient.
    pub open spec fn with_body(data: Seq<u64>, b: int) -> Seq<u64> {
        data.update(data.len() - 1, b as u64)
    }

    /// The sample `(0, ..., 0, plaintext)` of the given size: an encryption with no mask and
    /// no noise.
    pub fn new_trivial(plaintext: u64, lwe_size: usize, ciphertext_modulus: CiphertextModulus) -> (r:
        Self)
        requires
            lwe_size >= 1,
        ensures
            r.data@.len() == lwe_size,
            forall|i: int| 0 <= i < lwe_size - 1 ==> r.data@[i] == 0,
            r.data@.last() == plaintext,
            r.ciphertext_modulus == ciphertext_modulus,
    {
        let mut data: Vec<u64> = Vec::new();
        while data.len() < lwe_size - 1
            invariant
                data@.len() <= lwe_size - 1,
                forall|i: int| 0 <= i < data@.len() ==> data@[i] == 0,
            decreases lwe_size - 1 - data@.len(),
        {
            data.push(0);
        }
        data.push(plaintext);
        LweCiphertext { data, ciphertext_modulus }
    }

    /// Adds the encoded plaintext `p` to the body.
    pub fn plaintext_add_assign(&mut self, p: u64)
        requires
            old(self).data@.len() >= 1,
        ensures
            final(self).data@ == LweCiphertext::with_body(
                old(self).data@,
                wrap(old(self).data@.last() + p),
            ),
            final(self).ciphertext_modulus == old(self).ciphertext_modulus,
    {
        let last = self.data.len() - 1;
        let b = add_mod(self.data[last], p);
        self.data.set(last, b);
    }

    /// Subtracts the encoded plaintext `p` from the body.
    pub fn plaintext_sub_assign(&mut self, p: u64)
        requires
            old(self).data@.len() >= 1,
        ensures
            final(self).data@ == LweCiphertext::with_body(
                old(self).data@,
                wrap(old(self).data@.last() - p),
            ),
            final(self).ciphertext_modulus == old(self).ciphertext_modulus,
    {
        let last = self.data.len() - 1;
        let b = sub_mod(self.data[last], p);
        self.data.set(last, b);
    }

    /// Coefficient-wise `self += other` modulo `2^64`.
    pub fn add_assign(&mut self, other: &LweCiphertext)
        requires
            old(self).data@.len() == other.data@.len(),
        ensures
            final(self).data@.len() == old(self).data@.len(),
            forall|i: int|
                0 <= i < other.data@.len() ==> final(self).data@[i] == wrap(
                    old(self).data@[i] + other.data@[i],
                ),
            final(self).ciphertext_modulus == old(self).ciphertext_modulus,
    {
        let n = self.data.len();
        let mut i: usize = 0;
        while i < n
            invariant
                n == self.data@.len() == other.data@.len() == old(self).data@.len(),
                i <= n,
                self.ciphertext_modulus == old(self).ciphertext_modulus,
                forall|j: int|
                    0 <= j < i ==> self.data@[j] == wrap(old(self).data@[j] + other.data@[j]),
                forall|j: int| i <= j < n ==> self.data@[j] == old(self).data@[j],
            decreases n - i,
        {
            let v = add_mod(self.data[i], other.data[i]);
            self.data.set(i, v);
            i = i + 1;
        }
    }

    /// Coefficient-wise `self -= other` modulo `2^64`.
    pub fn sub_assign(&mut self, other: &LweCiphertext)
        requires
            old(self).data@.len() == other.data@.len(),
        ensures
            final(self).data@.len() == old(self).data@.len(),
            forall|i: int|
                0 <= i < other.data@.len() ==> final(self).data@[i] == wrap(
                    old(self).data@[i] - other.data@[i],
                ),
            final(self).ciphertext_modulus == old(self).ciphertext_modulus,
    {
        let n = self.data.len();
        let mut i: usize = 0;
        while i < n
            invariant
                n == self.data@.len() == other.data@.len() == old(self).data@.len(),
                i <= n,
                self.ciphertext_modulus == old(self).ciphertext_modulus,
                forall|j: int|
                    0 <= j < i ==> self.data@[j] == wrap(old(self).data@[j] - other.data@[j]),
                forall|j: int| i <= j < n ==> self.data@[j] == old(self).data@[j],
            decreases n - i,
        {
            let v = sub_mod(self.data[i], other.data[i]);
            self.data.set(i, v);
            i = i + 1;
        }
    }

    /// Coefficient-wise `self = -self` modulo `2^64`.
    pub fn neg_assign(&mut self)
        ensures
            final(self).data@.len() == old(self).data@.len(),
            forall|i: int|
                0 <= i < old(self).data@.len() ==> final(self).data@[i] == wrap(
                    -old(self).data@[i],
                ),
            final(self).ciphertext_modulus == old(self).ciphertext_modulus,
    {
        let n = self.data.len();
        let mut i: usize = 0;
        while i < n
            invariant
                n == self.data@.len() == old(self).data@.len(),
                i <= n,
                self.ciphertext_modulus == old(self).ciphertext_modulus,
                forall|j: int| 0 <= j < i ==> self.data@[j] == wrap(-old(self).data@[j]),
                forall|j: int| i <= j < n ==> self.data@[j] == old(self).data@[j],
            decreases n - i,
        {
            let v = sub_mod(0, self.data[i]);
            self.data.set(i, v);
            i = i + 1;
        }
    }

    /// Coefficient-wise `self *= c` modulo `2^64`.
    pub fn cleartext_mul_assign(&mut self, c: u64)
        ensures
            final(self).data@.len() == old(self).data@.len(),
            forall|i: int|
                0 <= i < old(self).data@.len() ==> final(self).data@[i] == wrap(
                    old(self).data@[i] * c,
                ),
            final(self).ciphertext_modulus == old(self).ciphertext_modulus,
    {
        let n = self.data.len();
        let mut i: usize = 0;
        while i < n
            invariant
                n == self.data@.len() == old(self).data@.len(),
                i <= n,
                self.ciphertext_modulus == old(self).ciphertext_modulus,
                forall|j: int| 0 <= j < i ==> self.data@[j] == wrap(old(self).data@[j] * c),
                forall|j: int| i <= j < n ==> self.data@[j] == old(self).data@[j],
            decreases n - i,
        {
            let v = mul_mod(self.data[i], c);
            self.data.set(i, v);
            i = i + 1;
        }
    }
}

/// Encrypts `plaintext` under `key` with the given mask and noise: the body is
/// `<mask, key> + plaintext + noise mod 2^64`.
pub fn encrypt_lwe_with_mask(
    key: &LweSecretKey,
    mask: Vec<u64>,
    plaintext: u64,
    noise: u64,
    ciphertext_modulus: CiphertextModulus,
) -> (r: LweCiphertext)
    requires
        mask@.len() == key.data@.len(),
    ensures
        r.data@ == mask@.push(
            wrap(dot_prefix(mask@, key.data@, key.data@.len()) + plaintext + noise) as u64,
        ),
        phase_of(r.data@, key.data@) == wrap(plaintext + noise),
        r.ciphertext_modulus == ciphertext_modulus,
{
    let n = key.data.len();
    let d = dot_mod(mask.as_slice(), key.data.as_slice(), n);
    let b0 = add_mod(d, plaintext);
    let b = add_mod(b0, noise);
    let ghost dm = dot_prefix(mask@, key.data@, n as nat);
    let mut data = mask;
    let ghost m0 = data@;
    data.push(b);
    proof {
        lemma_wrap_add(dm, plaintext as int);
        lemma_wrap_add(dm + plaintext, noise as int);
        assert(m0.subrange(0, n as int) =~= data@.subrange(0, n as int));
        lemma_dot_prefix_ext(m0, data@, key.data@, n as nat);
        lemma_wrap_add(dm + plaintext + noise, dm);
        assert(dm + plaintext + noise - dm == plaintext + noise);
    }
    LweCiphertext { data, ciphertext_modulus }
}

/// The product only looks at the first `n` coefficients.
pub proof fn lemma_dot_prefix_ext(a: Seq<u64>, b: Seq<u64>, s: Seq<u64>, n: nat)
    requires
        n <= a.len(),
        n <= b.len(),
        a.subrange(0, n as int) == b.subrange(0, n as int),
    ensures
        dot_prefix(a, s, n) == dot_prefix(b, s, n),
    decreases n,
{
    if n > 0 {
        assert(a[n - 1] == a.subrange(0, n as int)[n - 1]);
        assert(b[n - 1] == b.subrange(0, n as int)[n - 1]);
        assert(a.subrange(0, n - 1) == a.subrange(0, n as int).subrange(0, n - 1));
        assert(b.subrange(0, n - 1) == b.subrange(0, n as int).subrange(0, n - 1));
        lemma_dot_prefix_ext(a, b, s, (n - 1) as nat);
    }
}

/// The ciphertext `ct` encrypts `plaintext` under `key`, up to a noise of at most
/// `2^noise_bound_log` in absolute value.
pub open spec fn encrypts_with_noise(
    ct: Seq<u64>,
    key: Seq<u64>,
    plaintext: int,
    noise_bound_log: u32,
) -> bool {
    &&& ct.len() == key.len() + 1
    &&& exists|e: int|
        -crate::core_crypto::random::pow2(noise_bound_log as nat) <= e <= crate::core_crypto::random::pow2(noise_bound_log as nat) && phase_of(ct, key)
            == #[trigger] wrap(plaintext + e)
}

/// The phase of `ct` under `key`: `body - <mask, key> mod 2^64`.
pub fn decrypt_lwe(key: &LweSecretKey, ct: &LweCiphertext) -> (r: u64)
    requires
        ct.data@.len() == key.data@.len() + 1,
    ensures
        r == phase_of(ct.data@, key.data@),
{
    let n = key.data.len();
    let d = dot_mod(ct.data.as_slice(), key.data.as_slice(), n);
    proof {
        lemma_wrap_add(ct.data@.last() as int, dot_prefix(ct.data@, key.data@, n as nat));
    }
    sub_mod(ct.data[n], d)
}

} // verus!
