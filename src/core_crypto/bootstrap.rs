//! Bootstrapping keys, blind rotation and sample extraction: the programmable bootstrap.
use vstd::prelude::*;
use crate::core_crypto::glwe::{
    external_product, external_product_spec, ggsw_view, ggsw_wf, glwe_add, glwe_add_spec,
    glwe_monomial_mul, glwe_monomial_spec, glwe_sub, glwe_sub_spec, glwe_view, glwe_wf,
    poly_mul_acc, poly_mul_add_spec, trivial_glwe, trivial_glwe_spec,
};
use crate::core_crypto::keyswitch::{decomposition_wf, level_weight};
use crate::core_crypto::lwe::{
    CiphertextModulus, LweCiphertext, LweSecretKey, add_mod, mul_mod, sub_mod, wrap,
};
use crate::core_crypto::random::{EncryptionRandomGenerator, GeneratorExhausted, byte_budget, pow2};

verus! {

/// The GLWE dimension and the polynomial size `2^log_polynomial_size` are small enough
/// for every index of a bootstrap to fit in a word.
pub open spec fn glwe_shape_ok(glwe_dimension: usize, log_polynomial_size: u32) -> bool {
    &&& 1 <= glwe_dimension <= 16
    &&& 1 <= log_polynomial_size <= 20
}

pub open spec fn pow2_usize(e: u32) -> int {
    vstd::arithmetic::power2::pow2(e as nat) as int
}

/// `(a * b) mod 2^64` as a word.
pub open spec fn mul_mod_spec(a: u64, b: u64) -> u64 {
    wrap(a * b) as u64
}

/// What row `row` of the GGSW encryption of the bit `m` holds in its component
/// `row / levels`: `m` times the weight `2^(64 - base_log * (row % levels + 1))`.
pub open spec fn ggsw_row_constant(m: u64, base_log: u32, levels: u32, row: int) -> u64 {
    wrap(m * vstd::arithmetic::power2::pow2((64 - base_log * (row % (levels as int) + 1)) as nat))
        as u64
}

/// `2^e` as a word, for a small `e`.
pub fn polynomial_size_of(e: u32) -> (r: usize)
    requires
        e <= 20,
    ensures
        r == pow2_usize(e),
        1 <= r <= 0x10_0000,
{
    let mut r: usize = 1;
    let mut i: u32 = 0;
    proof {
        vstd::arithmetic::power2::lemma2_to64();
    }
    while i < e
        invariant
            i <= e <= 20,
            r == pow2_usize(i),
            1 <= r <= pow2_usize(i),
            pow2_usize(i) <= pow2_usize(20),
            pow2_usize(20) == 0x10_0000,
        decreases e - i,
    {
        proof {
            vstd::arithmetic::power2::lemma_pow2_unfold((i + 1) as nat);
            if i + 1 < 20 {
                vstd::arithmetic::power2::lemma_pow2_strictly_increases((i + 1) as nat, 20);
            }
        }
        r = r * 2;
        i = i + 1;
    }
    proof {
        if e < 20 {
            vstd::arithmetic::power2::lemma_pow2_strictly_increases(e as nat, 20);
        }
    }
    r
}

/// The coefficients of a GLWE key read as an LWE key, polynomial after polynomial.
pub open spec fn glwe_key_as_lwe(key: GlweSecretKey) -> Seq<u64> {
    key.polys@.map_values(|p: Vec<u64>| p@).flatten()
}

/// A GLWE secret key: `glwe_dimension` binary polynomials of `polynomial_size`
/// coefficients.
pub struct GlweSecretKey {
    pub glwe_dimension: usize,
    pub polynomial_size: usize,
    pub polys: Vec<Vec<u64>>,
}

impl GlweSecretKey {
    pub open spec fn wf(&self) -> bool {
        &&& self.polys@.len() == self.glwe_dimension
        &&& forall|c: int|
            0 <= c < self.polys@.len() ==> #[trigger] self.polys@[c]@.len()
                == self.polynomial_size
    }

    /// Draws a uniform binary key from the secret stream of `generator`.
    pub fn generate(
        glwe_dimension: usize,
        polynomial_size: usize,
        generator: &mut EncryptionRandomGenerator,
    ) -> (r: Result<GlweSecretKey, GeneratorExhausted>)
        requires
            glwe_dimension <= 16,
            polynomial_size <= 0x10_0000,
        ensures
            final(generator).used() <= old(generator).used() + 0x100_0000,
            old(generator).used() + 0x100_0000 <= byte_budget() ==> r is Ok,
            r is Ok ==> r->Ok_0.wf(),
            r is Ok ==> r->Ok_0.glwe_dimension == glwe_dimension,
            r is Ok ==> r->Ok_0.polynomial_size == polynomial_size,
    {
        let mut polys: Vec<Vec<u64>> = Vec::new();
        while polys.len() < glwe_dimension
            invariant
                glwe_dimension <= 16,
                polynomial_size <= 0x10_0000,
                polys@.len() <= glwe_dimension,
                generator.used() <= old(generator).used() + polys@.len() * 0x10_0000,
                forall|c: int| 0 <= c < polys@.len() ==> #[trigger] polys@[c]@.len() == polynomial_size,
            decreases glwe_dimension - polys@.len(),
        {
            let p = generator.random_binary(polynomial_size)?;
            polys.push(p);
        }
        Ok(GlweSecretKey { glwe_dimension, polynomial_size, polys })
    }

    /// The LWE key of dimension `glwe_dimension * polynomial_size` made of the coefficients
    /// of the polynomials, in order.
    pub fn as_lwe_secret_key(&self) -> (r: LweSecretKey)
        requires
            self.wf(),
        ensures
            r.data@ == self.polys@.map_values(|p: Vec<u64>| p@).flatten(),
    {
        let mut data: Vec<u64> = Vec::new();
        let mut c: usize = 0;
        while c < self.polys.len()
            invariant
                c <= self.polys@.len(),
                data@ == self.polys@.subrange(0, c as int).map_values(|p: Vec<u64>| p@).flatten(),
            decreases self.polys@.len() - c,
        {
            let ghost before = data@;
            let mut t: usize = 0;
            while t < self.polys[c].len()
                invariant
                    c < self.polys@.len(),
                    t <= self.polys@[c as int]@.len(),
                    data@ == before + self.polys@[c as int]@.subrange(0, t as int),
                decreases self.polys@[c as int]@.len() - t,
            {
                data.push(self.polys[c][t]);
                t = t + 1;
                assert(data@ =~= before + self.polys@[c as int]@.subrange(0, t as int));
            }
            proof {
                let prev = self.polys@.subrange(0, c as int).map_values(|p: Vec<u64>| p@);
                let s = self.polys@.subrange(0, c + 1).map_values(|p: Vec<u64>| p@);
                assert(s =~= prev.push(self.polys@[c as int]@));
                assert(self.polys@[c as int]@.subrange(0, t as int) =~= self.polys@[c as int]@);
                prev.lemma_flatten_push(self.polys@[c as int]@);
            }
            c = c + 1;
        }
        assert(self.polys@.subrange(0, c as int) =~= self.polys@);
        LweSecretKey { data }
    }
}

/// `noise` plus the products of the first `c` masks with the matching key polynomials.
pub open spec fn glwe_body(noise: Seq<u64>, masks: Seq<Seq<u64>>, key: Seq<Seq<u64>>, c: nat) -> Seq<
    u64,
>
    decreases c,
{
    if c == 0 {
        noise
    } else {
        poly_mul_add_spec(glwe_body(noise, masks, key, (c - 1) as nat), masks[c - 1], key[c - 1])
    }
}

/// The GLWE sample with masks `masks` and noise `noise` under `key`, with `v` added to
/// coefficient 0 of component `component` (a mask, or the body for `component == k`).
pub open spec fn glwe_encryption(
    masks: Seq<Seq<u64>>,
    noise: Seq<u64>,
    key: Seq<Seq<u64>>,
    component: int,
    v: u64,
) -> Seq<Seq<u64>> {
    let k = masks.len() as int;
    let body = glwe_body(noise, masks, key, k as nat);
    Seq::new(
        (k + 1) as nat,
        |c: int|
            {
                let p = if c < k {
                    masks[c]
                } else {
                    body
                };
                if c == component {
                    p.update(0, wrap(p[0] + v) as u64)
                } else {
                    p
                }
            },
    )
}

/// Every coefficient of `noise` is some `e` with `|e| <= 2^noise_bound_log`, modulo `2^64`.
pub open spec fn bounded_noise(noise: Seq<u64>, noise_bound_log: u32) -> bool {
    forall|t: int|
        0 <= t < noise.len() ==> exists|e: int|
            -pow2(noise_bound_log as nat) <= e <= pow2(noise_bound_log as nat) && #[trigger] noise[t]
                == wrap(e)
}

/// `g` is a GLWE encryption under `key` (of `k` polynomials of `n` coefficients) of the
/// constant `v` placed in component `component`, with bounded noise.
pub open spec fn encrypts_glwe_constant(
    g: Seq<Seq<u64>>,
    key: Seq<Seq<u64>>,
    n: nat,
    component: int,
    v: u64,
    noise_bound_log: u32,
) -> bool {
    exists|masks: Seq<Seq<u64>>, noise: Seq<u64>|
        masks.len() == key.len() && (forall|c: int| 0 <= c < masks.len() ==> #[trigger] masks[c].len() == n)
            && noise.len() == n && bounded_noise(noise, noise_bound_log) && g
            == #[trigger] glwe_encryption(masks, noise, key, component, v)
}

/// A GLWE encryption of zero under `key`, with `v` added to coefficient 0 of component
/// `component`.
fn encrypt_glwe_with_constant(
    key: &GlweSecretKey,
    component: usize,
    v: u64,
    noise_bound_log: u32,
    generator: &mut EncryptionRandomGenerator,
) -> (r: Result<Vec<Vec<u64>>, GeneratorExhausted>)
    requires
        key.wf(),
        glwe_shape_ok(key.glwe_dimension, 1),
        1 <= key.polynomial_size <= 0x10_0000,
        component <= key.glwe_dimension,
        noise_bound_log < 62,
    ensures
        final(generator).used() <= old(generator).used() + 0x1000_0000,
        old(generator).used() + 0x1000_0000 <= byte_budget() ==> r is Ok,
        r is Ok ==> glwe_wf(r->Ok_0@, key.glwe_dimension as nat, key.polynomial_size as nat),
        r is Ok ==> encrypts_glwe_constant(
            glwe_view(r->Ok_0@),
            glwe_view(key.polys@),
            key.polynomial_size as nat,
            component as int,
            v,
            noise_bound_log,
        ),
{
    let k = key.glwe_dimension;
    let n = key.polynomial_size;
    let ghost kv = glwe_view(key.polys@);
    let mut masks: Vec<Vec<u64>> = Vec::new();
    let mut body: Vec<u64> = Vec::new();
    while body.len() < n
        invariant
            body@.len() <= n,
            n == key.polynomial_size <= 0x10_0000,
            noise_bound_log < 62,
            bounded_noise(body@, noise_bound_log),
            generator.used() <= old(generator).used() + 8 * body@.len(),
        decreases n - body@.len(),
    {
        let e = generator.random_noise(noise_bound_log)?;
        let ghost before = body@;
        body.push(e);
        proof {
            assert forall|t: int| 0 <= t < body@.len() implies exists|ee: int|
                -pow2(noise_bound_log as nat) <= ee <= pow2(noise_bound_log as nat) && #[trigger] body@[t]
                    == wrap(ee) by {
                if t < before.len() {
                    assert(before[t] == body@[t]);
                }
            }
        }
    }
    let ghost noise = body@;
    let ghost mut raw: Seq<Seq<u64>> = Seq::empty();
    let mut c: usize = 0;
    while c < k
        invariant
            key.wf(),
            k == key.glwe_dimension <= 16,
            n == key.polynomial_size <= 0x10_0000,
            kv == glwe_view(key.polys@),
            1 <= n,
            c <= k,
            component <= k,
            masks@.len() == c,
            raw.len() == c,
            generator.used() <= old(generator).used() + 0x80_0000 + c * 0x80_0000,
            forall|j: int| 0 <= j < c ==> #[trigger] masks@[j]@.len() == n,
            forall|j: int| 0 <= j < c ==> #[trigger] raw[j].len() == n,
            forall|j: int|
                0 <= j < c ==> #[trigger] masks@[j]@ == if j == component {
                    raw[j].update(0, wrap(raw[j][0] + v) as u64)
                } else {
                    raw[j]
                },
            noise.len() == n,
            body@ == glwe_body(noise, raw, kv, c as nat),
            body@.len() == n,
        decreases k - c,
    {
        let mut a = generator.random_mask(n)?;
        proof {
            assert(kv[c as int] == key.polys@[c as int]@);
            assert(glwe_body(noise, raw.push(a@), kv, c as nat) == glwe_body(noise, raw, kv, c as nat))
                by {
                lemma_glwe_body_prefix(noise, raw, raw.push(a@), kv, c as nat);
            }
        }
        poly_mul_acc(&mut body, &a, &key.polys[c]);
        proof {
            raw = raw.push(a@);
        }
        if c == component {
            let a0 = add_mod(a[0], v);
            a.set(0, a0);
        }
        masks.push(a);
        c = c + 1;
    }
    let ghost plain_body = body@;
    if component == k {
        let b0 = add_mod(body[0], v);
        body.set(0, b0);
    }
    masks.push(body);
    proof {
        assert(glwe_view(masks@) =~= glwe_encryption(raw, noise, kv, component as int, v));
    }
    Ok(masks)
}

/// The body only reads the first `c` masks.
proof fn lemma_glwe_body_prefix(
    noise: Seq<u64>,
    a: Seq<Seq<u64>>,
    b: Seq<Seq<u64>>,
    key: Seq<Seq<u64>>,
    c: nat,
)
    requires
        c <= a.len(),
        c <= b.len(),
        forall|j: int| 0 <= j < c ==> a[j] == b[j],
    ensures
        glwe_body(noise, a, key, c) == glwe_body(noise, b, key, c),
    decreases c,
{
    if c > 0 {
        lemma_glwe_body_prefix(noise, a, b, key, (c - 1) as nat);
    }
}

/// A bootstrapping key: one GGSW encryption under a GLWE key of each coefficient of an
/// LWE key.
pub struct LweBootstrapKey {
    pub input_lwe_dimension: usize,
    pub glwe_dimension: usize,
    pub log_polynomial_size: u32,
    pub polynomial_size: usize,
    pub decomp_base_log: u32,
    pub decomp_level_count: u32,
    pub ggsw_list: Vec<Vec<Vec<Vec<u64>>>>,
}

impl LweBootstrapKey {
    pub open spec fn wf(&self) -> bool {
        &&& glwe_shape_ok(self.glwe_dimension, self.log_polynomial_size)
        &&& self.polynomial_size == pow2_usize(self.log_polynomial_size)
        &&& decomposition_wf(self.decomp_base_log, self.decomp_level_count)
        &&& self.ggsw_list@.len() == self.input_lwe_dimension
        &&& forall|i: int|
            0 <= i < self.ggsw_list@.len() ==> ggsw_wf(
                #[trigger] self.ggsw_list@[i]@,
                self.glwe_dimension as nat,
                self.polynomial_size as nat,
                self.decomp_level_count as nat,
            )
    }

    /// The size of the LWE samples that a bootstrap with this key outputs.
    pub open spec fn output_lwe_size_spec(&self) -> int {
        self.glwe_dimension * self.polynomial_size + 1
    }

    pub fn input_lwe_dimension(&self) -> (r: usize)
        ensures
            r == self.input_lwe_dimension,
    {
        self.input_lwe_dimension
    }

    pub fn glwe_size(&self) -> (r: usize)
        requires
            self.wf(),
        ensures
            r == self.glwe_dimension + 1,
    {
        self.glwe_dimension + 1
    }

    pub fn polynomial_size(&self) -> (r: usize)
        ensures
            r == self.polynomial_size,
    {
        self.polynomial_size
    }

    /// The LWE dimension `glwe_dimension * polynomial_size` of the bootstrap's output.
    pub fn output_lwe_dimension(&self) -> (r: usize)
        requires
            self.wf(),
        ensures
            r == self.glwe_dimension * self.polynomial_size,
            r <= 16 * 0x10_0000,
    {
        proof {
            vstd::arithmetic::power2::lemma2_to64();
            if self.log_polynomial_size < 20 {
                vstd::arithmetic::power2::lemma_pow2_strictly_increases(
                    self.log_polynomial_size as nat,
                    20,
                );
            }
            assert(self.glwe_dimension * self.polynomial_size <= 16 * 0x10_0000)
                by (nonlinear_arith)
                requires
                    self.glwe_dimension <= 16,
                    self.polynomial_size <= 0x10_0000,
            ;
        }
        self.glwe_dimension * self.polynomial_size
    }
}

/// Generates a bootstrapping key from `lwe_key` to `glwe_key`.
pub fn par_allocate_and_generate_new_lwe_bootstrap_key(
    lwe_key: &LweSecretKey,
    glwe_key: &GlweSecretKey,
    log_polynomial_size: u32,
    decomp_base_log: u32,
    decomp_level_count: u32,
    noise_bound_log: u32,
    generator: &mut EncryptionRandomGenerator,
) -> (r: Result<LweBootstrapKey, GeneratorExhausted>)
    requires
        glwe_key.wf(),
        glwe_shape_ok(glwe_key.glwe_dimension, log_polynomial_size),
        glwe_key.polynomial_size == pow2_usize(log_polynomial_size),
        decomposition_wf(decomp_base_log, decomp_level_count),
        noise_bound_log < 62,
        lwe_key.data@.len() <= 0x10_0000,
    ensures
        final(generator).used() <= old(generator).used() + 0x800_0000_0000_0000,
        old(generator).used() + 0x800_0000_0000_0000 <= byte_budget() ==> r is Ok,
        r is Ok ==> r->Ok_0.wf(),
        r is Ok ==> r->Ok_0.input_lwe_dimension == lwe_key.data@.len(),
        r is Ok ==> r->Ok_0.glwe_dimension == glwe_key.glwe_dimension,
        r is Ok ==> r->Ok_0.polynomial_size == glwe_key.polynomial_size,
        r is Ok ==> r->Ok_0.log_polynomial_size == log_polynomial_size,
        r is Ok ==> forall|i: int, row: int|
            0 <= i < r->Ok_0.ggsw_list@.len() && 0 <= row < r->Ok_0.ggsw_list@[i]@.len()
                ==> #[trigger] encrypts_glwe_constant(
                glwe_view(r->Ok_0.ggsw_list@[i]@[row]@),
                glwe_view(glwe_key.polys@),
                glwe_key.polynomial_size as nat,
                row / (decomp_level_count as int),
                ggsw_row_constant(lwe_key.data@[i], decomp_base_log, decomp_level_count, row),
                noise_bound_log,
            ),
        r is Ok ==> r->Ok_0.decomp_base_log == decomp_base_log,
        r is Ok ==> r->Ok_0.decomp_level_count == decomp_level_count,
{
    let k = glwe_key.glwe_dimension;
    let n = glwe_key.polynomial_size;
    let lv = decomp_level_count;
    proof {
        vstd::arithmetic::power2::lemma2_to64();
        if log_polynomial_size < 20 {
            vstd::arithmetic::power2::lemma_pow2_strictly_increases(log_polynomial_size as nat, 20);
        }
        vstd::arithmetic::power2::lemma_pow2_pos(log_polynomial_size as nat);
        assert(decomp_level_count <= 63) by (nonlinear_arith)
            requires
                1 <= decomp_base_log,
                decomp_base_log * decomp_level_count <= 63,
        ;
    }
    let mut list: Vec<Vec<Vec<Vec<u64>>>> = Vec::new();
    let mut i: usize = 0;
    while i < lwe_key.data.len()
        invariant
            glwe_key.wf(),
            k == glwe_key.glwe_dimension,
            1 <= k <= 16,
            n == glwe_key.polynomial_size,
            1 <= n <= 0x10_0000,
            lv == decomp_level_count <= 63,
            decomposition_wf(decomp_base_log, decomp_level_count),
            noise_bound_log < 62,
            i <= lwe_key.data@.len(),
            lwe_key.data@.len() <= 0x10_0000,
            list@.len() == i,
            generator.used() <= old(generator).used() + i * 0x80_0000_0000,
            forall|j: int|
                0 <= j < i ==> ggsw_wf(
                    #[trigger] list@[j]@,
                    k as nat,
                    n as nat,
                    decomp_level_count as nat,
                ),
            forall|j: int, row: int|
                0 <= j < i && 0 <= row < list@[j]@.len() ==> #[trigger] encrypts_glwe_constant(
                    glwe_view(list@[j]@[row]@),
                    glwe_view(glwe_key.polys@),
                    n as nat,
                    row / (decomp_level_count as int),
                    ggsw_row_constant(lwe_key.data@[j], decomp_base_log, decomp_level_count, row),
                    noise_bound_log,
                ),
        decreases lwe_key.data@.len() - i,
    {
        let m = lwe_key.data[i];
        let mut rows: Vec<Vec<Vec<u64>>> = Vec::new();
        let mut c: usize = 0;
        while c <= k
            invariant
                glwe_key.wf(),
                k == glwe_key.glwe_dimension,
                1 <= k <= 16,
                n == glwe_key.polynomial_size,
                1 <= n <= 0x10_0000,
                lv == decomp_level_count <= 63,
                decomposition_wf(decomp_base_log, decomp_level_count),
                noise_bound_log < 62,
                c <= k + 1,
                rows@.len() == c * lv,
                c * lv <= 17 * 63,
                i < lwe_key.data@.len() <= 0x10_0000,
                generator.used() <= old(generator).used() + i * 0x80_0000_0000 + rows@.len()
                    * 0x1000_0000,
                forall|r: int|
                    0 <= r < rows@.len() ==> glwe_wf(#[trigger] rows@[r]@, k as nat, n as nat),
                i < lwe_key.data@.len(),
                m == lwe_key.data@[i as int],
                forall|row: int|
                    0 <= row < rows@.len() ==> #[trigger] encrypts_glwe_constant(
                        glwe_view(rows@[row]@),
                        glwe_view(glwe_key.polys@),
                        n as nat,
                        row / (decomp_level_count as int),
                        ggsw_row_constant(m, decomp_base_log, decomp_level_count, row),
                        noise_bound_log,
                    ),
            decreases k + 1 - c,
        {
            proof {
                assert(c * lv + lv <= 17 * 63) by (nonlinear_arith)
                    requires
                        c <= k,
                        k <= 16,
                        lv <= 63,
                ;
            }
            let mut l: u32 = 1;
            while l <= lv
                invariant
                    glwe_key.wf(),
                    k == glwe_key.glwe_dimension,
                    1 <= k <= 16,
                    n == glwe_key.polynomial_size,
                    1 <= n <= 0x10_0000,
                    lv == decomp_level_count <= 63,
                    decomposition_wf(decomp_base_log, decomp_level_count),
                    noise_bound_log < 62,
                    c <= k,
                    1 <= l <= lv + 1,
                    rows@.len() == c * lv + (l - 1),
                    c * lv + (l - 1) <= 17 * 63,
                    c * lv + lv <= 17 * 63,
                    i < lwe_key.data@.len() <= 0x10_0000,
                    generator.used() <= old(generator).used() + i * 0x80_0000_0000 + rows@.len()
                        * 0x1000_0000,
                    forall|r: int|
                        0 <= r < rows@.len() ==> glwe_wf(
                            #[trigger] rows@[r]@,
                            k as nat,
                            n as nat,
                        ),
                    forall|row: int|
                        0 <= row < rows@.len() ==> #[trigger] encrypts_glwe_constant(
                            glwe_view(rows@[row]@),
                            glwe_view(glwe_key.polys@),
                            n as nat,
                            row / (decomp_level_count as int),
                            ggsw_row_constant(m, decomp_base_log, decomp_level_count, row),
                            noise_bound_log,
                        ),
                decreases lv + 1 - l,
            {
                proof {
                    assert(decomp_base_log * l <= decomp_base_log * decomp_level_count)
                        by (nonlinear_arith)
                        requires
                            l <= decomp_level_count,
                    ;
                }
                let w = level_weight(decomp_base_log, l);
                let row = encrypt_glwe_with_constant(
                    glwe_key,
                    c,
                    mul_mod(m, w),
                    noise_bound_log,
                    generator,
                )?;
                proof {
                    let j = rows@.len() as int;
                    vstd::arithmetic::div_mod::lemma_fundamental_div_mod_converse(
                        j,
                        decomp_level_count as int,
                        c as int,
                        (l - 1) as int,
                    );
                    assert(ggsw_row_constant(m, decomp_base_log, decomp_level_count, j) == mul_mod_spec(m, w));
                }
                rows.push(row);
                l = l + 1;
            }
            proof {
                assert((c + 1) * lv == c * lv + lv) by (nonlinear_arith);
                assert((c + 1) * lv <= 17 * 63) by (nonlinear_arith)
                    requires
                        c <= k,
                        k <= 16,
                        lv <= 63,
                ;
            }
            c = c + 1;
        }
        proof {
            assert(rows@.len() * 0x1000_0000 <= 0x80_0000_0000);
        }
        list.push(rows);
        i = i + 1;
    }
    Ok(
        LweBootstrapKey {
            input_lwe_dimension: lwe_key.data.len(),
            glwe_dimension: k,
            log_polynomial_size,
            polynomial_size: n,
            decomp_base_log,
            decomp_level_count,
            ggsw_list: list,
        },
    )
}

/// `a * 2N / 2^64` rounded to the nearest integer, modulo `2N`.
pub open spec fn modulus_switch_spec(a: u64, log_polynomial_size: u32, n: int) -> int {
    (((a >> ((62 - log_polynomial_size) as u32)) + 1) / 2) % (2 * n)
}

/// `a * 2N / 2^64` rounded to the nearest integer, modulo `2N`, where
/// `N = 2^log_polynomial_size`.
pub fn modulus_switch(a: u64, log_polynomial_size: u32, n: usize) -> (r: usize)
    requires
        1 <= log_polynomial_size <= 20,
        n == pow2_usize(log_polynomial_size),
    ensures
        r < 2 * n,
        r == modulus_switch_spec(a, log_polynomial_size, n as int),
{
    let shift: u32 = 62 - log_polynomial_size;
    let t = a >> shift;
    proof {
        assert(t < 0x100_0000) by (bit_vector)
            requires
                t == a >> shift,
                shift == 62 - log_polynomial_size,
                1 <= log_polynomial_size <= 20,
        ;
        vstd::arithmetic::power2::lemma2_to64();
        vstd::arithmetic::power2::lemma_pow2_pos(log_polynomial_size as nat);
        if log_polynomial_size < 20 {
            vstd::arithmetic::power2::lemma_pow2_strictly_increases(log_polynomial_size as nat, 20);
        }
    }
    let half = (t + 1) / 2;
    assert(half < 0x100_0000);
    let rounded = half as usize;
    rounded % (2 * n)
}

/// The mask part that component `p` of a GLWE sample gives to the extracted LWE sample:
/// `p[0]`, then `-p[n - t]` for `t` in `1..n`.
pub open spec fn extracted_component(p: Seq<u64>, n: int) -> Seq<u64> {
    Seq::new(n as nat, |t: int| if t == 0 { p[0] } else { wrap(-p[n - t]) as u64 })
}

/// The LWE sample extracted from the constant coefficient of the GLWE sample `g`: the
/// extracted masks of its `k` mask components, then the constant coefficient of its body.
pub open spec fn extracted_sample(g: Seq<Seq<u64>>, k: int, n: int) -> Seq<u64> {
    g.subrange(0, k).map_values(|p: Seq<u64>| extracted_component(p, n)).flatten().push(g[k][0])
}

/// The LWE sample of dimension `k * n` whose phase is the constant coefficient of the phase
/// of the GLWE sample `g`.
pub fn sample_extract_constant(
    g: &Vec<Vec<u64>>,
    k: usize,
    n: usize,
    ciphertext_modulus: CiphertextModulus,
) -> (r: LweCiphertext)
    requires
        glwe_wf(g@, k as nat, n as nat),
        1 <= k <= 16,
        1 <= n <= 0x10_0000,
    ensures
        r.data@ == extracted_sample(glwe_view(g@), k as int, n as int),
        r.data@.len() == k * n + 1,
        r.ciphertext_modulus == ciphertext_modulus,
{
    let ghost gv = glwe_view(g@);
    let mut data: Vec<u64> = Vec::new();
    let mut c: usize = 0;
    assert(gv.subrange(0, 0).map_values(|p: Seq<u64>| extracted_component(p, n as int)).flatten()
        =~= Seq::<u64>::empty());
    while c < k
        invariant
            glwe_wf(g@, k as nat, n as nat),
            1 <= k <= 16,
            1 <= n <= 0x10_0000,
            c <= k,
            data@.len() == c * n,
            gv == glwe_view(g@),
            data@ == gv.subrange(0, c as int).map_values(
                |p: Seq<u64>| extracted_component(p, n as int),
            ).flatten(),
        decreases k - c,
    {
        let ghost base = data@;
        let ghost comp = extracted_component(g@[c as int]@, n as int);
        data.push(g[c][0]);
        assert(data@ =~= base + comp.subrange(0, 1));
        let mut t: usize = 1;
        while t < n
            invariant
                glwe_wf(g@, k as nat, n as nat),
                c < k,
                1 <= t <= n,
                data@.len() == c * n + t,
                comp == extracted_component(g@[c as int]@, n as int),
                data@ == base + comp.subrange(0, t as int),
            decreases n - t,
        {
            data.push(sub_mod(0, g[c][n - t]));
            t = t + 1;
            assert(data@ =~= base + comp.subrange(0, t as int));
        }
        proof {
            assert((c + 1) * n == c * n + n) by (nonlinear_arith);
            assert(comp.subrange(0, t as int) =~= comp);
            assert(gv[c as int] == g@[c as int]@);
            assert(gv.subrange(0, c + 1) =~= gv.subrange(0, c as int).push(gv[c as int]));
            crate::core_crypto::flatten::lemma_map_flatten_push(
                gv.subrange(0, c as int),
                gv[c as int],
                |p: Seq<u64>| extracted_component(p, n as int),
            );
        }
        c = c + 1;
    }
    data.push(g[k][0]);
    assert(gv[k as int] == g@[k as int]@);
    LweCiphertext { data, ciphertext_modulus }
}

/// The coefficients of every GGSW sample of a bootstrapping key.
pub open spec fn bsk_view(bsk: LweBootstrapKey) -> Seq<Seq<Seq<Seq<u64>>>> {
    bsk.ggsw_list@.map_values(|g: Vec<Vec<Vec<u64>>>| ggsw_view(g@))
}

/// One selection step: with a nonzero switched coefficient `a`, `acc` plus the external
/// product of `ggsw` with `X^a * acc - acc`.
pub open spec fn cmux_step(acc: Seq<Seq<u64>>, ggsw: Seq<Seq<Seq<u64>>>, a: int, bsk: LweBootstrapKey) -> Seq<
    Seq<u64>,
> {
    if a == 0 {
        acc
    } else {
        glwe_add_spec(
            acc,
            external_product_spec(
                ggsw,
                glwe_sub_spec(glwe_monomial_spec(acc, a), acc),
                bsk.glwe_dimension as nat,
                bsk.polynomial_size as nat,
                bsk.decomp_base_log,
                bsk.decomp_level_count,
            ),
        )
    }
}

/// `acc` after the selection steps of the first `i` mask coefficients of `input`.
pub open spec fn rotate_steps(acc: Seq<Seq<u64>>, input: Seq<u64>, bsk: LweBootstrapKey, i: nat) -> Seq<
    Seq<u64>,
>
    decreases i,
{
    if i == 0 {
        acc
    } else {
        cmux_step(
            rotate_steps(acc, input, bsk, (i - 1) as nat),
            bsk_view(bsk)[i - 1],
            modulus_switch_spec(input[i - 1], bsk.log_polynomial_size, bsk.polynomial_size as int),
            bsk,
        )
    }
}

/// The blind rotation of `lut` by the switched phase of `input`: first by the negated body,
/// then one selection step per mask coefficient.
pub open spec fn blind_rotate_spec(input: Seq<u64>, lut: Seq<Seq<u64>>, bsk: LweBootstrapKey) -> Seq<
    Seq<u64>,
> {
    let n = bsk.polynomial_size as int;
    let b = modulus_switch_spec(input[bsk.input_lwe_dimension as int], bsk.log_polynomial_size, n);
    rotate_steps(
        glwe_monomial_spec(lut, (2 * n - b) % (2 * n)),
        input,
        bsk,
        bsk.input_lwe_dimension as nat,
    )
}

/// The programmable bootstrap of `input` through `lut`: the blind rotation, then the
/// sample extracted from its constant coefficient.
pub open spec fn pbs_spec(input: Seq<u64>, lut: Seq<Seq<u64>>, bsk: LweBootstrapKey) -> Seq<u64> {
    extracted_sample(
        blind_rotate_spec(input, lut, bsk),
        bsk.glwe_dimension as int,
        bsk.polynomial_size as int,
    )
}

/// Rotates `lut` by the negated phase of `input`, switched to `2N`, one bootstrapping key
/// row at a time: [`blind_rotate_spec`].
pub fn blind_rotate(input: &LweCiphertext, lut: &Vec<Vec<u64>>, bsk: &LweBootstrapKey) -> (r: Vec<
    Vec<u64>,
>)
    requires
        bsk.wf(),
        glwe_wf(lut@, bsk.glwe_dimension as nat, bsk.polynomial_size as nat),
        input.data@.len() == bsk.input_lwe_dimension + 1,
    ensures
        glwe_wf(r@, bsk.glwe_dimension as nat, bsk.polynomial_size as nat),
        glwe_view(r@) == blind_rotate_spec(input.data@, glwe_view(lut@), *bsk),
{
    let k = bsk.glwe_dimension;
    let n = bsk.polynomial_size;
    let log_n = bsk.log_polynomial_size;
    let dim = bsk.input_lwe_dimension;
    proof {
        vstd::arithmetic::power2::lemma2_to64();
        vstd::arithmetic::power2::lemma_pow2_pos(log_n as nat);
        if log_n < 20 {
            vstd::arithmetic::power2::lemma_pow2_strictly_increases(log_n as nat, 20);
        }
    }
    let b = modulus_switch(input.data[dim], log_n, n);
    let mut acc = glwe_monomial_mul(lut, (2 * n - b) % (2 * n), k, n);
    let ghost acc0 = glwe_view(acc@);
    let mut i: usize = 0;
    while i < dim
        invariant
            bsk.wf(),
            k == bsk.glwe_dimension,
            n == bsk.polynomial_size,
            log_n == bsk.log_polynomial_size,
            dim == bsk.input_lwe_dimension,
            input.data@.len() == dim + 1,
            1 <= n <= 0x10_0000,
            i <= dim,
            glwe_wf(acc@, k as nat, n as nat),
            glwe_view(acc@) == rotate_steps(acc0, input.data@, *bsk, i as nat),
        decreases dim - i,
    {
        let a = modulus_switch(input.data[i], log_n, n);
        if a != 0 {
            let rotated = glwe_monomial_mul(&acc, a, k, n);
            let diff = glwe_sub(&rotated, &acc, k, n);
            let prod = external_product(
                &bsk.ggsw_list[i],
                &diff,
                k,
                n,
                bsk.decomp_base_log,
                bsk.decomp_level_count,
            );
            proof {
                assert(bsk_view(*bsk)[i as int] == ggsw_view(bsk.ggsw_list@[i as int]@));
            }
            acc = glwe_add(acc, &prod, k, n);
        }
        i = i + 1;
    }
    acc
}

/// Bootstraps `input` through the lookup table `accumulator`: [`pbs_spec`], an LWE sample
/// of dimension `glwe_dimension * polynomial_size` under the key that `bsk` was built from.
pub fn programmable_bootstrap_lwe_ciphertext(
    input: &LweCiphertext,
    accumulator: &Vec<Vec<u64>>,
    bsk: &LweBootstrapKey,
) -> (r: LweCiphertext)
    requires
        bsk.wf(),
        glwe_wf(accumulator@, bsk.glwe_dimension as nat, bsk.polynomial_size as nat),
        input.data@.len() == bsk.input_lwe_dimension + 1,
    ensures
        r.data@ == pbs_spec(input.data@, glwe_view(accumulator@), *bsk),
        r.data@.len() == bsk.output_lwe_size_spec(),
        r.ciphertext_modulus == input.ciphertext_modulus,
{
    proof {
        vstd::arithmetic::power2::lemma2_to64();
        vstd::arithmetic::power2::lemma_pow2_pos(bsk.log_polynomial_size as nat);
        if bsk.log_polynomial_size < 20 {
            vstd::arithmetic::power2::lemma_pow2_strictly_increases(
                bsk.log_polynomial_size as nat,
                20,
            );
        }
    }
    let rotated = blind_rotate(input, accumulator, bsk);
    sample_extract_constant(
        &rotated,
        bsk.glwe_dimension,
        bsk.polynomial_size,
        input.ciphertext_modulus,
    )
}

/// The accumulator `(0, ..., 0, body)` of a bootstrap with `bsk`.
pub fn trivial_accumulator(body: Vec<u64>, bsk: &LweBootstrapKey) -> (r: Vec<Vec<u64>>)
    requires
        bsk.wf(),
        body@.len() == bsk.polynomial_size,
    ensures
        glwe_wf(r@, bsk.glwe_dimension as nat, bsk.polynomial_size as nat),
        glwe_view(r@) == trivial_glwe_spec(body@, bsk.glwe_dimension as nat),
        r@[bsk.glwe_dimension as int]@ == body@,
{
    trivial_glwe(body, bsk.glwe_dimension)
}

/// Flattening `s.len()` sequences of `n` elements each gives `s.len() * n` elements.
pub proof fn lemma_flatten_len(s: Seq<Seq<u64>>, n: nat)
    requires
        forall|i: int| 0 <= i < s.len() ==> #[trigger] s[i].len() == n,
    ensures
        s.flatten().len() == s.len() * n,
    decreases s.len(),
{
    if s.len() == 0 {
    } else {
        let init = s.drop_last();
        lemma_flatten_len(init, n);
        assert(s =~= init.push(s.last()));
        init.lemma_flatten_push(s.last());
        assert(s.len() * n == init.len() * n + n) by (nonlinear_arith)
            requires
                s.len() == init.len() + 1,
        ;
    }
}

/// A GLWE key of a valid shape has at most `16 * 2^20` coefficients.
pub proof fn lemma_glwe_key_small(key: &GlweSecretKey, log_polynomial_size: u32)
    requires
        key.wf(),
        glwe_shape_ok(key.glwe_dimension, log_polynomial_size),
        key.polynomial_size == pow2_usize(log_polynomial_size),
    ensures
        key.glwe_dimension * key.polynomial_size <= 0x100_0000,
{
    vstd::arithmetic::power2::lemma2_to64();
    if log_polynomial_size < 20 {
        vstd::arithmetic::power2::lemma_pow2_strictly_increases(log_polynomial_size as nat, 20);
    }
    assert(key.glwe_dimension * key.polynomial_size <= 16 * 0x10_0000) by (nonlinear_arith)
        requires
            key.glwe_dimension <= 16,
            key.polynomial_size <= 0x10_0000,
    ;
}

/// The flattened GLWE key has `glwe_dimension * polynomial_size` coefficients.
pub proof fn lemma_glwe_key_len(key: &GlweSecretKey)
    requires
        key.wf(),
    ensures
        key.polys@.map_values(|p: Vec<u64>| p@).flatten().len() == key.glwe_dimension
            * key.polynomial_size,
{
    let s = key.polys@.map_values(|p: Vec<u64>| p@);
    assert forall|i: int| 0 <= i < s.len() implies #[trigger] s[i].len()
        == key.polynomial_size by {
        assert(s[i] == key.polys@[i]@);
    }
    lemma_flatten_len(s, key.polynomial_size as nat);
}

} // verus!
