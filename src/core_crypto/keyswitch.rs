//! Gadget decomposition and LWE keyswitching between two secret keys.
use vstd::prelude::*;
use crate::core_crypto::lwe::{
    CiphertextModulus, LweCiphertext, LweSecretKey, add_mod, encrypt_lwe_with_mask,
    encrypts_with_noise, mul_mod, sub_mod, wrap,
};
use crate::core_crypto::random::{EncryptionRandomGenerator, GeneratorExhausted, byte_budget};

verus! {

/// A base `2^base_log` decomposition with `level_count` levels; together they cover at most
/// 63 of the 64 bits of a coefficient.
pub open spec fn decomposition_wf(base_log: u32, level_count: u32) -> bool {
    &&& 1 <= base_log
    &&& 1 <= level_count
    &&& base_log * level_count <= 63
}

/// One step of the balanced decomposition of `state`: the low digit, shifted into
/// `[-2^(base_log-1), 2^(base_log-1)]` with a carry into the rest, and the next state.
pub open spec fn digit_step(state: u64, base_log: u32) -> (u64, u64) {
    let mask = ((1u64 << base_log) - 1) as u64;
    let res = state & mask;
    let rest = state >> base_log;
    let carry = (((wrap(res - 1) as u64) | rest) & res) >> ((base_log - 1) as u32);
    (wrap(res - (carry << base_log)) as u64, wrap(rest + carry) as u64)
}

/// The `n` balanced digits of `state`, least significant first.
pub open spec fn low_digits(state: u64, base_log: u32, n: nat) -> Seq<u64>
    decreases n,
{
    if n == 0 {
        Seq::empty()
    } else {
        let (d, next) = digit_step(state, base_log);
        seq![d] + low_digits(next, base_log, (n - 1) as nat)
    }
}

/// `v` rounded to its `base_log * level_count` most significant bits, shifted down.
pub open spec fn rounded_top(v: u64, base_log: u32, level_count: u32) -> u64 {
    let non_rep = (64 - base_log * level_count) as u32;
    let msb = (v >> ((non_rep - 1) as u32)) & 1;
    ((wrap((v >> non_rep) + msb) as u64) << non_rep) >> non_rep
}

/// The balanced base-`2^base_log` digits of `v` rounded to its `base_log * level_count`
/// most significant bits, most significant first: digit `l` has weight
/// `2^(64 - base_log * (l + 1))`, and a negative digit is stored modulo `2^64`.
pub open spec fn decompose_spec(v: u64, base_log: u32, level_count: u32) -> Seq<u64> {
    let d = low_digits(rounded_top(v, base_log, level_count), base_log, level_count as nat);
    Seq::new(level_count as nat, |l: int| d[level_count - 1 - l])
}

/// Computes [`decompose_spec`].
pub fn decompose(v: u64, base_log: u32, level_count: u32) -> (r: Vec<u64>)
    requires
        decomposition_wf(base_log, level_count),
    ensures
        r@ == decompose_spec(v, base_log, level_count),
        r@.len() == level_count,
{
    proof {
        assert(1 <= base_log * level_count && base_log <= base_log * level_count)
            by (nonlinear_arith)
            requires
                1 <= base_log,
                1 <= level_count,
        ;
    }
    let total: u32 = base_log * level_count;
    let non_rep: u32 = 64 - total;
    let msb = (v >> (non_rep - 1)) & 1;
    let top = add_mod(v >> non_rep, msb);
    let mut state: u64 = top << non_rep >> non_rep;
    let ghost init = state;
    assert(init == rounded_top(v, base_log, level_count));
    proof {
        assert(1u64 << base_log >= 1) by (bit_vector)
            requires
                1 <= base_log <= 63,
        ;
    }
    let mask: u64 = (1u64 << base_log) - 1;
    let mut digits: Vec<u64> = Vec::new();
    let mut l: u32 = 0;
    while l < level_count
        invariant
            l <= level_count,
            digits@.len() == l,
            decomposition_wf(base_log, level_count),
            1 <= base_log <= 63,
            mask == ((1u64 << base_log) - 1) as u64,
            digits@ + low_digits(state, base_log, (level_count - l) as nat) == low_digits(
                init,
                base_log,
                level_count as nat,
            ),
        decreases level_count - l,
    {
        let ghost before = state;
        let res = state & mask;
        let rest = state >> base_log;
        let carry = ((sub_mod(res, 1) | rest) & res) >> (base_log - 1);
        let next = add_mod(rest, carry);
        let d = sub_mod(res, carry << base_log);
        proof {
            assert((d, next) == digit_step(before, base_log));
            let tail = low_digits(next, base_log, (level_count - l - 1) as nat);
            assert(low_digits(before, base_log, (level_count - l) as nat) == seq![d] + tail);
            assert(digits@.push(d) + tail =~= digits@ + (seq![d] + tail));
        }
        digits.push(d);
        state = next;
        l = l + 1;
    }
    assert(digits@ =~= low_digits(init, base_log, level_count as nat));
    // Digits came out least significant first.
    let mut out: Vec<u64> = Vec::new();
    let mut k: usize = digits.len();
    while k > 0
        invariant
            k <= digits@.len(),
            digits@.len() == level_count,
            out@.len() == digits@.len() - k,
            forall|j: int| 0 <= j < out@.len() ==> out@[j] == digits@[level_count - 1 - j],
        decreases k,
    {
        k = k - 1;
        out.push(digits[k]);
    }
    assert(out@ =~= decompose_spec(v, base_log, level_count));
    out
}

/// The weight `2^(64 - base_log * level)` of the digit of level `level` (from 1), as a word.
pub fn level_weight(base_log: u32, level: u32) -> (r: u64)
    requires
        1 <= base_log,
        1 <= level,
        base_log * level <= 63,
    ensures
        r == vstd::arithmetic::power2::pow2((64 - base_log * level) as nat),
{
    proof {
        assert(1 <= base_log * level) by (nonlinear_arith)
            requires
                1 <= base_log,
                1 <= level,
        ;
    }
    let s: u32 = 64 - base_log * level;
    proof {
        vstd::arithmetic::power2::lemma_pow2_strictly_increases(s as nat, 64);
        vstd::arithmetic::power2::lemma2_to64();
        vstd::bits::lemma_u64_shl_is_mul(1, s as u64);
    }
    1u64 << s
}

/// A keyswitching key: for each coefficient of the input key and each level, an
/// encryption under the output key of that coefficient times the level's weight.
pub struct LweKeyswitchKey {
    pub decomp_base_log: u32,
    pub decomp_level_count: u32,
    pub input_lwe_dimension: usize,
    pub output_lwe_size: usize,
    pub ciphertext_modulus: CiphertextModulus,
    pub data: Vec<LweCiphertext>,
}

pub proof fn lemma_grid_index(i: int, l: int, rows: int, cols: int)
    requires
        0 <= i < rows,
        0 <= l < cols,
    ensures
        0 <= i * cols + l < rows * cols,
        (i + 1) * cols == i * cols + cols,
{
    assert(i * cols + l < rows * cols) by (nonlinear_arith)
        requires
            0 <= i < rows,
            0 <= l < cols,
    ;
    assert(0 <= i * cols) by (nonlinear_arith)
        requires
            0 <= i,
            0 <= cols,
    ;
    assert((i + 1) * cols == i * cols + cols) by (nonlinear_arith);
}

impl LweKeyswitchKey {
    pub open spec fn wf(&self) -> bool {
        &&& decomposition_wf(self.decomp_base_log, self.decomp_level_count)
        &&& self.output_lwe_size >= 1
        &&& self.data@.len() == self.input_lwe_dimension * self.decomp_level_count
        &&& forall|i: int|
            0 <= i < self.data@.len() ==> #[trigger] self.data@[i].data@.len()
                == self.output_lwe_size
    }

    pub fn output_lwe_size(&self) -> (r: usize)
        ensures
            r == self.output_lwe_size,
    {
        self.output_lwe_size
    }

    pub fn input_lwe_dimension(&self) -> (r: usize)
        ensures
            r == self.input_lwe_dimension,
    {
        self.input_lwe_dimension
    }
}

/// `out -= digit * ct`, coefficient-wise modulo `2^64`.
fn sub_scaled_assign(out: &mut Vec<u64>, ct: &Vec<u64>, digit: u64)
    requires
        old(out)@.len() == ct@.len(),
    ensures
        final(out)@.len() == old(out)@.len(),
        forall|j: int|
            0 <= j < ct@.len() ==> final(out)@[j] == wrap(old(out)@[j] - wrap(ct@[j] * digit)),
{
    let n = out.len();
    let mut j: usize = 0;
    while j < n
        invariant
            n == out@.len() == ct@.len() == old(out)@.len(),
            j <= n,
            forall|k: int|
                0 <= k < j ==> out@[k] == wrap(old(out)@[k] - wrap(ct@[k] * digit)),
            forall|k: int| j <= k < n ==> out@[k] == old(out)@[k],
        decreases n - j,
    {
        let p = mul_mod(ct[j], digit);
        let v = sub_mod(out[j], p);
        out.set(j, v);
        j = j + 1;
    }
}

/// `out - digit * row`, coefficient-wise modulo `2^64`.
pub open spec fn sub_scaled_spec(out: Seq<u64>, row: Seq<u64>, digit: u64) -> Seq<u64> {
    Seq::new(out.len(), |j: int| wrap(out[j] - wrap(row[j] * digit)) as u64)
}

/// The sample `(0, ..., 0, body)` of `size` coefficients.
pub open spec fn trivial_spec(body: u64, size: nat) -> Seq<u64> {
    Seq::new(size, |j: int| if j == size - 1 { body } else { 0u64 })
}

/// The rows of a keyswitching key, as coefficient sequences.
pub open spec fn ksk_rows(ksk: LweKeyswitchKey) -> Seq<Seq<u64>> {
    ksk.data@.map_values(|ct: LweCiphertext| ct.data@)
}

/// `acc` after subtracting the first `l` levels of input coefficient `i`: digit `l` times
/// row `i * levels + l`.
pub open spec fn ks_levels(
    acc: Seq<u64>,
    rows: Seq<Seq<u64>>,
    digits: Seq<u64>,
    i: int,
    levels: int,
    l: nat,
) -> Seq<u64>
    decreases l,
{
    if l == 0 {
        acc
    } else {
        sub_scaled_spec(
            ks_levels(acc, rows, digits, i, levels, (l - 1) as nat),
            rows[i * levels + l - 1],
            digits[l - 1],
        )
    }
}

/// The keyswitch of `input` after its first `i` mask coefficients.
pub open spec fn ks_coeffs(ksk: LweKeyswitchKey, input: Seq<u64>, i: nat) -> Seq<u64>
    decreases i,
{
    if i == 0 {
        trivial_spec(input[ksk.input_lwe_dimension as int], ksk.output_lwe_size as nat)
    } else {
        ks_levels(
            ks_coeffs(ksk, input, (i - 1) as nat),
            ksk_rows(ksk),
            decompose_spec(input[i - 1], ksk.decomp_base_log, ksk.decomp_level_count),
            i - 1,
            ksk.decomp_level_count as int,
            ksk.decomp_level_count as nat,
        )
    }
}

/// The keyswitch of `input` by `ksk`: the body of `input`, minus, for every mask
/// coefficient and level, its digit times the matching row.
pub open spec fn keyswitch_spec(ksk: LweKeyswitchKey, input: Seq<u64>) -> Seq<u64> {
    ks_coeffs(ksk, input, ksk.input_lwe_dimension as nat)
}

/// Switches `input`, a sample under the key that `ksk` comes from, to a sample under the
/// key that `ksk` encrypts to: [`keyswitch_spec`].
pub fn keyswitch_lwe_ciphertext(ksk: &LweKeyswitchKey, input: &LweCiphertext) -> (r: LweCiphertext)
    requires
        ksk.wf(),
        input.data@.len() == ksk.input_lwe_dimension + 1,
    ensures
        r.data@ == keyswitch_spec(*ksk, input.data@),
        r.data@.len() == ksk.output_lwe_size,
        r.ciphertext_modulus == input.ciphertext_modulus,
{
    let n_out = ksk.output_lwe_size;
    let n_in = ksk.input_lwe_dimension;
    let levels = ksk.decomp_level_count as usize;
    let total = ksk.data.len();
    let mut out = LweCiphertext::new_trivial(input.data[n_in], n_out, input.ciphertext_modulus);
    assert(out.data@ =~= ks_coeffs(*ksk, input.data@, 0));
    let mut i: usize = 0;
    while i < n_in
        invariant
            ksk.wf(),
            n_in == ksk.input_lwe_dimension,
            levels == ksk.decomp_level_count,
            total == ksk.data@.len(),
            input.data@.len() == n_in + 1,
            i <= n_in,
            out.data@.len() == n_out == ksk.output_lwe_size,
            out.ciphertext_modulus == input.ciphertext_modulus,
            out.data@ == ks_coeffs(*ksk, input.data@, i as nat),
        decreases n_in - i,
    {
        let digits = decompose(input.data[i], ksk.decomp_base_log, ksk.decomp_level_count);
        let ghost start = out.data@;
        let mut l: usize = 0;
        while l < levels
            invariant
                ksk.wf(),
                n_in == ksk.input_lwe_dimension,
                levels == ksk.decomp_level_count,
                total == ksk.data@.len(),
                digits@.len() == levels,
                i < n_in,
                l <= levels,
                out.data@.len() == n_out == ksk.output_lwe_size,
                out.ciphertext_modulus == input.ciphertext_modulus,
                out.data@ == ks_levels(start, ksk_rows(*ksk), digits@, i as int, levels as int, l as nat),
            decreases levels - l,
        {
            proof {
                lemma_grid_index(i as int, l as int, n_in as int, levels as int);
            }
            let idx = i * levels + l;
            let ghost before = out.data@;
            sub_scaled_assign(&mut out.data, &ksk.data[idx].data, digits[l]);
            proof {
                assert(ksk_rows(*ksk)[idx as int] == ksk.data@[idx as int].data@);
                assert(out.data@ =~= sub_scaled_spec(before, ksk_rows(*ksk)[idx as int], digits@[l as int]));
            }
            l = l + 1;
        }
        i = i + 1;
    }
    out
}

/// What row `j` of a keyswitching key encrypts: input key coefficient `j / levels` times
/// the weight `2^(64 - base_log * (j % levels + 1))` of level `j % levels + 1`.
pub open spec fn ksk_row_plaintext(input_key: Seq<u64>, base_log: u32, levels: u32, j: int) -> int {
    wrap(
        input_key[j / (levels as int)] * vstd::arithmetic::power2::pow2(
            (64 - base_log * (j % (levels as int) + 1)) as nat,
        ),
    )
}

/// Generates a keyswitching key from `input_key` to `output_key`, with noise bounded by
/// `2^noise_bound_log` in each row.
pub fn allocate_and_generate_new_lwe_keyswitch_key(
    input_key: &LweSecretKey,
    output_key: &LweSecretKey,
    decomp_base_log: u32,
    decomp_level_count: u32,
    noise_bound_log: u32,
    ciphertext_modulus: CiphertextModulus,
    generator: &mut EncryptionRandomGenerator,
) -> (r: Result<LweKeyswitchKey, GeneratorExhausted>)
    requires
        decomposition_wf(decomp_base_log, decomp_level_count),
        noise_bound_log < 62,
        output_key.data@.len() < usize::MAX,
        input_key.data@.len() <= 0x100_0000,
        output_key.data@.len() <= 0x100_0000,
    ensures
        final(generator).used() <= old(generator).used() + 0x400_0000_0000_0000,
        old(generator).used() + 0x400_0000_0000_0000 <= byte_budget() ==> r is Ok,
        r is Ok ==> r->Ok_0.wf(),
        r is Ok ==> r->Ok_0.input_lwe_dimension == input_key.data@.len(),
        r is Ok ==> r->Ok_0.output_lwe_size == output_key.data@.len() + 1,
        r is Ok ==> r->Ok_0.decomp_base_log == decomp_base_log,
        r is Ok ==> r->Ok_0.decomp_level_count == decomp_level_count,
        r is Ok ==> forall|j: int|
            0 <= j < r->Ok_0.data@.len() ==> #[trigger] encrypts_with_noise(
                r->Ok_0.data@[j].data@,
                output_key.data@,
                ksk_row_plaintext(input_key.data@, decomp_base_log, decomp_level_count, j),
                noise_bound_log,
            ),
{
    let n_in = input_key.data.len();
    let n_out = output_key.data.len();
    let mut data: Vec<LweCiphertext> = Vec::new();
    proof {
        assert(decomp_level_count <= 63) by (nonlinear_arith)
            requires
                1 <= decomp_base_log,
                decomp_base_log * decomp_level_count <= 63,
        ;
    }
    let mut i: usize = 0;
    while i < n_in
        invariant
            n_in == input_key.data@.len(),
            n_out == output_key.data@.len(),
            n_out < usize::MAX,
            decomposition_wf(decomp_base_log, decomp_level_count),
            decomp_level_count <= 63,
            noise_bound_log < 62,
            i <= n_in,
            n_in <= 0x100_0000,
            n_out <= 0x100_0000,
            generator.used() <= old(generator).used() + data@.len() * 0x1000_0000,
            data@.len() == i * decomp_level_count,
            forall|k: int| 0 <= k < data@.len() ==> #[trigger] data@[k].data@.len() == n_out + 1,
            forall|j: int|
                0 <= j < data@.len() ==> #[trigger] encrypts_with_noise(
                    data@[j].data@,
                    output_key.data@,
                    ksk_row_plaintext(input_key.data@, decomp_base_log, decomp_level_count, j),
                    noise_bound_log,
                ),
        decreases n_in - i,
    {
        proof {
            assert(i * decomp_level_count + decomp_level_count <= 0x100_0000 * 63)
                by (nonlinear_arith)
                requires
                    i < n_in,
                    n_in <= 0x100_0000,
                    decomp_level_count <= 63,
            ;
        }
        let mut l: u32 = 1;
        while l <= decomp_level_count
            invariant
                n_in == input_key.data@.len(),
                n_out == output_key.data@.len(),
                n_out < usize::MAX,
                decomposition_wf(decomp_base_log, decomp_level_count),
                decomp_level_count <= 63,
                noise_bound_log < 62,
                i < n_in,
                n_in <= 0x100_0000,
                n_out <= 0x100_0000,
                generator.used() <= old(generator).used() + data@.len() * 0x1000_0000,
                i * decomp_level_count + decomp_level_count <= 0x100_0000 * 63,
                1 <= l <= decomp_level_count + 1,
                data@.len() == i * decomp_level_count + (l - 1),
                forall|k: int|
                    0 <= k < data@.len() ==> #[trigger] data@[k].data@.len() == n_out + 1,
                forall|j: int|
                    0 <= j < data@.len() ==> #[trigger] encrypts_with_noise(
                        data@[j].data@,
                        output_key.data@,
                        ksk_row_plaintext(input_key.data@, decomp_base_log, decomp_level_count, j),
                        noise_bound_log,
                    ),
            decreases decomp_level_count + 1 - l,
        {
            proof {
                assert(decomp_base_log * l <= decomp_base_log * decomp_level_count)
                    by (nonlinear_arith)
                    requires
                        l <= decomp_level_count,
                ;
            }
            let w = level_weight(decomp_base_log, l);
            let p = mul_mod(input_key.data[i], w);
            let mask = generator.random_mask(n_out)?;
            let e = generator.random_noise(noise_bound_log)?;
            let ct = encrypt_lwe_with_mask(output_key, mask, p, e, ciphertext_modulus);
            proof {
                let j = data@.len() as int;
                vstd::arithmetic::div_mod::lemma_fundamental_div_mod_converse(
                    j,
                    decomp_level_count as int,
                    i as int,
                    (l - 1) as int,
                );
                assert(j == i * decomp_level_count + (l - 1));
                let bl = crate::core_crypto::random::pow2(noise_bound_log as nat);
                let ee = choose|ee: int| -bl <= ee <= bl && e == wrap(ee);
                crate::core_crypto::lwe::lemma_wrap_add(p as int, ee);
                assert(p == ksk_row_plaintext(input_key.data@, decomp_base_log, decomp_level_count, j));
                assert(encrypts_with_noise(ct.data@, output_key.data@, p as int, noise_bound_log));
            }
            data.push(ct);
            l = l + 1;
        }
        proof {
            lemma_grid_index(i as int, 0, n_in as int, decomp_level_count as int);
        }
        i = i + 1;
    }
    proof {
        assert(n_in * decomp_level_count <= 0x100_0000 * 63) by (nonlinear_arith)
            requires
                n_in <= 0x100_0000,
                decomp_level_count <= 63,
        ;
    }
    Ok(
        LweKeyswitchKey {
            decomp_base_log,
            decomp_level_count,
            input_lwe_dimension: n_in,
            output_lwe_size: n_out + 1,
            ciphertext_modulus,
            data,
        },
    )
}

} // verus!
