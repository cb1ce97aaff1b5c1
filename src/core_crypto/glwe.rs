//! Polynomials modulo `X^N + 1`, GLWE and GGSW samples, and the programmable bootstrap.
use vstd::prelude::*;
use crate::core_crypto::keyswitch::{decompose, decompose_spec, decomposition_wf, lemma_grid_index};
use crate::core_crypto::lwe::{add_mod, mul_mod, sub_mod, wrap};

verus! {

/// A GLWE sample: `k` mask polynomials followed by the body polynomial.
pub open spec fn glwe_wf(g: Seq<Vec<u64>>, k: nat, n: nat) -> bool {
    &&& g.len() == k + 1
    &&& forall|c: int| 0 <= c < g.len() ==> #[trigger] g[c]@.len() == n
}

/// A GGSW sample: `(k + 1) * levels` GLWE rows, row `c * levels + l` carrying the message
/// times the weight of level `l + 1` in component `c`.
pub open spec fn ggsw_wf(g: Seq<Vec<Vec<u64>>>, k: nat, n: nat, levels: nat) -> bool {
    &&& g.len() == (k + 1) * levels
    &&& forall|r: int| 0 <= r < g.len() ==> glwe_wf(#[trigger] g[r]@, k, n)
}

/// Coefficient `t` of `X^d * a` modulo `X^n + 1`, for `d < 2n`.
pub open spec fn monomial_coef(a: Seq<u64>, n: int, d: int, t: int) -> u64 {
    let i = (t + 2 * n - d) % (2 * n);
    if i < n {
        a[i]
    } else {
        wrap(-a[i - n]) as u64
    }
}

/// The polynomial `0` of `n` coefficients.
pub fn zero_poly(n: usize) -> (r: Vec<u64>)
    ensures
        r@.len() == n,
        forall|i: int| 0 <= i < n ==> r@[i] == 0,
{
    let mut p: Vec<u64> = Vec::new();
    while p.len() < n
        invariant
            p@.len() <= n,
            forall|i: int| 0 <= i < p@.len() ==> p@[i] == 0,
        decreases n - p@.len(),
    {
        p.push(0);
    }
    p
}

/// `X^d * a` modulo `X^n + 1`, where `n` is the length of `a`.
pub fn poly_monomial_mul(a: &Vec<u64>, d: usize) -> (r: Vec<u64>)
    requires
        1 <= a@.len(),
        d < 2 * a@.len(),
        3 * a@.len() <= usize::MAX,
    ensures
        r@.len() == a@.len(),
        forall|t: int|
            0 <= t < a@.len() ==> r@[t] == monomial_coef(a@, a@.len() as int, d as int, t),
{
    let n = a.len();
    let mut out: Vec<u64> = Vec::new();
    let mut t: usize = 0;
    while t < n
        invariant
            n == a@.len(),
            1 <= n,
            d < 2 * n,
            3 * n <= usize::MAX,
            t <= n,
            out@.len() == t,
            forall|s: int| 0 <= s < t ==> out@[s] == monomial_coef(a@, n as int, d as int, s),
        decreases n - t,
    {
        let i = (t + (2 * n - d)) % (2 * n);
        let v = if i < n {
            a[i]
        } else {
            sub_mod(0, a[i - n])
        };
        out.push(v);
        t = t + 1;
    }
    out
}

/// `acc` after adding the products `a[i] * b[j]` for `j < count`: to coefficient `i + j`,
/// or subtracted from coefficient `i + j - n` past the degree (`X^n = -1`).
pub open spec fn mul_row(acc: Seq<u64>, a: Seq<u64>, b: Seq<u64>, i: int, count: nat) -> Seq<u64>
    decreases count,
{
    if count == 0 {
        acc
    } else {
        let prev = mul_row(acc, a, b, i, (count - 1) as nat);
        let n = a.len() as int;
        let t = i + count - 1;
        let p = wrap(a[i] * b[count - 1]);
        if t < n {
            prev.update(t, wrap(prev[t] + p) as u64)
        } else {
            prev.update(t - n, wrap(prev[t - n] - p) as u64)
        }
    }
}

/// `acc` plus the rows `a[i] * b` of the negacyclic product for `i < rows`.
pub open spec fn mul_rows(acc: Seq<u64>, a: Seq<u64>, b: Seq<u64>, rows: nat) -> Seq<u64>
    decreases rows,
{
    if rows == 0 {
        acc
    } else {
        mul_row(mul_rows(acc, a, b, (rows - 1) as nat), a, b, rows - 1, a.len())
    }
}

/// `acc + a * b` modulo `X^n + 1` and modulo `2^64`.
pub open spec fn poly_mul_add_spec(acc: Seq<u64>, a: Seq<u64>, b: Seq<u64>) -> Seq<u64> {
    mul_rows(acc, a, b, a.len())
}

proof fn lemma_mul_row_len(acc: Seq<u64>, a: Seq<u64>, b: Seq<u64>, i: int, count: nat)
    requires
        acc.len() == a.len(),
        0 <= i < a.len(),
        count <= a.len(),
    ensures
        mul_row(acc, a, b, i, count).len() == acc.len(),
    decreases count,
{
    if count > 0 {
        lemma_mul_row_len(acc, a, b, i, (count - 1) as nat);
    }
}

/// `acc += a * b` modulo `X^n + 1` and modulo `2^64`.
pub fn poly_mul_acc(acc: &mut Vec<u64>, a: &Vec<u64>, b: &Vec<u64>)
    requires
        old(acc)@.len() == a@.len() == b@.len(),
        2 * a@.len() <= usize::MAX,
    ensures
        final(acc)@ == poly_mul_add_spec(old(acc)@, a@, b@),
        final(acc)@.len() == old(acc)@.len(),
{
    let n = a.len();
    let mut i: usize = 0;
    while i < n
        invariant
            n == a@.len() == b@.len() == acc@.len(),
            2 * n <= usize::MAX,
            i <= n,
            acc@ == mul_rows(old(acc)@, a@, b@, i as nat),
        decreases n - i,
    {
        let ai = a[i];
        let ghost start = acc@;
        let mut j: usize = 0;
        while j < n
            invariant
                n == a@.len() == b@.len() == acc@.len(),
                2 * n <= usize::MAX,
                i < n,
                j <= n,
                ai == a@[i as int],
                start.len() == n,
                acc@ == mul_row(start, a@, b@, i as int, j as nat),
            decreases n - j,
        {
            proof {
                lemma_mul_row_len(start, a@, b@, i as int, j as nat);
            }
            let p = mul_mod(ai, b[j]);
            let t = i + j;
            if t < n {
                let v = add_mod(acc[t], p);
                acc.set(t, v);
            } else {
                let v = sub_mod(acc[t - n], p);
                acc.set(t - n, v);
            }
            j = j + 1;
        }
        i = i + 1;
    }
}

/// `a - b`, coefficient-wise modulo `2^64`.
pub fn poly_sub(a: &Vec<u64>, b: &Vec<u64>) -> (r: Vec<u64>)
    requires
        a@.len() == b@.len(),
    ensures
        r@.len() == a@.len(),
        forall|i: int| 0 <= i < a@.len() ==> r@[i] == wrap(a@[i] - b@[i]),
{
    let mut out: Vec<u64> = Vec::new();
    let mut i: usize = 0;
    while i < a.len()
        invariant
            a@.len() == b@.len(),
            i <= a@.len(),
            out@.len() == i,
            forall|j: int| 0 <= j < i ==> out@[j] == wrap(a@[j] - b@[j]),
        decreases a@.len() - i,
    {
        out.push(sub_mod(a[i], b[i]));
        i = i + 1;
    }
    out
}

/// `a += b`, coefficient-wise modulo `2^64`.
pub fn poly_add_assign(a: &mut Vec<u64>, b: &Vec<u64>)
    requires
        old(a)@.len() == b@.len(),
    ensures
        final(a)@.len() == b@.len(),
        forall|i: int| 0 <= i < b@.len() ==> final(a)@[i] == wrap(old(a)@[i] + b@[i]),
{
    let mut i: usize = 0;
    while i < b.len()
        invariant
            a@.len() == b@.len() == old(a)@.len(),
            i <= b@.len(),
            forall|j: int| 0 <= j < i ==> a@[j] == wrap(old(a)@[j] + b@[j]),
            forall|j: int| i <= j < b@.len() ==> a@[j] == old(a)@[j],
        decreases b@.len() - i,
    {
        let v = add_mod(a[i], b[i]);
        a.set(i, v);
        i = i + 1;
    }
}

/// The coefficients of a GLWE sample, component by component.
pub open spec fn glwe_view(g: Seq<Vec<u64>>) -> Seq<Seq<u64>> {
    g.map_values(|p: Vec<u64>| p@)
}

/// The coefficients of a GGSW sample, row by row.
pub open spec fn ggsw_view(g: Seq<Vec<Vec<u64>>>) -> Seq<Seq<Seq<u64>>> {
    g.map_values(|r: Vec<Vec<u64>>| glwe_view(r@))
}

/// The GLWE sample `(0, ..., 0, body)` with `k` zero masks.
pub open spec fn trivial_glwe_spec(body: Seq<u64>, k: nat) -> Seq<Seq<u64>> {
    Seq::new(k + 1, |c: int| if c == k { body } else { Seq::new(body.len(), |t: int| 0u64) })
}

/// `X^d * g`, component by component.
pub open spec fn glwe_monomial_spec(g: Seq<Seq<u64>>, d: int) -> Seq<Seq<u64>> {
    Seq::new(
        g.len(),
        |c: int| Seq::new(g[c].len(), |t: int| monomial_coef(g[c], g[c].len() as int, d, t)),
    )
}

/// `a - b`, coefficient-wise modulo `2^64`.
pub open spec fn glwe_sub_spec(a: Seq<Seq<u64>>, b: Seq<Seq<u64>>) -> Seq<Seq<u64>> {
    Seq::new(a.len(), |c: int| Seq::new(a[c].len(), |t: int| wrap(a[c][t] - b[c][t]) as u64))
}

/// `a + b`, coefficient-wise modulo `2^64`.
pub open spec fn glwe_add_spec(a: Seq<Seq<u64>>, b: Seq<Seq<u64>>) -> Seq<Seq<u64>> {
    Seq::new(a.len(), |c: int| Seq::new(a[c].len(), |t: int| wrap(a[c][t] + b[c][t]) as u64))
}

/// The digits of level `l` of every coefficient of `p`.
pub open spec fn digit_poly(p: Seq<u64>, base_log: u32, levels: u32, l: int) -> Seq<u64> {
    Seq::new(p.len(), |t: int| decompose_spec(p[t], base_log, levels)[l])
}

/// `out` after adding, for the first `l` levels of component `c` of `g`, the digit
/// polynomial times row `c * levels + l` of `ggsw`.
pub open spec fn ep_levels(
    out: Seq<Seq<u64>>,
    g: Seq<Seq<u64>>,
    ggsw: Seq<Seq<Seq<u64>>>,
    c: int,
    base_log: u32,
    levels: u32,
    l: nat,
) -> Seq<Seq<u64>>
    decreases l,
{
    if l == 0 {
        out
    } else {
        let prev = ep_levels(out, g, ggsw, c, base_log, levels, (l - 1) as nat);
        let dp = digit_poly(g[c], base_log, levels, l - 1);
        let row = ggsw[c * levels + l - 1];
        Seq::new(prev.len(), |c2: int| poly_mul_add_spec(prev[c2], dp, row[c2]))
    }
}

/// `out` after every level of the first `c` components of `g`.
pub open spec fn ep_components(
    out: Seq<Seq<u64>>,
    g: Seq<Seq<u64>>,
    ggsw: Seq<Seq<Seq<u64>>>,
    base_log: u32,
    levels: u32,
    c: nat,
) -> Seq<Seq<u64>>
    decreases c,
{
    if c == 0 {
        out
    } else {
        ep_levels(
            ep_components(out, g, ggsw, base_log, levels, (c - 1) as nat),
            g,
            ggsw,
            c - 1,
            base_log,
            levels,
            levels as nat,
        )
    }
}

/// The external product of `ggsw` with the GLWE sample `g` of `k + 1` components of `n`
/// coefficients: the sum over components and levels of each digit polynomial times its row.
pub open spec fn external_product_spec(
    ggsw: Seq<Seq<Seq<u64>>>,
    g: Seq<Seq<u64>>,
    k: nat,
    n: nat,
    base_log: u32,
    levels: u32,
) -> Seq<Seq<u64>> {
    ep_components(
        trivial_glwe_spec(Seq::new(n, |t: int| 0u64), k),
        g,
        ggsw,
        base_log,
        levels,
        k + 1,
    )
}

/// The GLWE sample `(0, ..., 0, body)` with `k` zero masks.
pub fn trivial_glwe(body: Vec<u64>, k: usize) -> (r: Vec<Vec<u64>>)
    requires
        k < usize::MAX,
    ensures
        glwe_wf(r@, k as nat, body@.len()),
        glwe_view(r@) == trivial_glwe_spec(body@, k as nat),
        r@[k as int]@ == body@,
{
    let n = body.len();
    let ghost b = body@;
    let mut g: Vec<Vec<u64>> = Vec::new();
    while g.len() < k
        invariant
            g@.len() <= k,
            n == body@.len(),
            b == body@,
            forall|c: int| 0 <= c < g@.len() ==> #[trigger] g@[c]@ == Seq::new(n as nat, |t: int| 0u64),
        decreases k - g@.len(),
    {
        let z = zero_poly(n);
        assert(z@ =~= Seq::new(n as nat, |t: int| 0u64));
        g.push(z);
    }
    g.push(body);
    assert(glwe_view(g@) =~= trivial_glwe_spec(b, k as nat));
    g
}

/// `X^d * g`, component by component.
pub fn glwe_monomial_mul(g: &Vec<Vec<u64>>, d: usize, k: usize, n: usize) -> (r: Vec<Vec<u64>>)
    requires
        glwe_wf(g@, k as nat, n as nat),
        1 <= n,
        d < 2 * n,
        3 * n <= usize::MAX,
        k < usize::MAX,
    ensures
        glwe_wf(r@, k as nat, n as nat),
        glwe_view(r@) == glwe_monomial_spec(glwe_view(g@), d as int),
{
    let mut out: Vec<Vec<u64>> = Vec::new();
    let mut c: usize = 0;
    while c <= k
        invariant
            glwe_wf(g@, k as nat, n as nat),
            1 <= n,
            d < 2 * n,
            3 * n <= usize::MAX,
            k < usize::MAX,
            c <= k + 1,
            out@.len() == c,
            forall|j: int| 0 <= j < c ==> #[trigger] out@[j]@.len() == n,
            forall|j: int|
                0 <= j < c ==> #[trigger] out@[j]@ == glwe_monomial_spec(glwe_view(g@), d as int)[j],
        decreases k + 1 - c,
    {
        let p = poly_monomial_mul(&g[c], d);
        proof {
            assert(glwe_view(g@)[c as int] == g@[c as int]@);
            assert(p@ =~= glwe_monomial_spec(glwe_view(g@), d as int)[c as int]);
        }
        out.push(p);
        c = c + 1;
    }
    assert(glwe_view(out@) =~= glwe_monomial_spec(glwe_view(g@), d as int));
    out
}

/// `a - b`, component by component.
pub fn glwe_sub(a: &Vec<Vec<u64>>, b: &Vec<Vec<u64>>, k: usize, n: usize) -> (r: Vec<Vec<u64>>)
    requires
        glwe_wf(a@, k as nat, n as nat),
        glwe_wf(b@, k as nat, n as nat),
        k < usize::MAX,
    ensures
        glwe_wf(r@, k as nat, n as nat),
        glwe_view(r@) == glwe_sub_spec(glwe_view(a@), glwe_view(b@)),
{
    let mut out: Vec<Vec<u64>> = Vec::new();
    let mut c: usize = 0;
    while c <= k
        invariant
            glwe_wf(a@, k as nat, n as nat),
            glwe_wf(b@, k as nat, n as nat),
            k < usize::MAX,
            c <= k + 1,
            out@.len() == c,
            forall|j: int| 0 <= j < c ==> #[trigger] out@[j]@.len() == n,
            forall|j: int|
                0 <= j < c ==> #[trigger] out@[j]@ == glwe_sub_spec(glwe_view(a@), glwe_view(b@))[j],
        decreases k + 1 - c,
    {
        let p = poly_sub(&a[c], &b[c]);
        proof {
            assert(glwe_view(a@)[c as int] == a@[c as int]@);
            assert(glwe_view(b@)[c as int] == b@[c as int]@);
            assert(p@ =~= glwe_sub_spec(glwe_view(a@), glwe_view(b@))[c as int]);
        }
        out.push(p);
        c = c + 1;
    }
    assert(glwe_view(out@) =~= glwe_sub_spec(glwe_view(a@), glwe_view(b@)));
    out
}

/// `a + b`, component by component.
pub fn glwe_add(a: Vec<Vec<u64>>, b: &Vec<Vec<u64>>, k: usize, n: usize) -> (r: Vec<Vec<u64>>)
    requires
        glwe_wf(a@, k as nat, n as nat),
        glwe_wf(b@, k as nat, n as nat),
        k < usize::MAX,
    ensures
        glwe_wf(r@, k as nat, n as nat),
        glwe_view(r@) == glwe_add_spec(glwe_view(a@), glwe_view(b@)),
{
    let mut out: Vec<Vec<u64>> = Vec::new();
    let mut c: usize = 0;
    while c <= k
        invariant
            glwe_wf(a@, k as nat, n as nat),
            glwe_wf(b@, k as nat, n as nat),
            k < usize::MAX,
            c <= k + 1,
            out@.len() == c,
            forall|j: int| 0 <= j < c ==> #[trigger] out@[j]@.len() == n,
            forall|j: int|
                0 <= j < c ==> #[trigger] out@[j]@ == glwe_add_spec(glwe_view(a@), glwe_view(b@))[j],
        decreases k + 1 - c,
    {
        let mut p = a[c].clone();
        poly_add_assign(&mut p, &b[c]);
        proof {
            assert(glwe_view(a@)[c as int] == a@[c as int]@);
            assert(glwe_view(b@)[c as int] == b@[c as int]@);
            assert(p@ =~= glwe_add_spec(glwe_view(a@), glwe_view(b@))[c as int]);
        }
        out.push(p);
        c = c + 1;
    }
    assert(glwe_view(out@) =~= glwe_add_spec(glwe_view(a@), glwe_view(b@)));
    out
}

/// The product of the GGSW sample `ggsw` with the GLWE sample `g`: each component of `g`
/// is decomposed, and each digit polynomial multiplies its row of `ggsw`.
pub fn external_product(
    ggsw: &Vec<Vec<Vec<u64>>>,
    g: &Vec<Vec<u64>>,
    k: usize,
    n: usize,
    base_log: u32,
    levels: u32,
) -> (r: Vec<Vec<u64>>)
    requires
        glwe_wf(g@, k as nat, n as nat),
        ggsw_wf(ggsw@, k as nat, n as nat, levels as nat),
        decomposition_wf(base_log, levels),
        2 * n <= usize::MAX,
        k < usize::MAX,
    ensures
        glwe_wf(r@, k as nat, n as nat),
        glwe_view(r@) == external_product_spec(
            ggsw_view(ggsw@),
            glwe_view(g@),
            k as nat,
            n as nat,
            base_log,
            levels,
        ),
{
    let ghost gv = glwe_view(g@);
    let ghost ggv = ggsw_view(ggsw@);
    let total = ggsw.len();
    let lv = levels as usize;
    let z = zero_poly(n);
    assert(z@ =~= Seq::new(n as nat, |t: int| 0u64));
    let mut out: Vec<Vec<u64>> = trivial_glwe(z, k);
    proof {
        assert(glwe_view(out@) =~= trivial_glwe_spec(Seq::new(n as nat, |t: int| 0u64), k as nat));
    }
    let mut c: usize = 0;
    while c <= k
        invariant
            glwe_wf(g@, k as nat, n as nat),
            ggsw_wf(ggsw@, k as nat, n as nat, levels as nat),
            decomposition_wf(base_log, levels),
            2 * n <= usize::MAX,
            k < usize::MAX,
            total == ggsw@.len(),
            lv == levels,
            c <= k + 1,
            gv == glwe_view(g@),
            ggv == ggsw_view(ggsw@),
            glwe_wf(out@, k as nat, n as nat),
            glwe_view(out@) == ep_components(
                trivial_glwe_spec(Seq::new(n as nat, |t: int| 0u64), k as nat),
                gv,
                ggv,
                base_log,
                levels,
                c as nat,
            ),
        decreases k + 1 - c,
    {
        // coef_digits[t] holds the digits of coefficient t of component c.
        let mut coef_digits: Vec<Vec<u64>> = Vec::new();
        let mut t: usize = 0;
        while t < n
            invariant
                glwe_wf(g@, k as nat, n as nat),
                decomposition_wf(base_log, levels),
                c <= k,
                lv == levels,
                t <= n,
                coef_digits@.len() == t,
                forall|j: int|
                    0 <= j < t ==> #[trigger] coef_digits@[j]@ == decompose_spec(
                        g@[c as int]@[j],
                        base_log,
                        levels,
                    ),
            decreases n - t,
        {
            coef_digits.push(decompose(g[c][t], base_log, levels));
            t = t + 1;
        }
        let mut digit_polys: Vec<Vec<u64>> = Vec::new();
        let mut l: usize = 0;
        while l < lv
            invariant
                glwe_wf(g@, k as nat, n as nat),
                c <= k,
                l <= lv,
                lv == levels,
                coef_digits@.len() == n,
                forall|j: int|
                    0 <= j < n ==> #[trigger] coef_digits@[j]@ == decompose_spec(
                        g@[c as int]@[j],
                        base_log,
                        levels,
                    ),
                digit_polys@.len() == l,
                forall|j: int|
                    0 <= j < l ==> #[trigger] digit_polys@[j]@ == digit_poly(
                        g@[c as int]@,
                        base_log,
                        levels,
                        j,
                    ),
            decreases lv - l,
        {
            let mut p: Vec<u64> = Vec::new();
            let mut t: usize = 0;
            while t < n
                invariant
                    glwe_wf(g@, k as nat, n as nat),
                    c <= k,
                    l < lv,
                    lv == levels,
                    t <= n,
                    p@.len() == t,
                    coef_digits@.len() == n,
                    forall|j: int|
                        0 <= j < n ==> #[trigger] coef_digits@[j]@ == decompose_spec(
                            g@[c as int]@[j],
                            base_log,
                            levels,
                        ),
                    forall|j: int|
                        0 <= j < t ==> p@[j] == decompose_spec(g@[c as int]@[j], base_log, levels)[l as int],
                decreases n - t,
            {
                p.push(coef_digits[t][l]);
                t = t + 1;
            }
            assert(p@ =~= digit_poly(g@[c as int]@, base_log, levels, l as int));
            digit_polys.push(p);
            l = l + 1;
        }
        let ghost start = glwe_view(out@);
        let mut l: usize = 0;
        while l < lv
            invariant
                ggsw_wf(ggsw@, k as nat, n as nat, levels as nat),
                glwe_wf(g@, k as nat, n as nat),
                2 * n <= usize::MAX,
                k < usize::MAX,
                total == ggsw@.len(),
                lv == levels,
                c <= k,
                l <= lv,
                gv == glwe_view(g@),
                ggv == ggsw_view(ggsw@),
                digit_polys@.len() == lv,
                forall|j: int|
                    0 <= j < lv ==> #[trigger] digit_polys@[j]@ == digit_poly(
                        g@[c as int]@,
                        base_log,
                        levels,
                        j,
                    ),
                forall|j: int| 0 <= j < lv ==> #[trigger] digit_polys@[j]@.len() == n,
                glwe_wf(out@, k as nat, n as nat),
                glwe_view(out@) == ep_levels(start, gv, ggv, c as int, base_log, levels, l as nat),
            decreases lv - l,
        {
            proof {
                lemma_grid_index(c as int, l as int, k + 1, lv as int);
            }
            let row = &ggsw[c * lv + l];
            let ghost prev = glwe_view(out@);
            let mut next: Vec<Vec<u64>> = Vec::new();
            let mut c2: usize = 0;
            while c2 <= k
                invariant
                    glwe_wf(row@, k as nat, n as nat),
                    glwe_wf(out@, k as nat, n as nat),
                    2 * n <= usize::MAX,
                    l < lv,
                    digit_polys@.len() == lv,
                    forall|j: int| 0 <= j < lv ==> #[trigger] digit_polys@[j]@.len() == n,
                    c2 <= k + 1,
                    k < usize::MAX,
                    prev == glwe_view(out@),
                    next@.len() == c2,
                    forall|j: int| 0 <= j < c2 ==> #[trigger] next@[j]@.len() == n,
                    forall|j: int|
                        0 <= j < c2 ==> #[trigger] next@[j]@ == poly_mul_add_spec(
                            prev[j],
                            digit_polys@[l as int]@,
                            row@[j]@,
                        ),
                decreases k + 1 - c2,
            {
                let mut acc = out[c2].clone();
                poly_mul_acc(&mut acc, &digit_polys[l], &row[c2]);
                proof {
                    assert(prev[c2 as int] == out@[c2 as int]@);
                }
                next.push(acc);
                c2 = c2 + 1;
            }
            proof {
                let idx = c * levels + l;
                assert(ggv[idx as int] == glwe_view(ggsw@[idx as int]@));
                assert(ggv[idx as int] == glwe_view(row@));
                assert forall|j: int| 0 <= j <= k implies #[trigger] glwe_view(row@)[j] == row@[j]@ by {}
                assert(gv[c as int] == g@[c as int]@);
                let lhs = glwe_view(next@);
                let rhs = ep_levels(start, gv, ggv, c as int, base_log, levels, (l + 1) as nat);
                assert(lhs =~= rhs);
            }
            out = next;
            l = l + 1;
        }
        c = c + 1;
    }
    out
}

} // verus!
