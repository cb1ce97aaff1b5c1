//! Facts about concatenating sequences of words.
use vstd::prelude::*;

verus! {

/// Appending one more piece to a mapped prefix appends its words.
pub proof fn lemma_map_flatten_step<A>(s: Seq<A>, f: spec_fn(A) -> Seq<u64>, i: int)
    requires
        0 <= i < s.len(),
    ensures
        s.subrange(0, i + 1).map_values(f).flatten() == s.subrange(0, i).map_values(f).flatten()
            + f(s[i]),
{
    let prev = s.subrange(0, i).map_values(f);
    assert(s.subrange(0, i + 1).map_values(f) =~= prev.push(f(s[i])));
    prev.lemma_flatten_push(f(s[i]));
}

/// Pieces of the same length `n` concatenate to the same words only if they are the same.
pub proof fn lemma_flatten_injective(a: Seq<Seq<u64>>, b: Seq<Seq<u64>>, n: nat)
    requires
        a.len() == b.len(),
        forall|i: int| 0 <= i < a.len() ==> #[trigger] a[i].len() == n,
        forall|i: int| 0 <= i < b.len() ==> #[trigger] b[i].len() == n,
        a.flatten() == b.flatten(),
    ensures
        a == b,
    decreases a.len(),
{
    if a.len() > 0 {
        let a0 = a.drop_last();
        let b0 = b.drop_last();
        assert(a =~= a0.push(a.last()));
        assert(b =~= b0.push(b.last()));
        a0.lemma_flatten_push(a.last());
        b0.lemma_flatten_push(b.last());
        crate::core_crypto::bootstrap::lemma_flatten_len(a0, n);
        crate::core_crypto::bootstrap::lemma_flatten_len(b0, n);
        let fa = a0.flatten();
        let fb = b0.flatten();
        assert((fa + a.last()).subrange(0, fa.len() as int) =~= fa);
        assert((fb + b.last()).subrange(0, fb.len() as int) =~= fb);
        assert((fa + a.last()).subrange(fa.len() as int, (fa.len() + n) as int) =~= a.last());
        assert((fb + b.last()).subrange(fb.len() as int, (fb.len() + n) as int) =~= b.last());
        lemma_flatten_injective(a0, b0, n);
        assert(a =~= b);
    }
}

/// Mapped pieces of the same length `n` concatenate to the same words only if each piece
/// maps to the same words.
pub proof fn lemma_map_flatten_injective<A>(a: Seq<A>, b: Seq<A>, f: spec_fn(A) -> Seq<u64>, n: nat)
    requires
        a.len() == b.len(),
        forall|i: int| 0 <= i < a.len() ==> #[trigger] f(a[i]).len() == n,
        forall|i: int| 0 <= i < b.len() ==> #[trigger] f(b[i]).len() == n,
        a.map_values(f).flatten() == b.map_values(f).flatten(),
    ensures
        forall|i: int| 0 <= i < a.len() ==> f(#[trigger] a[i]) == f(b[i]),
{
    let sa = a.map_values(f);
    let sb = b.map_values(f);
    assert forall|i: int| 0 <= i < sa.len() implies #[trigger] sa[i].len() == n by {
        assert(sa[i] == f(a[i]));
    }
    assert forall|i: int| 0 <= i < sb.len() implies #[trigger] sb[i].len() == n by {
        assert(sb[i] == f(b[i]));
    }
    lemma_flatten_injective(sa, sb, n);
    assert forall|i: int| 0 <= i < a.len() implies f(#[trigger] a[i]) == f(b[i]) by {
        assert(sa[i] == f(a[i]));
        assert(sb[i] == f(b[i]));
    }
}

/// Mapped pieces of length `n` each concatenate to `s.len() * n` words.
pub proof fn lemma_map_flatten_len<A>(s: Seq<A>, f: spec_fn(A) -> Seq<u64>, n: nat)
    requires
        forall|i: int| 0 <= i < s.len() ==> #[trigger] f(s[i]).len() == n,
    ensures
        s.map_values(f).flatten().len() == s.len() * n,
{
    let m = s.map_values(f);
    assert forall|i: int| 0 <= i < m.len() implies #[trigger] m[i].len() == n by {
        assert(m[i] == f(s[i]));
    }
    crate::core_crypto::bootstrap::lemma_flatten_len(m, n);
}

/// Pushing one more piece appends its words.
pub proof fn lemma_map_flatten_push<A>(x: Seq<A>, e: A, f: spec_fn(A) -> Seq<u64>)
    ensures
        x.push(e).map_values(f).flatten() == x.map_values(f).flatten() + f(e),
{
    assert(x.push(e).map_values(f) =~= x.map_values(f).push(f(e)));
    x.map_values(f).lemma_flatten_push(f(e));
}

} // verus!
