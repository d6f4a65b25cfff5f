//! The elementwise and dot-product arithmetic the layers and the weight
//! update are built from, with exact wrapping contracts.

use vstd::prelude::*;

verus! {

use vstd::arithmetic::div_mod::lemma_fundamental_div_mod_converse;

use crate::tensor::{wrap_add, wrap_mul, wrap_sub};

/// Wrapping dot product of the first `n` strided elements of `a` and `b`:
/// the terms `a[a_base + j * a_step] * b[b_base + j * b_step]`, multiplied
/// and accumulated with wrapping arithmetic, in order of increasing `j`.
pub open spec fn dot_wrap(
    a: Seq<i64>,
    a_base: int,
    a_step: int,
    b: Seq<i64>,
    b_base: int,
    b_step: int,
    n: nat,
) -> i64
    decreases n,
{
    if n == 0 {
        0i64
    } else {
        wrap_add(
            dot_wrap(a, a_base, a_step, b, b_base, b_step, (n - 1) as nat),
            wrap_mul(a[a_base + (n - 1) * a_step], b[b_base + (n - 1) * b_step]),
        )
    }
}

/// For `0 <= b < batch` and `0 <= k < n`, the flat index `b * n + k` is in
/// range, and the whole row `b` lies before row `batch`.
pub proof fn lemma_flat_index(b: int, k: int, batch: int, n: int)
    requires
        0 <= b < batch,
        0 <= k < n,
    ensures
        0 <= b * n,
        b * n + k < batch * n,
        b * n + n <= batch * n,
{
    assert(0 <= b * n && b * n + k < batch * n && b * n + n <= batch * n) by (nonlinear_arith)
        requires
            0 <= b < batch,
            0 <= k < n,
    ;
}

/// A flat index decodes into its row and column: `(b * n + k) / n == b` and
/// `(b * n + k) % n == k`.
pub proof fn lemma_flat_decode(b: int, k: int, n: int)
    requires
        0 <= b,
        0 <= k < n,
    ensures
        (b * n + k) / n == b,
        (b * n + k) % n == k,
{
    lemma_fundamental_div_mod_converse(b * n + k, n, b, k);
}

/// When the last strided index is in range, every earlier one is too: the
/// bound [`dot_strided`] asks of its callers.
pub proof fn lemma_dot_bounds(base: int, step: int, n: int, len: int)
    requires
        0 <= base,
        0 <= step,
        0 <= n,
        n > 0 ==> base + (n - 1) * step < len,
    ensures
        forall|j: int| 0 <= j < n ==> base + #[trigger] (j * step) < len,
{
    assert forall|j: int| 0 <= j < n implies base + #[trigger] (j * step) < len by {
        assert(j * step <= (n - 1) * step) by (nonlinear_arith)
            requires
                0 <= j <= n - 1,
                0 <= step,
        ;
    }
}

/// Computes the wrapping strided dot product [`dot_wrap`] of `n` terms.
pub fn dot_strided(
    a: &Vec<i64>,
    a_base: usize,
    a_step: usize,
    b: &Vec<i64>,
    b_base: usize,
    b_step: usize,
    n: usize,
) -> (r: i64)
    requires
        forall|j: int| 0 <= j < n ==> a_base + #[trigger] (j * a_step) < a@.len(),
        forall|j: int| 0 <= j < n ==> b_base + #[trigger] (j * b_step) < b@.len(),
    ensures
        r == dot_wrap(a@, a_base as int, a_step as int, b@, b_base as int, b_step as int, n as nat),
{
    let a_len: usize = a.len();
    let b_len: usize = b.len();
    let mut acc: i64 = 0;
    let mut j: usize = 0;
    while j < n
        invariant
            j <= n,
            a_len == a@.len(),
            b_len == b@.len(),
            forall|k: int| 0 <= k < n ==> a_base + #[trigger] (k * a_step) < a@.len(),
            forall|k: int| 0 <= k < n ==> b_base + #[trigger] (k * b_step) < b@.len(),
            acc == dot_wrap(
                a@,
                a_base as int,
                a_step as int,
                b@,
                b_base as int,
                b_step as int,
                j as nat,
            ),
        decreases n - j,
    {
        proof {
            assert(a_base + (j as int) * (a_step as int) < a@.len());
            assert(b_base + (j as int) * (b_step as int) < b@.len());
            assert(a@.len() <= usize::MAX && b@.len() <= usize::MAX);
        }
        let ai: usize = a_base + j * a_step;
        let bi: usize = b_base + j * b_step;
        acc = acc.wrapping_add(a[ai].wrapping_mul(b[bi]));
        j = j + 1;
    }
    acc
}

/// The pairwise wrapping difference `d[i] - g[i]`, the fixed update a
/// network applies to each learnable weight.
pub fn sub_pairwise(d: &Vec<i64>, g: &Vec<i64>) -> (r: Vec<i64>)
    requires
        d@.len() == g@.len(),
    ensures
        r@ == Seq::new(d@.len(), |i: int| wrap_sub(d@[i], g@[i])),
{
    let mut r: Vec<i64> = Vec::new();
    let mut i: usize = 0;
    while i < d.len()
        invariant
            i <= d@.len(),
            d@.len() == g@.len(),
            r@.len() == i,
            forall|k: int| 0 <= k < i ==> r@[k] == wrap_sub(d@[k], g@[k]),
        decreases d@.len() - i,
    {
        r.push(d[i].wrapping_sub(g[i]));
        i = i + 1;
    }
    proof {
        assert(r@ =~= Seq::new(d@.len(), |k: int| wrap_sub(d@[k], g@[k])));
    }
    r
}

/// The pairwise wrapping combination `a * x[i] + b * y[i]`, the scaled
/// accumulation a momentum solver applies to its history.
pub fn scale_combine(a: i64, x: &Vec<i64>, b: i64, y: &Vec<i64>) -> (r: Vec<i64>)
    requires
        x@.len() == y@.len(),
    ensures
        r@ == Seq::new(x@.len(), |i: int| wrap_add(wrap_mul(a, x@[i]), wrap_mul(b, y@[i]))),
{
    let mut r: Vec<i64> = Vec::new();
    let mut i: usize = 0;
    while i < x.len()
        invariant
            i <= x@.len(),
            x@.len() == y@.len(),
            r@.len() == i,
            forall|k: int|
                0 <= k < i ==> r@[k] == wrap_add(wrap_mul(a, x@[k]), wrap_mul(b, y@[k])),
        decreases x@.len() - i,
    {
        r.push(a.wrapping_mul(x[i]).wrapping_add(b.wrapping_mul(y[i])));
        i = i + 1;
    }
    proof {
        assert(r@ =~= Seq::new(x@.len(), |k: int| wrap_add(wrap_mul(a, x@[k]), wrap_mul(b, y@[k]))));
    }
    r
}

} // verus!
