//! The coordinate generator: the full cartesian product of the `n` by `n`
//! output space as a flat ordered sequence, outer loop over `y`, inner loop
//! over `x`, so that the pair at position `k` is `(k % n, k / n)`.

use vstd::prelude::*;
use vstd::arithmetic::div_mod::lemma_fundamental_div_mod;
use vstd::arithmetic::div_mod::lemma_fundamental_div_mod_converse;

verus! {

/// All pairs `(x, y)` with `0 <= x, y < n`, ordered as
/// `(0,0), (1,0), ..., (n-1,0), (0,1), ..., (n-1,n-1)`.
pub fn cartesian_coords(n: usize) -> (coords: Vec<(usize, usize)>)
    requires
        n * n <= usize::MAX,
    ensures
        coords@.len() == n * n,
        forall|k: int|
            0 <= k < coords@.len() ==> (#[trigger] coords@[k]).0 as int == k % (n as int)
                && coords@[k].1 as int == k / (n as int),
        forall|k: int|
            0 <= k < coords@.len() ==> (#[trigger] coords@[k]).0 < n && coords@[k].1 < n,
{
    let mut coords: Vec<(usize, usize)> = Vec::new();
    let mut y: usize = 0;
    while y < n
        invariant
            y <= n,
            coords@.len() == y * n,
            forall|k: int|
                0 <= k < coords@.len() ==> (#[trigger] coords@[k]).0 as int == k % (n as int)
                    && coords@[k].1 as int == k / (n as int),
            forall|k: int|
                0 <= k < coords@.len() ==> (#[trigger] coords@[k]).0 < n && coords@[k].1 < n,
        decreases n - y,
    {
        let mut x: usize = 0;
        while x < n
            invariant
                x <= n,
                y < n,
                coords@.len() == y * n + x,
                forall|k: int|
                    0 <= k < coords@.len() ==> (#[trigger] coords@[k]).0 as int == k % (n as int)
                        && coords@[k].1 as int == k / (n as int),
                forall|k: int|
                    0 <= k < coords@.len() ==> (#[trigger] coords@[k]).0 < n && coords@[k].1 < n,
            decreases n - x,
        {
            coords.push((x, y));
            proof {
                lemma_fundamental_div_mod_converse(
                    (y as int) * (n as int) + (x as int),
                    n as int,
                    y as int,
                    x as int,
                );
            }
            x = x + 1;
        }
        proof {
            assert((y as int) * (n as int) + (n as int) == (y as int + 1) * (n as int))
                by (nonlinear_arith);
        }
        y = y + 1;
    }
    coords
}

/// Law: the generated pairs are pairwise distinct, because position `k`
/// determines the pair as `(k % n, k / n)`.
pub proof fn lemma_coords_unique(s: Seq<(usize, usize)>, n: int)
    requires
        0 <= n,
        s.len() == n * n,
        forall|k: int|
            0 <= k < s.len() ==> (#[trigger] s[k]).0 as int == k % n && s[k].1 as int == k / n,
    ensures
        forall|k1: int, k2: int|
            0 <= k1 < s.len() && 0 <= k2 < s.len() && k1 != k2 ==> s[k1] != s[k2],
{
    assert forall|k1: int, k2: int|
        0 <= k1 < s.len() && 0 <= k2 < s.len() && k1 != k2 implies s[k1] != s[k2] by {
        if s[k1] == s[k2] {
            assert(n != 0) by (nonlinear_arith)
                requires
                    0 <= n,
                    n * n > 0,
            ;
            lemma_fundamental_div_mod(k1, n);
            lemma_fundamental_div_mod(k2, n);
        }
    }
}

/// Law: every cell of the `n` by `n` space is covered, namely by the pair
/// stored at position `y * n + x`.
pub proof fn lemma_coords_cover_cell(s: Seq<(usize, usize)>, n: int, x: int, y: int)
    requires
        s.len() == n * n,
        forall|k: int|
            0 <= k < s.len() ==> (#[trigger] s[k]).0 as int == k % n && s[k].1 as int == k / n,
        0 <= x < n,
        0 <= y < n,
    ensures
        0 <= y * n + x < s.len(),
        s[y * n + x].0 as int == x,
        s[y * n + x].1 as int == y,
{
    assert(0 <= y * n + x < n * n) by (nonlinear_arith)
        requires
            0 <= x < n,
            0 <= y < n,
    ;
    lemma_fundamental_div_mod_converse(y * n + x, n, y, x);
}

} // verus!
