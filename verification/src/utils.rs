//! Protocol errors and small shared helpers.

use vstd::prelude::*;
use vstd::arithmetic::power2::pow2;

verus! {

/// Every failure a prover or verifier call can surface.
#[derive(Debug, Clone)]
pub enum ProtocolError {
    /// A vector length is not a power of two, or a dimension precondition
    /// is violated.
    SizeError,
    /// A witness element is not found in the table.
    NotInclusion,
    /// A commitment-scheme parameter mismatch.
    InvalidPcsParam(String),
    /// A sum-check equality check failed, or the number of evaluations is
    /// wrong.
    InvalidSumcheck(String),
    /// The proof byte stream is malformed or too short.
    Transcript,
}

/// `2^k` as a machine integer.
pub fn pow2_exec(k: usize) -> (r: usize)
    requires
        pow2(k as nat) <= usize::MAX,
    ensures
        r == pow2(k as nat),
        r >= 1,
{
    let mut i: usize = 0;
    let mut p: usize = 1;
    proof {
        vstd::arithmetic::power2::lemma_pow2_pos(k as nat);
        vstd::arithmetic::power2::lemma2_to64();
    }
    while i < k
        invariant
            i <= k,
            p == pow2(i as nat),
            pow2(k as nat) <= usize::MAX,
        decreases k - i,
    {
        proof {
            assert(pow2((i + 1) as nat) == 2 * pow2(i as nat)) by {
                vstd::arithmetic::power2::lemma_pow2_unfold((i + 1) as nat);
            }
            assert(pow2((i + 1) as nat) <= pow2(k as nat)) by {
                if i + 1 < k {
                    vstd::arithmetic::power2::lemma_pow2_strictly_increases(
                        (i + 1) as nat,
                        k as nat,
                    );
                }
            }
        }
        p = p * 2;
        i = i + 1;
    }
    p
}

/// Swaps the two dimensions of a rectangular matrix.
pub fn transpose<T: Copy>(v: Vec<Vec<T>>) -> (r: Vec<Vec<T>>)
    requires
        v.len() > 0,
        forall|i: int| 0 <= i < v.len() ==> #[trigger] v[i].len() == v[0].len(),
    ensures
        r.len() == v[0].len(),
        forall|i: int| 0 <= i < r.len() ==> #[trigger] r[i].len() == v.len(),
        forall|i: int, j: int|
            0 <= i < r.len() && 0 <= j < v.len() ==> #[trigger] r[i][j] == v[j][i],
{
    let cols = v[0].len();
    let mut r: Vec<Vec<T>> = Vec::new();
    let mut i: usize = 0;
    while i < cols
        invariant
            i <= cols,
            cols == v[0].len(),
            forall|t: int| 0 <= t < v.len() ==> #[trigger] v[t].len() == cols,
            r.len() == i,
            forall|t: int| 0 <= t < i ==> #[trigger] r[t].len() == v.len(),
            forall|t: int, j: int|
                0 <= t < i && 0 <= j < v.len() ==> #[trigger] r[t][j] == v[j][t],
        decreases cols - i,
    {
        let mut row: Vec<T> = Vec::new();
        let mut j: usize = 0;
        while j < v.len()
            invariant
                i < cols,
                j <= v.len(),
                cols == v[0].len(),
                forall|t: int| 0 <= t < v.len() ==> #[trigger] v[t].len() == cols,
                row.len() == j,
                forall|t: int| 0 <= t < j ==> #[trigger] row[t] == v[t][i as int],
            decreases v.len() - j,
        {
            proof {
                assert(v@[j as int].len() == cols);
            }
            row.push(v[j][i]);
            j = j + 1;
        }
        r.push(row);
        i = i + 1;
    }
    r
}

/// The floor base-2 logarithm.
pub open spec fn lg(n: nat) -> nat
    decreases n,
{
    if n <= 1 {
        0
    } else {
        (1 + lg(n / 2)) as nat
    }
}

/// On a power of two the logarithm is exact.
pub proof fn lemma_lg_pow2(n: nat)
    requires
        crate::lookup::precomputation::is_power_of_two(n),
    ensures
        pow2(lg(n)) == n,
    decreases n,
{
    if n <= 1 {
        vstd::arithmetic::power2::lemma2_to64();
    } else {
        lemma_lg_pow2(n / 2);
        assert(pow2((1 + lg(n / 2)) as nat) == 2 * pow2(lg(n / 2))) by {
            vstd::arithmetic::power2::lemma_pow2_unfold((1 + lg(n / 2)) as nat);
        }
    }
}

/// An exponent whose power of two fits a machine word is below 64.
pub proof fn lemma_pow2_word_bound(nv: nat)
    requires
        pow2(nv) <= usize::MAX,
    ensures
        nv < 64,
{
    vstd::arithmetic::power2::lemma2_to64();
    vstd::arithmetic::power2::lemma2_to64_rest();
    if nv >= 64 {
        if nv > 64 {
            vstd::arithmetic::power2::lemma_pow2_strictly_increases(64, nv);
        }
        assert(pow2(nv) >= 0x10000000000000000);
    }
}

/// The exact base-2 logarithm of a power of two.
pub fn log2_exact(n: usize) -> (r: usize)
    requires
        crate::lookup::precomputation::is_power_of_two(n as nat),
    ensures
        r == lg(n as nat),
        pow2(r as nat) == n,
{
    proof {
        lemma_lg_pow2(n as nat);
        vstd::arithmetic::power2::lemma2_to64();
        assert(n >= 1);
    }
    let mut m = n;
    let mut r: usize = 0;
    while m > 1
        invariant
            m >= 1,
            pow2(r as nat) * m == n,
            crate::lookup::precomputation::is_power_of_two(m as nat),
            lg(n as nat) == r + lg(m as nat),
        decreases m,
    {
        proof {
            assert(m % 2 == 0);
            assert(pow2((r + 1) as nat) == 2 * pow2(r as nat)) by {
                vstd::arithmetic::power2::lemma_pow2_unfold((r + 1) as nat);
            }
            assert(pow2((r + 1) as nat) * (m / 2) == n) by (nonlinear_arith)
                requires
                    pow2(r as nat) * m == n,
                    m % 2 == 0,
                    pow2((r + 1) as nat) == 2 * pow2(r as nat),
            {}
            assert(r < 64) by {
                assert(pow2(r as nat) <= n) by (nonlinear_arith)
                    requires
                        pow2(r as nat) * m == n,
                        m >= 1,
                        pow2(r as nat) >= 0,
                {}
                lemma_pow2_word_bound(r as nat);
            }
        }
        m = m / 2;
        r = r + 1;
    }
    proof {
        lemma_lg_pow2(n as nat);
    }
    r
}

} // verus!
