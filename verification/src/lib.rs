//! Shape-aware compiler core for neural-network computation graphs.
//!
//! The crate turns an in-memory network description into a deduplicated
//! dependency graph of computation nodes (`ir`) and compiles each operator
//! node into a parameterized GPU kernel with a concrete dispatch size
//! (`compiler`). Rendering the selected template into shader source is left
//! to the caller.

pub mod compiler;
pub mod ir;
pub mod model;
pub mod text;

use vstd::prelude::*;

verus! {

/// Number of groups of size `k` needed to cover `n` items, i.e. the
/// ceiling of `n / k`.
pub open spec fn groups_for(n: nat, k: nat) -> int
    recommends
        k > 0,
{
    (n + k - 1) / (k as int)
}

/// Ceiling division: the smallest `r` with `r * k >= n`.
pub fn ceil_div(n: u64, k: u64) -> (r: u64)
    requires
        k > 0,
    ensures
        r == groups_for(n as nat, k as nat),
{
    let q: u64 = n / k;
    let rem: u64 = n % k;
    proof {
        assert(n == (n / k) * k + n % k) by (nonlinear_arith)
            requires k > 0;
        assert((n + k - 1) / (k as int) == n / k + if n % k == 0 { 0int } else { 1int })
            by (nonlinear_arith)
            requires k > 0, n == (n / k) * k + n % k, n % k < k;
        assert(n % k != 0 ==> n / k < n) by (nonlinear_arith)
            requires k > 0, n == (n / k) * k + n % k, n % k < k;
    }
    if rem == 0 {
        q
    } else {
        q + 1
    }
}

} // verus!
