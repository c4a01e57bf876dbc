use vstd::prelude::*;

verus! {

/// The cube of `k`.
pub open spec fn cube(k: int) -> int {
    k * k * k
}

/// Whether `k` is the cube root of `n`, rounded down: the greatest number
/// whose cube does not exceed `n`.
pub open spec fn is_cube_root(n: int, k: int) -> bool {
    0 <= k && cube(k) <= n < cube(k + 1)
}

/// A greater number has a greater cube.
pub proof fn lemma_cube_increases(a: int, b: int)
    requires
        0 <= a <= b,
    ensures
        cube(a) <= cube(b),
{
    assert(a * a <= b * b) by (nonlinear_arith)
        requires
            0 <= a <= b,
    ;
    assert(a * a * a <= b * b * b) by (nonlinear_arith)
        requires
            0 <= a <= b,
            0 <= a * a <= b * b,
    ;
}

/// A number has one rounded-down cube root only.
pub proof fn lemma_cube_root_unique(n: int, a: int, b: int)
    requires
        is_cube_root(n, a),
        is_cube_root(n, b),
    ensures
        a == b,
{
    if a < b {
        lemma_cube_increases(a + 1, b);
    }
    if b < a {
        lemma_cube_increases(b + 1, a);
    }
}

/// Returns the cube root of `n`, rounded down.
pub fn cube_root(n: usize) -> (k: usize)
    ensures
        is_cube_root(n as int, k as int),
        k <= 2642245,
{
    let target: u128 = n as u128;
    let mut low: u128 = 0;
    let mut high: u128 = 2642246;
    assert(cube(0) == 0 && cube(2642246) > u64::MAX) by (nonlinear_arith);
    while high - low > 1
        invariant
            low < high <= 2642246,
            cube(low as int) <= target < cube(high as int),
            target == n,
        decreases high - low,
    {
        let mid: u128 = low + (high - low) / 2;
        assert(mid * mid * mid <= 2642246 * 2642246 * 2642246) by {
            lemma_cube_increases(mid as int, 2642246);
        }
        assert(mid * mid <= 2642246 * 2642246) by (nonlinear_arith)
            requires
                0 <= mid <= 2642246,
        ;
        if mid * mid * mid <= target {
            low = mid;
        } else {
            high = mid;
        }
    }
    low as usize
}

} // verus!
