use vstd::prelude::*;

verus! {

/// The Fibonacci numbers: 0, 1, 1, 2, 3, 5, ...
pub open spec fn fib(k: nat) -> nat
    decreases k,
{
    if k == 0 {
        0
    } else if k == 1 {
        1
    } else {
        fib((k - 2) as nat) + fib((k - 1) as nat)
    }
}

/// Naive doubly-recursive Fibonacci, exactly the mathematical recurrence.
pub fn fibonacci(k: u32) -> (r: u128)
    requires
        fib(k as nat) <= u128::MAX,
    ensures
        r == fib(k as nat),
    decreases k,
{
    if k == 0 {
        return 0;
    }
    if k == 1 {
        return 1;
    }
    let a = fibonacci(k - 2);
    let b = fibonacci(k - 1);
    a + b
}

/// The sum 1^3 + 2^3 + ... + k^3.
pub open spec fn sum_cubes(k: nat) -> nat
    decreases k,
{
    if k == 0 {
        0
    } else {
        sum_cubes((k - 1) as nat) + k * k * k
    }
}

proof fn lemma_sum_cubes_closed(k: nat)
    ensures
        sum_cubes(k) * 4 == k * k * (k + 1) * (k + 1),
    decreases k,
{
    if k > 0 {
        let m = (k - 1) as nat;
        lemma_sum_cubes_closed(m);
        assert(sum_cubes(k) == sum_cubes(m) + k * k * k);
        assert(sum_cubes(k) * 4 == sum_cubes(m) * 4 + (k * k * k) * 4) by (nonlinear_arith)
            requires
                sum_cubes(k) == sum_cubes(m) + k * k * k,
        ;
        assert(m * m * (m + 1) * (m + 1) + (k * k * k) * 4 == k * k * (k + 1) * (k + 1))
            by (nonlinear_arith)
            requires
                m == k - 1,
                k >= 1,
        ;
    } else {
        assert(k * k * (k + 1) * (k + 1) == 0) by (nonlinear_arith)
            requires
                k == 0,
        ;
    }
}

proof fn lemma_sum_cubes_fits(k: nat)
    requires
        k <= 255,
    ensures
        sum_cubes(k) <= u32::MAX,
{
    lemma_sum_cubes_closed(k);
    assert(k * k * (k + 1) * (k + 1) <= 255 * 255 * 256 * 256) by (nonlinear_arith)
        requires
            k <= 255,
    ;
}

/// Sums the cubes of 1 through k.
pub fn sumcube(k: u8) -> (r: u32)
    ensures
        r == sum_cubes(k as nat),
{
    let mut sum: u32 = 0;
    let mut i: u32 = 1;
    while i <= k as u32
        invariant
            1 <= i <= k as u32 + 1,
            sum == sum_cubes((i - 1) as nat),
        decreases k as u32 + 1 - i,
    {
        proof {
            lemma_sum_cubes_fits(i as nat);
            assert(i * i <= 255 * 255 && i * i * i <= 255 * 255 * 255) by (nonlinear_arith)
                requires
                    i <= 255,
            ;
            assert(sum_cubes(i as nat) == sum_cubes((i - 1) as nat) + i * i * i);
        }
        sum = sum + i * i * i;
        i = i + 1;
    }
    sum
}

} // verus!
