//! Number-factoring work items of the worker farm: the primality test and
//! the trial-division factorization.

use vstd::prelude::*;

verus! {

/// The product of a list of factors.
pub open spec fn product(s: Seq<u32>) -> int
    decreases s.len(),
{
    if s.len() == 0 {
        1
    } else {
        product(s.drop_last()) * s.last()
    }
}

/// The factors are in nondecreasing order.
pub open spec fn sorted(s: Seq<u32>) -> bool {
    forall|i: int, j: int| 0 <= i <= j < s.len() ==> s[i] <= s[j]
}

/// The floor of the square root of `n`.
pub fn isqrt(n: u32) -> (r: u32)
    ensures
        r * r <= n < (r + 1) * (r + 1),
        r <= 0xffff,
{
    let mut r: u32 = 0;
    loop
        invariant
            r * r <= n,
            r <= 0xffff,
            r == 0 || r <= n,
        ensures
            r * r <= n < (r + 1) * (r + 1),
        decreases n - r,
    {
        let rr: u64 = r as u64 + 1;
        proof {
            assert(rr * rr < 0x2_0000_0000) by (nonlinear_arith)
                requires
                    rr <= 0x10000,
            ;
        }
        if rr * rr > n as u64 {
            break ;
        }
        r = r + 1;
        proof {
            assert(r <= 0xffff) by (nonlinear_arith)
                requires
                    r * r <= n < 0x1_0000_0000,
            ;
            assert(r <= n) by (nonlinear_arith)
                requires
                    1 <= r,
                    r * r <= n,
            ;
        }
    }
    r
}

/// Whether `num` is prime: greater than one, with no divisor `f`
/// satisfying `2 <= f` and `f * f <= num` — trial division up to and
/// including the integer square root.
pub fn is_prime(num: u32) -> (r: bool)
    ensures
        r == (num > 1 && forall|f: u32| 2 <= f && f * f <= num ==> #[trigger] (num % f) != 0),
{
    if num <= 1 {
        return false;
    }
    let bound = isqrt(num);
    let mut f: u32 = 2;
    while f <= bound
        invariant
            num > 1,
            2 <= f,
            bound <= 0xffff,
            bound * bound <= num < (bound + 1) * (bound + 1),
            forall|g: u32| 2 <= g < f ==> #[trigger] (num % g) != 0,
        decreases bound + 1 - f,
    {
        if num % f == 0 {
            proof {
                assert(f * f <= bound * bound) by (nonlinear_arith)
                    requires
                        f <= bound,
                ;
            }
            return false;
        }
        f = f + 1;
    }
    proof {
        assert forall|f: u32| 2 <= f && f * f <= num implies #[trigger] (num % f) != 0 by {
            assert(f <= bound) by (nonlinear_arith)
                requires
                    f * f <= num,
                    num < (bound + 1) * (bound + 1),
            ;
        }
    }
    true
}

/// Trial-division factorization, as the farm's workers run it: factors
/// are divided out in increasing order, so the returned list is sorted,
/// every factor is at least two, and the product of the factors times the
/// returned residue is the input.  (For one and for numbers the primality
/// test accepts, the caller reports the number itself instead.)
pub fn factor_list(num: u32) -> (r: (Vec<u32>, u32))
    ensures
        product(r.0@) * r.1 == num,
        forall|i: int| 0 <= i < r.0@.len() ==> 2 <= #[trigger] r.0@[i],
        sorted(r.0@),
{
    let mut factors: Vec<u32> = Vec::new();
    let mut curr: u32 = num;
    if num == 0 {
        return (factors, 0);
    }
    let mut factor: u32 = 2;
    while factor < num
        invariant
            curr >= 1,
            2 <= factor,
            product(factors@) * curr == num,
            forall|i: int| 0 <= i < factors@.len() ==> 2 <= #[trigger] factors@[i] <= factor,
            sorted(factors@),
        decreases num - factor,
    {
        while curr % factor == 0
            invariant
                curr >= 1,
                2 <= factor,
                product(factors@) * curr == num,
                forall|i: int| 0 <= i < factors@.len() ==> 2 <= #[trigger] factors@[i] <= factor,
                sorted(factors@),
            decreases curr,
        {
            let ghost pre_factors = factors@;
            let ghost pre_curr = curr;
            factors.push(factor);
            curr = curr / factor;
            proof {
                assert(factors@.drop_last() =~= pre_factors);
                assert(pre_curr == factor * (pre_curr as int / factor as int) + pre_curr as int
                    % factor as int) by {
                    vstd::arithmetic::div_mod::lemma_fundamental_div_mod(
                        pre_curr as int,
                        factor as int,
                    );
                }
                assert(product(factors@) * curr == num) by (nonlinear_arith)
                    requires
                        product(factors@) == product(pre_factors) * factor,
                        pre_curr == factor * curr,
                        product(pre_factors) * pre_curr == num,
                ;
                assert(curr >= 1 && curr < pre_curr) by (nonlinear_arith)
                    requires
                        pre_curr == factor * curr,
                        pre_curr >= 1,
                        factor >= 2,
                        curr >= 0,
                ;
            }
        }
        factor = factor + 1;
    }
    (factors, curr)
}

} // verus!
