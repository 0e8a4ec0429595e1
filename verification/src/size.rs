//! The size validator: which buffer lengths a transform accepts.

use vstd::prelude::*;
use vstd::arithmetic::div_mod::*;
use vstd::arithmetic::power2::*;
use crate::error::FhtError;

verus! {

/// The largest supported exponent: a buffer holds at most `2^30` elements.
pub const MAX_LOG_N: usize = 30;

/// Whether `n` is `2^k` for some natural number `k`.
pub open spec fn is_power_of_two(n: int) -> bool {
    exists|k: nat| n == #[trigger] pow2(k)
}

/// The exponent `k` with `2^k == n`, for a power of two `n`.
pub open spec fn exponent_of(n: int) -> nat
    recommends
        is_power_of_two(n),
{
    choose|k: nat| n == #[trigger] pow2(k)
}

/// What the validator answers for a length: the exponent of a power of two
/// up to `2^30`, `SizeTooLarge` for a larger power of two, and
/// `InvalidSize` for every other length, zero included.
pub open spec fn size_outcome(size: usize) -> Result<usize, FhtError> {
    if !is_power_of_two(size as int) {
        Err(FhtError::InvalidSize(size))
    } else if exponent_of(size as int) > MAX_LOG_N {
        Err(FhtError::SizeTooLarge(size))
    } else {
        Ok(exponent_of(size as int) as usize)
    }
}

/// Two powers of two are equal only when their exponents are.
pub proof fn lemma_pow2_injective(j: nat, k: nat)
    requires
        pow2(j) == pow2(k),
    ensures
        j == k,
{
    if j < k {
        lemma_pow2_strictly_increases(j, k);
    } else if k < j {
        lemma_pow2_strictly_increases(k, j);
    }
}

/// The exponent of `2^k` is `k`.
pub proof fn lemma_exponent_of_pow2(k: nat)
    ensures
        is_power_of_two(pow2(k) as int),
        exponent_of(pow2(k) as int) == k,
{
    let n = pow2(k) as int;
    lemma_pow2_injective(exponent_of(n), k);
}

/// What the validator answers for a power of two: its exponent up to the
/// ceiling, and `SizeTooLarge` above it.
pub proof fn lemma_size_outcome_of_power(k: nat)
    requires
        pow2(k) <= usize::MAX,
    ensures
        size_outcome(pow2(k) as usize) == (if k <= MAX_LOG_N {
            Ok::<usize, FhtError>(k as usize)
        } else {
            Err::<usize, FhtError>(FhtError::SizeTooLarge(pow2(k) as usize))
        }),
{
    lemma_exponent_of_pow2(k);
}

/// No power of two lies strictly between `2^k` and `2^(k+1)`.
pub proof fn lemma_no_power_between(n: int, k: nat)
    requires
        pow2(k) < n < 2 * pow2(k),
    ensures
        !is_power_of_two(n),
{
    if is_power_of_two(n) {
        let j = exponent_of(n);
        lemma_pow2_unfold(k + 1);
        if j <= k {
            if j < k {
                lemma_pow2_strictly_increases(j, k);
            }
        } else {
            if k + 1 < j {
                lemma_pow2_strictly_increases(k + 1, j);
            }
        }
    }
}

/// A smaller power of two divides a larger one.
pub proof fn lemma_pow2_divides(j: nat, k: nat)
    requires
        j <= k,
    ensures
        pow2(k) % pow2(j) == 0,
        pow2(j) > 0,
        pow2(j) <= pow2(k),
{
    lemma_pow2_pos(j);
    lemma_pow2_adds((k - j) as nat, j);
    lemma_mod_multiples_basic(pow2((k - j) as nat) as int, pow2(j) as int);
    if j < k {
        lemma_pow2_strictly_increases(j, k);
    }
}

/// A multiple of a multiple of `d` is a multiple of `d`.
pub proof fn lemma_multiple_of_multiple(a: int, n: int, d: int)
    requires
        n > 0,
        d > 0,
        a % n == 0,
        n % d == 0,
    ensures
        a % d == 0,
{
    lemma_fundamental_div_mod(a, n);
    lemma_fundamental_div_mod(n, d);
    let q1 = a / n;
    let q2 = n / d;
    assert(a == (q1 * q2) * d) by (nonlinear_arith)
        requires
            a == n * q1,
            n == d * q2,
    ;
    lemma_fundamental_div_mod_converse(a, d, q1 * q2, 0);
}

/// Checks a requested length before any kernel runs.
///
/// Returns the exponent `k` when `size == 2^k` and `k <= 30`; fails with
/// `InvalidSize(size)` when `size` is zero or not a power of two, and with
/// `SizeTooLarge(size)` when it is a power of two above `2^30`.
pub fn validate_size(size: usize) -> (r: Result<usize, FhtError>)
    ensures
        r == size_outcome(size),
        r matches Ok(k) ==> size == pow2(k as nat) && k <= MAX_LOG_N,
{
    if size == 0 {
        proof {
            assert forall|k: nat| 0 != #[trigger] pow2(k) by {
                lemma_pow2_pos(k);
            }
        }
        return Err(FhtError::InvalidSize(size));
    }
    let mut power: usize = 1;
    let mut log_n: usize = 0;
    proof {
        lemma2_to64();
    }
    while power < size
        invariant
            power == pow2(log_n as nat),
            1 <= power <= size,
            log_n < power,
        decreases size - power,
    {
        if power > size / 2 {
            proof {
                lemma_no_power_between(size as int, log_n as nat);
            }
            return Err(FhtError::InvalidSize(size));
        }
        proof {
            lemma_pow2_unfold(log_n as nat + 1);
        }
        power = power * 2;
        log_n = log_n + 1;
    }
    proof {
        lemma_exponent_of_pow2(log_n as nat);
    }
    if log_n > MAX_LOG_N {
        Err(FhtError::SizeTooLarge(size))
    } else {
        Ok(log_n)
    }
}

} // verus!
