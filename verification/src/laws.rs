//! What holds of the transform: the laws that follow from its definition.
//!
//! Some laws hold of every element type: the passes of doubling stride
//! compute the transform, every kernel variant computes it, and both modes
//! agree. The laws of exact arithmetic (the transform is its own inverse up
//! to the factor `2^k`, it multiplies the sum of squares by `2^k`, it is
//! the product with the Hadamard matrix) are stated for sequences of
//! mathematical integers. For the machine integers, whose sums wrap
//! around, further laws say that a transform agrees with the exact one up
//! to multiples of the modulus, and exactly where the input is small.

use vstd::prelude::*;
use vstd::arithmetic::div_mod::{
    lemma_add_mod_noop, lemma_fundamental_div_mod_converse, lemma_small_mod, lemma_sub_mod_noop,
};
use vstd::arithmetic::power2::*;
use vstd::bits::{
    lemma_u64_low_bits_mask_is_mod, lemma_u64_pow2_no_overflow, lemma_u64_shl_is_mul, low_bits_mask,
};
use crate::element::{Arithmetic, Integer};
use crate::hadamard::{
    blockwise, hadamard, lemma_blockwise_one, lemma_blockwise_whole, lemma_hadamard_len,
    lemma_stage_advances, stage, stage_at,
};
use crate::kernel::Kernel;
use crate::size::lemma_pow2_divides;
use crate::transform::{
    inplace_result, outofplace_outcome, outofplace_result, request_outcome,
};

verus! {

/// The sequence of the sums `a[i] + b[i]`.
pub open spec fn pointwise_sum<T: Arithmetic>(a: Seq<T>, b: Seq<T>) -> Seq<T> {
    Seq::new(a.len(), |i: int| a[i].plus(b[i]))
}

/// The sequence of the differences `a[i] - b[i]`.
pub open spec fn pointwise_difference<T: Arithmetic>(a: Seq<T>, b: Seq<T>) -> Seq<T> {
    Seq::new(a.len(), |i: int| a[i].minus(b[i]))
}

/// The sequence of the products `c * x[i]`.
pub open spec fn scaled(x: Seq<int>, c: int) -> Seq<int> {
    Seq::new(x.len(), |i: int| c * x[i])
}

/// The sum of the squares of the elements.
pub open spec fn sum_of_squares(x: Seq<int>) -> int
    decreases x.len(),
{
    if x.len() == 0 {
        0
    } else {
        sum_of_squares(x.drop_last()) + x.last() * x.last()
    }
}

/// The lower half of a sequence of even length.
pub open spec fn lower_half<T>(x: Seq<T>) -> Seq<T> {
    x.subrange(0, (x.len() / 2) as int)
}

/// The upper half of a sequence of even length.
pub open spec fn upper_half<T>(x: Seq<T>) -> Seq<T> {
    x.subrange((x.len() / 2) as int, 2 * (x.len() / 2) as int)
}

/// The recursive identity: the transform of a sequence of even length is
/// made of the sums and of the differences of the transforms of its halves.
pub proof fn lemma_hadamard_halves<T: Arithmetic>(x: Seq<T>)
    requires
        x.len() >= 2,
        x.len() % 2 == 0,
    ensures
        hadamard(x) == pointwise_sum(hadamard(lower_half(x)), hadamard(upper_half(x)))
            + pointwise_difference(hadamard(lower_half(x)), hadamard(upper_half(x))),
        lower_half(hadamard(x)) == pointwise_sum(
            hadamard(lower_half(x)),
            hadamard(upper_half(x)),
        ),
        upper_half(hadamard(x)) == pointwise_difference(
            hadamard(lower_half(x)),
            hadamard(upper_half(x)),
        ),
{
    let a = hadamard(lower_half(x));
    let b = hadamard(upper_half(x));
    lemma_hadamard_len(lower_half(x));
    lemma_hadamard_len(upper_half(x));
    lemma_hadamard_len(x);
    assert(hadamard(x) =~= pointwise_sum(a, b) + pointwise_difference(a, b));
    assert(lower_half(hadamard(x)) =~= pointwise_sum(a, b));
    assert(upper_half(hadamard(x)) =~= pointwise_difference(a, b));
}

/// The halves of a sequence of `2^k` elements, `k > 0`, hold `2^(k-1)`
/// elements each.
pub proof fn lemma_halves_len<T>(x: Seq<T>, k: nat)
    requires
        k > 0,
        x.len() == pow2(k),
    ensures
        x.len() >= 2,
        x.len() % 2 == 0,
        lower_half(x).len() == pow2((k - 1) as nat),
        upper_half(x).len() == pow2((k - 1) as nat),
        x.len() == 2 * pow2((k - 1) as nat),
{
    lemma_pow2_unfold(k);
    lemma_pow2_pos((k - 1) as nat);
}

/// The exact transform is additive: the transform of a sum is the sum of
/// the transforms, and likewise for a difference.
pub proof fn lemma_hadamard_additive(a: Seq<int>, b: Seq<int>, k: nat)
    requires
        a.len() == pow2(k),
        b.len() == pow2(k),
    ensures
        hadamard(pointwise_sum(a, b)) == pointwise_sum(hadamard(a), hadamard(b)),
        hadamard(pointwise_difference(a, b)) == pointwise_difference(hadamard(a), hadamard(b)),
    decreases k,
{
    let s = pointwise_sum(a, b);
    let d = pointwise_difference(a, b);
    lemma_hadamard_len(a);
    lemma_hadamard_len(b);
    lemma_hadamard_len(s);
    lemma_hadamard_len(d);
    if k == 0 {
        lemma2_to64();
        assert(hadamard(s) =~= pointwise_sum(hadamard(a), hadamard(b)));
        assert(hadamard(d) =~= pointwise_difference(hadamard(a), hadamard(b)));
    } else {
        let j = (k - 1) as nat;
        lemma_halves_len(a, k);
        lemma_halves_len(b, k);
        lemma_halves_len(s, k);
        lemma_halves_len(d, k);
        assert(lower_half(s) =~= pointwise_sum(lower_half(a), lower_half(b)));
        assert(upper_half(s) =~= pointwise_sum(upper_half(a), upper_half(b)));
        assert(lower_half(d) =~= pointwise_difference(lower_half(a), lower_half(b)));
        assert(upper_half(d) =~= pointwise_difference(upper_half(a), upper_half(b)));
        lemma_hadamard_additive(lower_half(a), lower_half(b), j);
        lemma_hadamard_additive(upper_half(a), upper_half(b), j);
        lemma_hadamard_halves(a);
        lemma_hadamard_halves(b);
        lemma_hadamard_halves(s);
        lemma_hadamard_halves(d);
        lemma_hadamard_len(lower_half(a));
        lemma_hadamard_len(lower_half(b));
        lemma_hadamard_len(upper_half(a));
        lemma_hadamard_len(upper_half(b));
        assert(hadamard(s) =~= pointwise_sum(hadamard(a), hadamard(b)));
        assert(hadamard(d) =~= pointwise_difference(hadamard(a), hadamard(b)));
    }
}

/// Self-inverse up to scale: on exact arithmetic, the transform of the
/// transform of `2^k` elements is the input with every element multiplied
/// by `2^k`.
pub proof fn lemma_hadamard_involution(x: Seq<int>, k: nat)
    requires
        x.len() == pow2(k),
    ensures
        hadamard(hadamard(x)) == scaled(x, pow2(k) as int),
    decreases k,
{
    lemma_hadamard_len(x);
    lemma_hadamard_len(hadamard(x));
    if k == 0 {
        lemma2_to64();
        assert(hadamard(hadamard(x)) =~= scaled(x, 1));
    } else {
        let j = (k - 1) as nat;
        let n = pow2(k) as int;
        let h = pow2(j) as int;
        lemma_halves_len(x, k);
        lemma_halves_len(hadamard(x), k);
        let x0 = lower_half(x);
        let x1 = upper_half(x);
        let a = hadamard(x0);
        let b = hadamard(x1);
        lemma_hadamard_len(x0);
        lemma_hadamard_len(x1);
        lemma_hadamard_halves(x);
        lemma_hadamard_halves(hadamard(x));
        lemma_hadamard_additive(a, b, j);
        lemma_hadamard_involution(x0, j);
        lemma_hadamard_involution(x1, j);
        let y = hadamard(hadamard(x));
        assert forall|i: int| 0 <= i < n implies y[i] == n * x[i] by {
            if i < h {
                assert(y[i] == (h * x0[i] + h * x1[i]) + (h * x0[i] - h * x1[i]));
                assert(x0[i] == x[i]);
                assert((h * x[i] + h * x1[i]) + (h * x[i] - h * x1[i]) == (2 * h) * x[i])
                    by (nonlinear_arith);
            } else {
                let r = i - h;
                assert(y[i] == (h * x0[r] + h * x1[r]) - (h * x0[r] - h * x1[r]));
                assert(x1[r] == x[i]);
                assert((h * x0[r] + h * x[i]) - (h * x0[r] - h * x[i]) == (2 * h) * x[i])
                    by (nonlinear_arith);
            }
        }
        assert(y =~= scaled(x, n));
    }
}

/// The sum of squares of a concatenation is the sum of the two sums.
pub proof fn lemma_sum_of_squares_concat(a: Seq<int>, b: Seq<int>)
    ensures
        sum_of_squares(a + b) == sum_of_squares(a) + sum_of_squares(b),
    decreases b.len(),
{
    if b.len() == 0 {
        assert(a + b =~= a);
    } else {
        assert((a + b).drop_last() =~= a + b.drop_last());
        lemma_sum_of_squares_concat(a, b.drop_last());
    }
}

/// The squares of the sums and of the differences of two sequences add up
/// to twice the squares of both.
pub proof fn lemma_sum_of_squares_butterfly(a: Seq<int>, b: Seq<int>)
    requires
        a.len() == b.len(),
    ensures
        sum_of_squares(pointwise_sum(a, b)) + sum_of_squares(pointwise_difference(a, b)) == 2
            * sum_of_squares(a) + 2 * sum_of_squares(b),
    decreases a.len(),
{
    if a.len() > 0 {
        let s = pointwise_sum(a, b);
        let d = pointwise_difference(a, b);
        assert(s.drop_last() =~= pointwise_sum(a.drop_last(), b.drop_last()));
        assert(d.drop_last() =~= pointwise_difference(a.drop_last(), b.drop_last()));
        lemma_sum_of_squares_butterfly(a.drop_last(), b.drop_last());
        let p = a.last();
        let q = b.last();
        assert(s.last() == p + q);
        assert(d.last() == p - q);
        assert((p + q) * (p + q) + (p - q) * (p - q) == 2 * (p * p) + 2 * (q * q))
            by (nonlinear_arith);
    }
}

/// The energy identity: on exact arithmetic, the sum of squares of the
/// transform of `2^k` elements is `2^k` times the sum of squares of the
/// input.
pub proof fn lemma_hadamard_energy(x: Seq<int>, k: nat)
    requires
        x.len() == pow2(k),
    ensures
        sum_of_squares(hadamard(x)) == pow2(k) * sum_of_squares(x),
    decreases k,
{
    if k == 0 {
        lemma2_to64();
    } else {
        let j = (k - 1) as nat;
        let h = pow2(j) as int;
        lemma_halves_len(x, k);
        let x0 = lower_half(x);
        let x1 = upper_half(x);
        let a = hadamard(x0);
        let b = hadamard(x1);
        lemma_hadamard_len(x0);
        lemma_hadamard_len(x1);
        lemma_hadamard_halves(x);
        lemma_hadamard_energy(x0, j);
        lemma_hadamard_energy(x1, j);
        lemma_sum_of_squares_concat(pointwise_sum(a, b), pointwise_difference(a, b));
        lemma_sum_of_squares_butterfly(a, b);
        assert(x =~= x0 + x1);
        lemma_sum_of_squares_concat(x0, x1);
        let e0 = sum_of_squares(x0);
        let e1 = sum_of_squares(x1);
        assert(2 * (h * e0) + 2 * (h * e1) == (2 * h) * (e0 + e1)) by (nonlinear_arith);
    }
}

/// The sequence that the butterfly passes of stride `2^from`, `2^(from+1)`,
/// ... up to `2^(to-1)` lead to from `y`, one after the other.
pub open spec fn passes<T: Arithmetic>(y: Seq<T>, from: nat, to: nat) -> Seq<T>
    decreases to,
{
    if to <= from {
        y
    } else {
        stage(passes(y, from, (to - 1) as nat), pow2((to - 1) as nat) as int)
    }
}

/// Passes over transformed blocks: from a sequence whose blocks of `2^from`
/// elements are transformed, the passes up to stride `2^(to-1)` lead to the
/// sequence whose blocks of `2^to` elements are transformed.
pub proof fn lemma_passes_blockwise<T: Arithmetic>(x: Seq<T>, k: nat, from: nat, to: nat)
    requires
        x.len() == pow2(k),
        from <= to <= k,
    ensures
        passes(blockwise(x, pow2(from) as int), from, to) == blockwise(x, pow2(to) as int),
    decreases to,
{
    if to > from {
        let i = (to - 1) as nat;
        let m = pow2(i) as int;
        lemma_passes_blockwise(x, k, from, i);
        lemma_pow2_unfold(to);
        lemma_pow2_divides(to, k);
        lemma_pow2_pos(i);
        let y = passes(blockwise(x, pow2(from) as int), from, i);
        assert forall|p: int| 0 <= p < x.len() implies stage(y, m)[p] == blockwise(x, 2 * m)[p] by {
            lemma_stage_advances(x, y, m, 0, x.len() as int, p);
        }
        assert(stage(y, m) =~= blockwise(x, 2 * m));
    }
}

/// Stage by stage: the `k` butterfly passes of stride 1, 2, 4, ... over a
/// sequence of `2^k` elements compute its transform.
pub proof fn lemma_stages_transform<T: Arithmetic>(x: Seq<T>, k: nat)
    requires
        x.len() == pow2(k),
    ensures
        passes(x, 0, k) == hadamard(x),
{
    lemma2_to64();
    lemma_blockwise_one(x);
    lemma_passes_blockwise(x, k, 0, k);
    lemma_pow2_pos(k);
    lemma_blockwise_whole(x);
}

/// The index that the pass of stride `2^s` pairs the index `i` with: `i`
/// with bit `s` flipped.
pub open spec fn partner(i: u64, s: nat) -> u64 {
    i ^ (pow2(s) as u64)
}

proof fn lemma_flip_bit(i: u64, s: u64, t: u64)
    by (bit_vector)
    requires
        s < 63,
        t == s + 1,
    ensures
        i & (1u64 << s) == 0 ==> (i ^ (1u64 << s)) == i + (1u64 << s),
        i & (1u64 << s) != 0 ==> (i ^ (1u64 << s)) == i - (1u64 << s),
        (i & (((1u64 << t) - 1) as u64)) < (1u64 << s) <==> i & (1u64 << s) == 0,
{
}

/// Pairing by exclusive or: the pass of stride `2^s` combines the element
/// at `i` with the one at `i XOR 2^s`. Where bit `s` of `i` is clear, `i`
/// is the lower of the two and receives the sum; where it is set, `i` is
/// the upper one and receives the difference.
pub proof fn lemma_stage_pairs_by_xor<T: Arithmetic>(x: Seq<T>, s: nat, i: u64)
    requires
        s < 63,
    ensures
        pow2(s) <= u64::MAX,
        i & (pow2(s) as u64) == 0 ==> partner(i, s) == i + pow2(s) && stage_at(
            x,
            pow2(s) as int,
            i as int,
        ) == x[i as int].plus(x[partner(i, s) as int]),
        i & (pow2(s) as u64) != 0 ==> partner(i, s) == i - pow2(s) && stage_at(
            x,
            pow2(s) as int,
            i as int,
        ) == x[partner(i, s) as int].minus(x[i as int]),
{
    let t = (s + 1) as nat;
    lemma_u64_pow2_no_overflow(s);
    lemma_u64_pow2_no_overflow(t);
    lemma_u64_shl_is_mul(1, s as u64);
    lemma_u64_shl_is_mul(1, t as u64);
    lemma_pow2_unfold(t);
    lemma_flip_bit(i, s as u64, t as u64);
    lemma_u64_low_bits_mask_is_mod(i, t);
    assert(low_bits_mask(t) == pow2(t) - 1) by {
        reveal(low_bits_mask);
    }
}

/// What a kernel variant computes on `2^k` elements: its fused step
/// transforms every group of its width, and the remaining passes follow.
pub open spec fn kernel_result<T: Arithmetic>(kernel: Kernel, x: Seq<T>, k: nat) -> Seq<T> {
    let fused = kernel.fused_passes(k);
    passes(blockwise(x, pow2(fused) as int), fused, k)
}

/// Every kernel variant computes the transform, so any two of them agree
/// on every input, element for element.
pub proof fn lemma_kernels_agree<T: Arithmetic>(x: Seq<T>, k: nat, first: Kernel, second: Kernel)
    requires
        x.len() == pow2(k),
    ensures
        kernel_result(first, x, k) == hadamard(x),
        kernel_result(second, x, k) == kernel_result(first, x, k),
{
    lemma_passes_blockwise(x, k, first.fused_passes(k), k);
    lemma_passes_blockwise(x, k, second.fused_passes(k), k);
    lemma_pow2_pos(k);
    lemma_blockwise_whole(x);
}

/// The entry in row `i` and column `j` of the Hadamard matrix of order
/// `n`, by Sylvester's construction: the matrix of order `n` is made of
/// four copies of the matrix of order `n / 2`, the lower right one negated.
pub open spec fn matrix_entry(n: nat, i: int, j: int) -> int
    decreases n,
{
    if n < 2 {
        1
    } else {
        let half = (n / 2) as int;
        let inner = matrix_entry((n / 2) as nat, i % half, j % half);
        if i >= half && j >= half {
            -inner
        } else {
            inner
        }
    }
}

/// Row `i` of the Hadamard matrix of order `n`.
pub open spec fn matrix_row(n: nat, i: int) -> Seq<int> {
    Seq::new(n, |j: int| matrix_entry(n, i, j))
}

/// The sequence of the negated elements.
pub open spec fn negated(a: Seq<int>) -> Seq<int> {
    Seq::new(a.len(), |i: int| -a[i])
}

/// The sum of the products `a[i] * b[i]`.
pub open spec fn dot(a: Seq<int>, b: Seq<int>) -> int
    decreases a.len(),
{
    if a.len() == 0 {
        0
    } else {
        dot(a.drop_last(), b.drop_last()) + a.last() * b.last()
    }
}

/// The dot product of two concatenations is the sum of the dot products of
/// their parts.
pub proof fn lemma_dot_concat(a0: Seq<int>, a1: Seq<int>, b0: Seq<int>, b1: Seq<int>)
    requires
        a0.len() == b0.len(),
        a1.len() == b1.len(),
    ensures
        dot(a0 + a1, b0 + b1) == dot(a0, b0) + dot(a1, b1),
    decreases a1.len(),
{
    if a1.len() == 0 {
        assert(a0 + a1 =~= a0);
        assert(b0 + b1 =~= b0);
    } else {
        assert((a0 + a1).drop_last() =~= a0 + a1.drop_last());
        assert((b0 + b1).drop_last() =~= b0 + b1.drop_last());
        lemma_dot_concat(a0, a1.drop_last(), b0, b1.drop_last());
    }
}

/// Negating one factor negates the dot product.
pub proof fn lemma_dot_negated(a: Seq<int>, b: Seq<int>)
    requires
        a.len() == b.len(),
    ensures
        dot(negated(a), b) == -dot(a, b),
    decreases a.len(),
{
    if a.len() > 0 {
        assert(negated(a).drop_last() =~= negated(a.drop_last()));
        lemma_dot_negated(a.drop_last(), b.drop_last());
        let p = a.last();
        let q = b.last();
        assert((-p) * q == -(p * q)) by (nonlinear_arith);
    }
}

/// The transform as a matrix product: on exact arithmetic, element `i` of
/// the transform of `2^k` elements is the dot product of row `i` of the
/// Hadamard matrix of that order with the input.
pub proof fn lemma_hadamard_matrix(x: Seq<int>, k: nat, i: int)
    requires
        x.len() == pow2(k),
        0 <= i < x.len(),
    ensures
        hadamard(x)[i] == dot(matrix_row(x.len(), i), x),
    decreases k,
{
    let n = x.len();
    let row = matrix_row(n, i);
    if k == 0 {
        lemma2_to64();
        assert(row.drop_last().len() == 0);
        assert(dot(row.drop_last(), x.drop_last()) == 0);
        assert(row.last() == 1);
    } else {
        let j = (k - 1) as nat;
        let h = pow2(j) as int;
        lemma_halves_len(x, k);
        let x0 = lower_half(x);
        let x1 = upper_half(x);
        let r = if i < h {
            i
        } else {
            i - h
        };
        assert(i % h == r) by {
            if i < h {
                lemma_small_mod(i as nat, h as nat);
            } else {
                lemma_fundamental_div_mod_converse(i, h, 1, r);
            }
        }
        let inner = matrix_row(h as nat, r);
        let row0 = row.subrange(0, h);
        let row1 = row.subrange(h, 2 * h);
        assert forall|c: int| 0 <= c < h implies row0[c] == inner[c] && row1[c] == (if i >= h {
            -inner[c]
        } else {
            inner[c]
        }) by {
            lemma_small_mod(c as nat, h as nat);
            lemma_fundamental_div_mod_converse(c + h, h, 1, c);
            assert(row0[c] == matrix_entry(n, i, c));
            assert(row1[c] == matrix_entry(n, i, c + h));
        }
        assert(row0 =~= inner);
        assert(row =~= row0 + row1);
        assert(x =~= x0 + x1);
        lemma_dot_concat(row0, row1, x0, x1);
        lemma_hadamard_matrix(x0, j, r);
        lemma_hadamard_matrix(x1, j, r);
        lemma_hadamard_len(x0);
        lemma_hadamard_len(x1);
        lemma_hadamard_halves(x);
        if i >= h {
            assert(row1 =~= negated(inner));
            lemma_dot_negated(inner, x1);
            assert(hadamard(x)[i] == hadamard(x0)[r] - hadamard(x1)[r]);
        } else {
            assert(row1 =~= inner);
            assert(hadamard(x)[i] == hadamard(x0)[r] + hadamard(x1)[r]);
        }
    }
}

/// The mathematical integers that a sequence of machine integers stands
/// for.
pub open spec fn values<T: Integer>(x: Seq<T>) -> Seq<int> {
    Seq::new(x.len(), |i: int| x[i].value())
}

/// The magnitude of an integer.
pub open spec fn magnitude(v: int) -> int {
    if v < 0 {
        -v
    } else {
        v
    }
}

/// The sum of the magnitudes of the elements.
pub open spec fn sum_of_magnitudes(x: Seq<int>) -> int
    decreases x.len(),
{
    if x.len() == 0 {
        0
    } else {
        sum_of_magnitudes(x.drop_last()) + magnitude(x.last())
    }
}

/// The sum of magnitudes is not negative.
pub proof fn lemma_sum_of_magnitudes_nonnegative(x: Seq<int>)
    ensures
        sum_of_magnitudes(x) >= 0,
    decreases x.len(),
{
    if x.len() > 0 {
        lemma_sum_of_magnitudes_nonnegative(x.drop_last());
    }
}

/// The sum of magnitudes of a concatenation is the sum of the two sums.
pub proof fn lemma_sum_of_magnitudes_concat(a: Seq<int>, b: Seq<int>)
    ensures
        sum_of_magnitudes(a + b) == sum_of_magnitudes(a) + sum_of_magnitudes(b),
    decreases b.len(),
{
    if b.len() == 0 {
        assert(a + b =~= a);
    } else {
        assert((a + b).drop_last() =~= a + b.drop_last());
        lemma_sum_of_magnitudes_concat(a, b.drop_last());
    }
}

/// Elements that are all within `bound` have a sum of magnitudes within
/// `bound` times their number.
pub proof fn lemma_sum_of_magnitudes_bounded(x: Seq<int>, bound: int)
    requires
        forall|i: int| 0 <= i < x.len() ==> -bound <= #[trigger] x[i] <= bound,
    ensures
        sum_of_magnitudes(x) <= x.len() * bound,
    decreases x.len(),
{
    if x.len() > 0 {
        lemma_sum_of_magnitudes_bounded(x.drop_last(), bound);
        assert(-bound <= x[x.len() - 1] <= bound);
        assert((x.len() - 1) * bound + bound == x.len() * bound) by (nonlinear_arith);
    }
}

/// No element of the exact transform exceeds the sum of the magnitudes of
/// the input.
pub proof fn lemma_hadamard_bounded(x: Seq<int>, k: nat)
    requires
        x.len() == pow2(k),
    ensures
        forall|i: int|
            0 <= i < x.len() ==> -sum_of_magnitudes(x) <= #[trigger] hadamard(x)[i]
                <= sum_of_magnitudes(x),
    decreases k,
{
    if k == 0 {
        lemma2_to64();
        assert(x.drop_last().len() == 0);
        assert(sum_of_magnitudes(x.drop_last()) == 0);
    } else {
        let j = (k - 1) as nat;
        let h = pow2(j) as int;
        lemma_halves_len(x, k);
        let x0 = lower_half(x);
        let x1 = upper_half(x);
        lemma_hadamard_len(x0);
        lemma_hadamard_len(x1);
        lemma_hadamard_len(x);
        lemma_hadamard_halves(x);
        lemma_hadamard_bounded(x0, j);
        lemma_hadamard_bounded(x1, j);
        assert(x =~= x0 + x1);
        lemma_sum_of_magnitudes_concat(x0, x1);
        assert forall|i: int| 0 <= i < x.len() implies -sum_of_magnitudes(x) <= #[trigger] hadamard(
            x,
        )[i] <= sum_of_magnitudes(x) by {
            if i < h {
                assert(hadamard(x)[i] == hadamard(x0)[i] + hadamard(x1)[i]);
            } else {
                assert(hadamard(x)[i] == hadamard(x0)[i - h] - hadamard(x1)[i - h]);
            }
        }
    }
}

/// Exactness: where the magnitudes of the input add up to no more than the
/// type's limit, the transform of machine integers is the exact transform
/// of the integers they stand for.
pub proof fn lemma_transform_exact<T: Integer>(x: Seq<T>, k: nat)
    requires
        x.len() == pow2(k),
        sum_of_magnitudes(values(x)) <= T::limit(),
    ensures
        values(hadamard(x)) == hadamard(values(x)),
    decreases k,
{
    lemma_hadamard_len(x);
    lemma_hadamard_len(values(x));
    if k == 0 {
        lemma2_to64();
        assert(values(hadamard(x)) =~= hadamard(values(x)));
    } else {
        let j = (k - 1) as nat;
        let h = pow2(j) as int;
        let v = values(x);
        lemma_halves_len(x, k);
        lemma_halves_len(v, k);
        let x0 = lower_half(x);
        let x1 = upper_half(x);
        let v0 = lower_half(v);
        let v1 = upper_half(v);
        assert(values(x0) =~= v0);
        assert(values(x1) =~= v1);
        assert(v =~= v0 + v1);
        lemma_sum_of_magnitudes_concat(v0, v1);
        lemma_sum_of_magnitudes_nonnegative(v0);
        lemma_sum_of_magnitudes_nonnegative(v1);
        lemma_transform_exact(x0, j);
        lemma_transform_exact(x1, j);
        lemma_hadamard_bounded(v0, j);
        lemma_hadamard_bounded(v1, j);
        lemma_hadamard_len(x0);
        lemma_hadamard_len(x1);
        lemma_hadamard_len(v0);
        lemma_hadamard_len(v1);
        lemma_hadamard_halves(x);
        lemma_hadamard_halves(v);
        let a = hadamard(x0);
        let b = hadamard(x1);
        assert forall|i: int| 0 <= i < x.len() implies values(hadamard(x))[i] == hadamard(v)[i] by {
            if i < h {
                assert(values(a)[i] == hadamard(v0)[i]);
                assert(values(b)[i] == hadamard(v1)[i]);
                T::lemma_plus_exact(a[i], b[i]);
                assert(hadamard(x)[i] == a[i].plus(b[i]));
                assert(hadamard(v)[i] == hadamard(v0)[i] + hadamard(v1)[i]);
            } else {
                let r = i - h;
                assert(values(a)[r] == hadamard(v0)[r]);
                assert(values(b)[r] == hadamard(v1)[r]);
                T::lemma_minus_exact(a[r], b[r]);
                assert(hadamard(x)[i] == a[r].minus(b[r]));
                assert(hadamard(v)[i] == hadamard(v0)[r] - hadamard(v1)[r]);
            }
        }
        assert(values(hadamard(x)) =~= hadamard(v));
    }
}

/// The energy identity on machine integers: where the magnitudes of the
/// input add up to no more than the type's limit, the sum of squares of the
/// transform is `2^k` times the sum of squares of the input.
pub proof fn lemma_transform_energy<T: Integer>(x: Seq<T>, k: nat)
    requires
        x.len() == pow2(k),
        sum_of_magnitudes(values(x)) <= T::limit(),
    ensures
        sum_of_squares(values(hadamard(x))) == pow2(k) * sum_of_squares(values(x)),
{
    lemma_transform_exact(x, k);
    lemma_hadamard_energy(values(x), k);
}

/// Self-inverse up to scale on machine integers: where `2^k` times the sum
/// of the magnitudes of the input stays within the type's limit, two
/// transforms in a row give the input with every element multiplied by
/// `2^k`, and nothing wraps around on the way.
pub proof fn lemma_transform_twice<T: Integer>(x: Seq<T>, k: nat)
    requires
        x.len() == pow2(k),
        pow2(k) * sum_of_magnitudes(values(x)) <= T::limit(),
    ensures
        values(hadamard(x)) == hadamard(values(x)),
        values(hadamard(hadamard(x))) == scaled(values(x), pow2(k) as int),
{
    let v = values(x);
    let n = pow2(k) as int;
    let total = sum_of_magnitudes(v);
    lemma_pow2_pos(k);
    lemma_sum_of_magnitudes_nonnegative(v);
    assert(total <= n * total) by (nonlinear_arith)
        requires
            n >= 1,
            total >= 0,
    ;
    lemma_transform_exact(x, k);
    lemma_hadamard_len(x);
    lemma_hadamard_len(v);
    lemma_hadamard_bounded(v, k);
    lemma_sum_of_magnitudes_bounded(hadamard(v), total);
    lemma_transform_exact(hadamard(x), k);
    lemma_hadamard_involution(v, k);
}

/// Whether two sequences of one length agree element by element up to
/// multiples of `m`.
pub open spec fn congruent(a: Seq<int>, b: Seq<int>, m: int) -> bool {
    &&& a.len() == b.len()
    &&& forall|i: int| 0 <= i < a.len() ==> #[trigger] a[i] % m == b[i] % m
}

/// The exact transforms of congruent sequences are congruent.
pub proof fn lemma_hadamard_congruent(a: Seq<int>, b: Seq<int>, k: nat, m: int)
    requires
        m > 0,
        a.len() == pow2(k),
        congruent(a, b, m),
    ensures
        congruent(hadamard(a), hadamard(b), m),
    decreases k,
{
    lemma_hadamard_len(a);
    lemma_hadamard_len(b);
    if k == 0 {
        lemma2_to64();
    } else {
        let j = (k - 1) as nat;
        let h = pow2(j) as int;
        lemma_halves_len(a, k);
        lemma_halves_len(b, k);
        let a0 = lower_half(a);
        let a1 = upper_half(a);
        let b0 = lower_half(b);
        let b1 = upper_half(b);
        assert(congruent(a0, b0, m)) by {
            assert forall|i: int| 0 <= i < a0.len() implies #[trigger] a0[i] % m == b0[i] % m by {
                assert(a[i] % m == b[i] % m);
            }
        }
        assert(congruent(a1, b1, m)) by {
            assert forall|i: int| 0 <= i < a1.len() implies #[trigger] a1[i] % m == b1[i] % m by {
                assert(a[i + h] % m == b[i + h] % m);
            }
        }
        lemma_hadamard_congruent(a0, b0, j, m);
        lemma_hadamard_congruent(a1, b1, j, m);
        lemma_hadamard_len(a0);
        lemma_hadamard_len(a1);
        lemma_hadamard_len(b0);
        lemma_hadamard_len(b1);
        lemma_hadamard_halves(a);
        lemma_hadamard_halves(b);
        let ha = hadamard(a);
        let hb = hadamard(b);
        assert forall|i: int| 0 <= i < ha.len() implies #[trigger] ha[i] % m == hb[i] % m by {
            let r = if i < h {
                i
            } else {
                i - h
            };
            let p = hadamard(a0)[r];
            let q = hadamard(a1)[r];
            let s = hadamard(b0)[r];
            let t = hadamard(b1)[r];
            assert(p % m == s % m);
            assert(q % m == t % m);
            if i < h {
                assert(ha[i] == p + q);
                assert(hb[i] == s + t);
                lemma_add_mod_noop(p, q, m);
                lemma_add_mod_noop(s, t, m);
            } else {
                assert(ha[i] == p - q);
                assert(hb[i] == s - t);
                lemma_sub_mod_noop(p, q, m);
                lemma_sub_mod_noop(s, t, m);
            }
        }
    }
}

/// Wrap-around: the transform of machine integers is, element by element
/// and up to multiples of the type's modulus, the exact transform of the
/// integers they stand for. This holds of every input.
pub proof fn lemma_transform_wraps<T: Integer>(x: Seq<T>, k: nat)
    requires
        x.len() == pow2(k),
    ensures
        congruent(values(hadamard(x)), hadamard(values(x)), T::modulus()),
    decreases k,
{
    let m = T::modulus();
    let v = values(x);
    T::lemma_modulus_positive();
    lemma_hadamard_len(x);
    lemma_hadamard_len(v);
    if k == 0 {
        lemma2_to64();
        assert(values(hadamard(x)) =~= hadamard(v));
    } else {
        let j = (k - 1) as nat;
        let h = pow2(j) as int;
        lemma_halves_len(x, k);
        lemma_halves_len(v, k);
        let x0 = lower_half(x);
        let x1 = upper_half(x);
        let v0 = lower_half(v);
        let v1 = upper_half(v);
        assert(values(x0) =~= v0);
        assert(values(x1) =~= v1);
        lemma_transform_wraps(x0, j);
        lemma_transform_wraps(x1, j);
        lemma_hadamard_len(x0);
        lemma_hadamard_len(x1);
        lemma_hadamard_len(v0);
        lemma_hadamard_len(v1);
        lemma_hadamard_halves(x);
        lemma_hadamard_halves(v);
        let a = hadamard(x0);
        let b = hadamard(x1);
        let left = values(hadamard(x));
        let right = hadamard(v);
        assert forall|i: int| 0 <= i < left.len() implies #[trigger] left[i] % m == right[i]
            % m by {
            let r = if i < h {
                i
            } else {
                i - h
            };
            let p = a[r].value();
            let q = b[r].value();
            let s = hadamard(v0)[r];
            let t = hadamard(v1)[r];
            assert(p == values(a)[r]);
            assert(q == values(b)[r]);
            assert(values(a)[r] % m == s % m);
            assert(values(b)[r] % m == t % m);
            if i < h {
                T::lemma_plus_wraps(a[r], b[r]);
                assert(hadamard(x)[i] == a[r].plus(b[r]));
                assert(right[i] == s + t);
                lemma_add_mod_noop(p, q, m);
                lemma_add_mod_noop(s, t, m);
            } else {
                T::lemma_minus_wraps(a[r], b[r]);
                assert(hadamard(x)[i] == a[r].minus(b[r]));
                assert(right[i] == s - t);
                lemma_sub_mod_noop(p, q, m);
                lemma_sub_mod_noop(s, t, m);
            }
        }
    }
}

/// Self-inverse up to scale and wrap-around: two transforms of machine
/// integers in a row give, up to multiples of the type's modulus, the input
/// with every element multiplied by `2^k`. This holds of every input.
pub proof fn lemma_transform_twice_wraps<T: Integer>(x: Seq<T>, k: nat)
    requires
        x.len() == pow2(k),
    ensures
        congruent(values(hadamard(hadamard(x))), scaled(values(x), pow2(k) as int), T::modulus()),
{
    let m = T::modulus();
    let v = values(x);
    let once = hadamard(x);
    T::lemma_modulus_positive();
    lemma_hadamard_len(x);
    lemma_hadamard_len(v);
    lemma_hadamard_len(once);
    lemma_transform_wraps(x, k);
    lemma_transform_wraps(once, k);
    lemma_hadamard_congruent(values(once), hadamard(v), k, m);
    lemma_hadamard_involution(v, k);
    let left = values(hadamard(once));
    let middle = hadamard(values(once));
    let right = scaled(v, pow2(k) as int);
    lemma_hadamard_len(values(once));
    assert forall|i: int| 0 <= i < left.len() implies #[trigger] left[i] % m == right[i] % m by {
        assert(left[i] % m == middle[i] % m);
        assert(middle[i] % m == hadamard(hadamard(v))[i] % m);
    }
}

/// Both modes agree: an out-of-place request on buffers of one length is
/// answered as the in-place request on the source is, and where it
/// succeeds the destination holds what the in-place transform leaves in
/// the source.
pub proof fn lemma_modes_agree<T: Arithmetic>(source: Seq<T>, destination: Seq<T>, log_n: usize)
    requires
        source.len() == destination.len(),
    ensures
        outofplace_outcome(source.len() as usize, destination.len() as usize, log_n)
            == request_outcome(source.len() as usize, log_n),
        request_outcome(source.len() as usize, log_n) is Ok ==> outofplace_result(
            source,
            destination,
            log_n,
        ) == inplace_result(source, log_n),
{
}

} // verus!
