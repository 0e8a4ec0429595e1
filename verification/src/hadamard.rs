//! What the transform computes.
//!
//! The Hadamard transform of a sequence of `2^k` elements is defined by the
//! recursion that the butterfly algorithm rests on: transform the two
//! halves, then combine them element by element into sums and differences.
//! The definition fixes the order of every addition, so it also fixes the
//! result for arithmetic that rounds or wraps.

use vstd::prelude::*;
use vstd::arithmetic::div_mod::*;
use crate::element::Arithmetic;

verus! {

/// The Hadamard transform of `x`.
///
/// A sequence of fewer than two elements is its own transform. Otherwise,
/// with `a` and `b` the transforms of its lower and upper half, the lower
/// half of the result holds the sums `a[i] + b[i]` and the upper half the
/// differences `a[i] - b[i]`.
pub open spec fn hadamard<T: Arithmetic>(x: Seq<T>) -> Seq<T>
    decreases x.len(),
{
    if x.len() < 2 {
        x
    } else {
        let half = (x.len() / 2) as int;
        let a = hadamard(x.subrange(0, half));
        let b = hadamard(x.subrange(half, 2 * half));
        Seq::new(
            x.len(),
            |i: int|
                if i < half {
                    a[i].plus(b[i])
                } else {
                    a[i - half].minus(b[i - half])
                },
        )
    }
}

/// The aligned block of `m` elements of `x` that holds index `i`.
pub open spec fn block_of<T>(x: Seq<T>, m: int, i: int) -> Seq<T> {
    x.subrange(i - i % m, i - i % m + m)
}

/// The sequence in which every aligned block of `m` elements of `x` has
/// been replaced by its Hadamard transform.
///
/// With `m == 1` this is `x`; with `m == x.len()` it is the transform of
/// `x`. The butterfly pass of stride `m` leads from `blockwise(x, m)` to
/// `blockwise(x, 2 * m)`.
pub open spec fn blockwise<T: Arithmetic>(x: Seq<T>, m: int) -> Seq<T> {
    Seq::new(x.len(), |i: int| hadamard(block_of(x, m, i))[i % m])
}

/// The transform keeps the length.
pub proof fn lemma_hadamard_len<T: Arithmetic>(x: Seq<T>)
    ensures
        hadamard(x).len() == x.len(),
{
}

/// Where an index stands in its block of `m` and in its block of `2 * m`,
/// for an index in the lower half of the larger block.
pub proof fn lemma_half_index(i: int, m: int)
    requires
        m > 0,
        i >= 0,
        i % (2 * m) < m,
    ensures
        i % m == i % (2 * m),
        (i + m) % m == i % (2 * m),
        (i + m) % (2 * m) == i % (2 * m) + m,
        0 <= i % (2 * m) <= i,
{
    let q = i / (2 * m);
    let r = i % (2 * m);
    lemma_fundamental_div_mod(i, 2 * m);
    lemma_mod_pos_bound(i, 2 * m);
    lemma_mod_decreases(i as nat, (2 * m) as nat);
    assert(i == (2 * m) * q + r);
    assert((2 * m) * q == (2 * q) * m) by (nonlinear_arith);
    assert((2 * q) * m + m == (2 * q + 1) * m) by (nonlinear_arith);
    assert((2 * m) * q == q * (2 * m)) by (nonlinear_arith);
    lemma_fundamental_div_mod_converse(i, m, 2 * q, r);
    lemma_fundamental_div_mod_converse(i + m, m, 2 * q + 1, r);
    lemma_fundamental_div_mod_converse(i + m, 2 * m, q, r + m);
}

/// One butterfly joins two transformed blocks of `m` elements into one
/// transformed block of `2 * m`: for an index `i` in the lower half of its
/// block of `2 * m`, the new values at `i` and `i + m` are the sum and the
/// difference of the old values at `i` and `i + m`.
pub proof fn lemma_blockwise_step<T: Arithmetic>(x: Seq<T>, m: int, i: int)
    requires
        m > 0,
        0 <= i,
        i % (2 * m) < m,
        i - i % (2 * m) + 2 * m <= x.len(),
    ensures
        blockwise(x, 2 * m)[i] == blockwise(x, m)[i].plus(blockwise(x, m)[i + m]),
        blockwise(x, 2 * m)[i + m] == blockwise(x, m)[i].minus(blockwise(x, m)[i + m]),
{
    lemma_half_index(i, m);
    let r = i % (2 * m);
    let base = i - r;
    let wide = block_of(x, 2 * m, i);
    assert(wide == x.subrange(base, base + 2 * m));
    assert(block_of(x, 2 * m, i + m) == wide);
    assert(wide.len() == 2 * m);
    let half = (wide.len() / 2) as int;
    assert(half == m);
    assert(wide.subrange(0, m) =~= block_of(x, m, i));
    assert(wide.subrange(m, 2 * m) =~= block_of(x, m, i + m));
    let a = hadamard(block_of(x, m, i));
    let b = hadamard(block_of(x, m, i + m));
    lemma_hadamard_len(block_of(x, m, i));
    lemma_hadamard_len(block_of(x, m, i + m));
    assert(hadamard(wide)[r] == a[r].plus(b[r]));
    assert(hadamard(wide)[r + m] == a[r].minus(b[r]));
}

/// Blocks of one element are already transformed.
pub proof fn lemma_blockwise_one<T: Arithmetic>(x: Seq<T>)
    ensures
        blockwise(x, 1) == x,
{
    assert forall|i: int| 0 <= i < x.len() implies blockwise(x, 1)[i] == x[i] by {
        assert(i % 1 == 0);
        assert(block_of(x, 1, i) =~= seq![x[i]]);
    }
    assert(blockwise(x, 1) =~= x);
}

/// A single block that spans the whole sequence is the transform itself.
pub proof fn lemma_blockwise_whole<T: Arithmetic>(x: Seq<T>)
    requires
        x.len() > 0,
    ensures
        blockwise(x, x.len() as int) == hadamard(x),
{
    let n = x.len() as int;
    lemma_hadamard_len(x);
    assert forall|i: int| 0 <= i < n implies blockwise(x, n)[i] == hadamard(x)[i] by {
        lemma_small_mod(i as nat, n as nat);
        assert(block_of(x, n, i) =~= x);
    }
    assert(blockwise(x, n) =~= hadamard(x));
}

/// Where an index in the upper half of its block of `2 * m` stands once it
/// is moved down by `m`.
pub proof fn lemma_upper_half_index(i: int, m: int)
    requires
        m > 0,
        i >= 0,
        i % (2 * m) >= m,
    ensures
        i - m >= 0,
        (i - m) % (2 * m) == i % (2 * m) - m,
{
    let q = i / (2 * m);
    let r = i % (2 * m);
    lemma_fundamental_div_mod(i, 2 * m);
    lemma_mod_pos_bound(i, 2 * m);
    lemma_mod_decreases(i as nat, (2 * m) as nat);
    assert((2 * m) * q == q * (2 * m)) by (nonlinear_arith);
    lemma_fundamental_div_mod_converse(i - m, 2 * m, q, r - m);
}

/// An aligned block of `w` elements that holds an index of an aligned
/// region lies within the region.
pub proof fn lemma_block_within(i: int, w: int, start: int, len: int)
    requires
        w > 0,
        0 <= start <= i < start + len,
        start % w == 0,
        len % w == 0,
    ensures
        start <= i - i % w,
        i - i % w + w <= start + len,
        0 <= i % w < w,
{
    let a = start / w;
    let c = len / w;
    let q = i / w;
    lemma_fundamental_div_mod(start, w);
    lemma_fundamental_div_mod(len, w);
    lemma_fundamental_div_mod(i, w);
    lemma_mod_pos_bound(i, w);
    assert(start == w * a);
    assert(start + len == w * (a + c)) by (nonlinear_arith)
        requires
            start == w * a,
            len == w * c,
    ;
    assert(i - i % w == w * q);
    assert(a <= q) by (nonlinear_arith)
        requires
            w > 0,
            w * a <= w * q + (i % w),
            0 <= i % w < w,
    ;
    assert(q + 1 <= a + c) by (nonlinear_arith)
        requires
            w > 0,
            w * q + (i % w) < w * (a + c),
            0 <= i % w < w,
    ;
    assert(w * a <= w * q) by (nonlinear_arith)
        requires
            w > 0,
            a <= q,
    ;
    assert(w * q + w <= w * (a + c)) by (nonlinear_arith)
        requires
            w > 0,
            q + 1 <= a + c,
    ;
}

/// Inside an aligned block that starts at `base`, the blockwise transform
/// is the transform of that block.
pub proof fn lemma_blockwise_at<T: Arithmetic>(x: Seq<T>, m: int, base: int, i: int)
    requires
        m > 0,
        0 <= base <= i < base + m,
        base % m == 0,
        base + m <= x.len(),
    ensures
        i % m == i - base,
        block_of(x, m, i) == x.subrange(base, base + m),
        blockwise(x, m)[i] == hadamard(x.subrange(base, base + m))[i - base],
{
    lemma_block_within(i, m, base, m);
}

/// The value that the butterfly pass of stride `stride` leaves at index
/// `i`: the element is paired with the one `stride` places away in its
/// block of `2 * stride`; the lower of the two becomes their sum, the
/// upper their difference.
pub open spec fn stage_at<T: Arithmetic>(x: Seq<T>, stride: int, i: int) -> T {
    if i % (2 * stride) < stride {
        x[i].plus(x[i + stride])
    } else {
        x[i - stride].minus(x[i])
    }
}

/// The butterfly pass of stride `stride` over the `len` elements from
/// `start`; the rest of the sequence stays as it is.
pub open spec fn stage_region<T: Arithmetic>(x: Seq<T>, start: int, len: int, stride: int) -> Seq<
    T,
> {
    Seq::new(
        x.len(),
        |i: int|
            if start <= i < start + len {
                stage_at(x, stride, i)
            } else {
                x[i]
            },
    )
}

/// The butterfly pass of stride `stride` over the whole sequence.
pub open spec fn stage<T: Arithmetic>(x: Seq<T>, stride: int) -> Seq<T> {
    stage_region(x, 0, x.len() as int, stride)
}

/// A butterfly pass of stride `m` over a region whose blocks of `m` are
/// transformed leaves its blocks of `2 * m` transformed.
pub proof fn lemma_stage_advances<T: Arithmetic>(
    x: Seq<T>,
    y: Seq<T>,
    m: int,
    start: int,
    len: int,
    i: int,
)
    requires
        m > 0,
        0 <= start,
        start + len <= x.len(),
        x.len() == y.len(),
        start % (2 * m) == 0,
        len % (2 * m) == 0,
        forall|j: int| start <= j < start + len ==> y[j] == #[trigger] blockwise(x, m)[j],
        start <= i < start + len,
    ensures
        stage_at(y, m, i) == blockwise(x, 2 * m)[i],
{
    lemma_block_within(i, 2 * m, start, len);
    if i % (2 * m) < m {
        lemma_half_index(i, m);
        lemma_blockwise_step(x, m, i);
        assert(y[i] == blockwise(x, m)[i]);
        assert(y[i + m] == blockwise(x, m)[i + m]);
    } else {
        lemma_upper_half_index(i, m);
        lemma_half_index(i - m, m);
        lemma_blockwise_step(x, m, i - m);
        assert(y[i] == blockwise(x, m)[i]);
        assert(y[i - m] == blockwise(x, m)[i - m]);
    }
}

/// The sequence in which the `len` elements of `x` from `start` have been
/// replaced by their Hadamard transform; the rest stays as it is.
pub open spec fn transform_region<T: Arithmetic>(x: Seq<T>, start: int, len: int) -> Seq<T> {
    Seq::new(
        x.len(),
        |i: int|
            if start <= i < start + len {
                hadamard(x.subrange(start, start + len))[i - start]
            } else {
                x[i]
            },
    )
}

/// A sequence that agrees with the blockwise transform of `x` on one
/// aligned block, and with `x` elsewhere, is `x` with that block
/// transformed.
pub proof fn lemma_region_done<T: Arithmetic>(x: Seq<T>, y: Seq<T>, start: int, len: int)
    requires
        len > 0,
        0 <= start,
        start % len == 0,
        start + len <= x.len(),
        y.len() == x.len(),
        forall|i: int| start <= i < start + len ==> y[i] == #[trigger] blockwise(x, len)[i],
        forall|i: int| 0 <= i < start || start + len <= i < x.len() ==> y[i] == x[i],
    ensures
        y == transform_region(x, start, len),
{
    assert forall|i: int| 0 <= i < x.len() implies y[i] == transform_region(x, start, len)[i] by {
        if start <= i < start + len {
            lemma_blockwise_at(x, len, start, i);
            assert(y[i] == blockwise(x, len)[i]);
        }
    }
    assert(y =~= transform_region(x, start, len));
}

} // verus!
