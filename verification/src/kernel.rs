//! The kernels: butterfly passes over a buffer, and the fused kernels that
//! run several passes over a few elements held in local variables.

use vstd::prelude::*;
use vstd::arithmetic::div_mod::*;
use vstd::arithmetic::power2::*;
use crate::element::Butterfly;
use crate::hadamard::{
    blockwise, lemma_block_within, lemma_blockwise_at, lemma_blockwise_one,
    lemma_blockwise_step, lemma_blockwise_whole, lemma_region_done, lemma_stage_advances,
    stage_at, stage_region, transform_region,
};
use crate::size::{exponent_of, is_power_of_two, lemma_multiple_of_multiple, lemma_pow2_divides};

verus! {

/// One butterfly pass of stride `stride` over the `len` elements of `buf`
/// from `start`. The region is made of whole blocks of `2 * stride`
/// elements; in each block the element at offset `j < stride` and the one
/// at offset `j + stride` are replaced by their sum and their difference.
pub fn butterfly_pass<T: Butterfly>(buf: &mut [T], start: usize, len: usize, stride: usize)
    requires
        stride >= 1,
        (start as int) % (2 * stride) == 0,
        (len as int) % (2 * stride) == 0,
        start + len <= old(buf)@.len(),
    ensures
        final(buf)@ == stage_region(old(buf)@, start as int, len as int, stride as int),
{
    let ghost x = buf@;
    assert(x.len() == buf.len());
    let end = start + len;
    let mut base = start;
    while base < end
        invariant
            stride >= 1,
            (start as int) % (2 * stride) == 0,
            (len as int) % (2 * stride) == 0,
            end == start + len,
            end <= x.len(),
            start <= base <= end,
            (base as int) % (2 * stride) == 0,
            buf@.len() == x.len(),
            forall|i: int|
                0 <= i < x.len() ==> buf@[i] == if start <= i < base {
                    stage_at(x, stride as int, i)
                } else {
                    x[i]
                },
        decreases end - base,
    {
        proof {
            lemma_block_within(base as int, 2 * stride, start as int, len as int);
            lemma_small_mod(0, (2 * stride) as nat);
        }
        let mut j: usize = 0;
        while j < stride
            invariant
                stride >= 1,
                end <= x.len(),
                start <= base,
                base + 2 * stride <= end,
                (base as int) % (2 * stride) == 0,
                j <= stride,
                buf@.len() == x.len(),
                forall|i: int|
                    0 <= i < x.len() ==> buf@[i] == if start <= i < base || base <= i < base + j
                        || base + stride <= i < base + stride + j {
                        stage_at(x, stride as int, i)
                    } else {
                        x[i]
                    },
            decreases stride - j,
        {
            let low = base + j;
            let high = low + stride;
            proof {
                lemma_block_within(low as int, 2 * stride, base as int, 2 * stride);
                lemma_block_within(high as int, 2 * stride, base as int, 2 * stride);
                assert((low as int) % (2 * stride) == j) by {
                    lemma_mod_pos_bound(low as int, 2 * stride);
                }
                assert((high as int) % (2 * stride) == j + stride) by {
                    lemma_mod_pos_bound(high as int, 2 * stride);
                }
            }
            let (sum, difference) = buf[low].butterfly(buf[high]);
            buf[low] = sum;
            buf[high] = difference;
            j = j + 1;
        }
        base = base + 2 * stride;
        proof {
            lemma_mod_add_multiples_vanish((base - 2 * stride) as int, 2 * stride);
        }
    }
    assert(buf@ =~= stage_region(x, start as int, len as int, stride as int));
}

/// The fused kernel for four elements: both butterfly passes of a block of
/// four, on values held in local variables. The four elements of `buf`
/// from `start` are replaced by their transform.
pub fn fused4<T: Butterfly>(buf: &mut [T], start: usize)
    requires
        start + 4 <= old(buf)@.len(),
    ensures
        final(buf)@ == transform_region(old(buf)@, start as int, 4),
{
    let ghost x = buf@;
    let ghost block = x.subrange(start as int, start + 4);
    assert(x.len() == buf.len());
    let (a0, a1) = buf[start].butterfly(buf[start + 1]);
    let (a2, a3) = buf[start + 2].butterfly(buf[start + 3]);
    let (b0, b2) = a0.butterfly(a2);
    let (b1, b3) = a1.butterfly(a3);
    proof {
        lemma_blockwise_one(block);
        lemma_blockwise_step(block, 1, 0);
        lemma_blockwise_step(block, 1, 2);
        lemma_blockwise_step(block, 2, 0);
        lemma_blockwise_step(block, 2, 1);
        lemma_blockwise_whole(block);
    }
    buf[start] = b0;
    buf[start + 1] = b1;
    buf[start + 2] = b2;
    buf[start + 3] = b3;
    assert(buf@ =~= transform_region(x, start as int, 4));
}

/// The fused kernel for eight elements: the three butterfly passes of a
/// block of eight, on values held in local variables. The eight elements
/// of `buf` from `start` are replaced by their transform.
pub fn fused8<T: Butterfly>(buf: &mut [T], start: usize)
    requires
        start + 8 <= old(buf)@.len(),
    ensures
        final(buf)@ == transform_region(old(buf)@, start as int, 8),
{
    let ghost x = buf@;
    let ghost block = x.subrange(start as int, start + 8);
    assert(x.len() == buf.len());
    let (a0, a1) = buf[start].butterfly(buf[start + 1]);
    let (a2, a3) = buf[start + 2].butterfly(buf[start + 3]);
    let (a4, a5) = buf[start + 4].butterfly(buf[start + 5]);
    let (a6, a7) = buf[start + 6].butterfly(buf[start + 7]);
    let (b0, b2) = a0.butterfly(a2);
    let (b1, b3) = a1.butterfly(a3);
    let (b4, b6) = a4.butterfly(a6);
    let (b5, b7) = a5.butterfly(a7);
    let (c0, c4) = b0.butterfly(b4);
    let (c1, c5) = b1.butterfly(b5);
    let (c2, c6) = b2.butterfly(b6);
    let (c3, c7) = b3.butterfly(b7);
    proof {
        lemma_blockwise_one(block);
        lemma_blockwise_step(block, 1, 0);
        lemma_blockwise_step(block, 1, 2);
        lemma_blockwise_step(block, 1, 4);
        lemma_blockwise_step(block, 1, 6);
        lemma_blockwise_step(block, 2, 0);
        lemma_blockwise_step(block, 2, 1);
        lemma_blockwise_step(block, 2, 4);
        lemma_blockwise_step(block, 2, 5);
        lemma_blockwise_step(block, 4, 0);
        lemma_blockwise_step(block, 4, 1);
        lemma_blockwise_step(block, 4, 2);
        lemma_blockwise_step(block, 4, 3);
        lemma_blockwise_whole(block);
    }
    buf[start] = c0;
    buf[start + 1] = c1;
    buf[start + 2] = c2;
    buf[start + 3] = c3;
    buf[start + 4] = c4;
    buf[start + 5] = c5;
    buf[start + 6] = c6;
    buf[start + 7] = c7;
    assert(buf@ =~= transform_region(x, start as int, 8));
}

/// The kernel variants. Each computes the same transform; they differ in
/// how many elements the innermost step holds in local variables at once.
#[derive(Debug, Clone, Copy, PartialEq, Eq, Structural)]
pub enum Kernel {
    /// One butterfly at a time, pass by pass.
    Scalar,
    /// Groups of four elements with two passes fused, then single passes.
    Lanes4,
    /// Groups of eight elements with three passes fused, then single passes.
    Lanes8,
}

impl Kernel {
    /// The number of elements that the variant's fused step works on.
    pub open spec fn lanes_spec(self) -> nat {
        match self {
            Kernel::Scalar => 1,
            Kernel::Lanes4 => 4,
            Kernel::Lanes8 => 8,
        }
    }

    /// The number of butterfly passes that the variant's fused step does on
    /// a block of `2^k` elements: all the passes of one group where the
    /// block holds a whole group, and none where it is smaller.
    pub open spec fn fused_passes(self, k: nat) -> nat {
        match self {
            Kernel::Scalar => 0,
            Kernel::Lanes4 => if k >= 2 {
                2
            } else {
                0
            },
            Kernel::Lanes8 => if k >= 3 {
                3
            } else {
                0
            },
        }
    }

    /// The number of elements that the variant's fused step works on.
    pub fn lanes(&self) -> (n: usize)
        ensures
            n == self.lanes_spec(),
    {
        match self {
            Kernel::Scalar => 1,
            Kernel::Lanes4 => 4,
            Kernel::Lanes8 => 8,
        }
    }

    /// The widest variant whose fused step fits into `lanes` elements.
    pub fn select(lanes: usize) -> (kernel: Kernel)
        ensures
            kernel == (if lanes >= 8 {
                Kernel::Lanes8
            } else if lanes >= 4 {
                Kernel::Lanes4
            } else {
                Kernel::Scalar
            }),
    {
        if lanes >= 8 {
            Kernel::Lanes8
        } else if lanes >= 4 {
            Kernel::Lanes4
        } else {
            Kernel::Scalar
        }
    }
}

/// Runs the variant's fused step over every group of a block, where the
/// block is large enough for it, and returns the block size that is
/// transformed afterwards: the group size, or 1 where nothing was done.
fn fused_phase<T: Butterfly>(buf: &mut [T], start: usize, len: usize, kernel: Kernel) -> (width:
    usize)
    requires
        is_power_of_two(len as int),
        (start as int) % (len as int) == 0,
        start + len <= old(buf)@.len(),
    ensures
        final(buf)@.len() == old(buf)@.len(),
        width == pow2(kernel.fused_passes(exponent_of(len as int))),
        is_power_of_two(width as int),
        width <= len,
        forall|i: int|
            0 <= i < old(buf)@.len() ==> final(buf)@[i] == if start <= i < start + len {
                blockwise(old(buf)@, width as int)[i]
            } else {
                old(buf)@[i]
            },
{
    let ghost x = buf@;
    let ghost k = exponent_of(len as int);
    assert(x.len() == buf.len());
    proof {
        lemma2_to64();
        lemma_blockwise_one(x);
        assert(1 == pow2(0));
        assert(4 == pow2(2));
        assert(8 == pow2(3));
    }
    let group = kernel.lanes();
    if group == 1 || group > len {
        proof {
            lemma_pow2_pos(k);
            if k >= 2 {
                lemma_pow2_divides(2, k);
            }
            if k >= 3 {
                lemma_pow2_divides(3, k);
            }
        }
        return 1;
    }
    proof {
        let g: nat = if group == 4 {
            2
        } else {
            3
        };
        if k < g {
            lemma_pow2_strictly_increases(k, g);
        }
        lemma_pow2_divides(g, k);
        lemma_multiple_of_multiple(start as int, len as int, group as int);
    }
    let end = start + len;
    let mut at = start;
    while at < end
        invariant
            group == 4 || group == 8,
            group == kernel.lanes_spec(),
            (start as int) % (group as int) == 0,
            (len as int) % (group as int) == 0,
            end == start + len,
            end <= x.len(),
            start <= at <= end,
            (at as int) % (group as int) == 0,
            buf@.len() == x.len(),
            forall|i: int|
                0 <= i < x.len() ==> buf@[i] == if start <= i < at {
                    blockwise(x, group as int)[i]
                } else {
                    x[i]
                },
        decreases end - at,
    {
        proof {
            lemma_block_within(at as int, group as int, start as int, len as int);
            lemma_small_mod(0, group as nat);
        }
        let ghost before = buf@;
        match kernel {
            Kernel::Lanes4 => {
                fused4(buf, at);
            },
            _ => {
                fused8(buf, at);
            },
        }
        proof {
            assert(before.subrange(at as int, at + group) =~= x.subrange(at as int, at + group));
            assert forall|i: int| 0 <= i < x.len() implies buf@[i] == if start <= i < at + group {
                blockwise(x, group as int)[i]
            } else {
                x[i]
            } by {
                if at <= i < at + group {
                    lemma_blockwise_at(x, group as int, at as int, i);
                }
            }
            lemma_mod_add_multiples_vanish(at as int, group as int);
        }
        at = at + group;
    }
    group
}

/// Transforms one block: the `len` elements of `buf` from `start`, where
/// `len` is a power of two and `start` a multiple of it. The fused step of
/// `kernel` runs first, the remaining passes follow with doubling stride.
pub fn transform_block<T: Butterfly>(buf: &mut [T], start: usize, len: usize, kernel: Kernel)
    requires
        is_power_of_two(len as int),
        (start as int) % (len as int) == 0,
        start + len <= old(buf)@.len(),
    ensures
        final(buf)@ == transform_region(old(buf)@, start as int, len as int),
{
    let ghost x = buf@;
    let ghost k = exponent_of(len as int);
    assert(x.len() == buf.len());
    let mut stride = fused_phase(buf, start, len, kernel);
    while stride < len
        invariant
            len == pow2(k),
            is_power_of_two(stride as int),
            stride <= len,
            (start as int) % (len as int) == 0,
            start + len <= x.len(),
            buf@.len() == x.len(),
            forall|i: int|
                0 <= i < x.len() ==> buf@[i] == if start <= i < start + len {
                    blockwise(x, stride as int)[i]
                } else {
                    x[i]
                },
        decreases len - stride,
    {
        let ghost j = exponent_of(stride as int);
        let ghost before = buf@;
        proof {
            lemma_pow2_pos(j);
            if k <= j {
                lemma_pow2_divides(k, j);
            }
            lemma_pow2_unfold(j + 1);
            lemma_pow2_divides(j + 1, k);
            lemma_multiple_of_multiple(start as int, len as int, 2 * stride);
        }
        butterfly_pass(buf, start, len, stride);
        proof {
            assert forall|i: int| 0 <= i < x.len() implies buf@[i] == if start <= i < start + len {
                blockwise(x, 2 * stride)[i]
            } else {
                x[i]
            } by {
                if start <= i < start + len {
                    lemma_stage_advances(x, before, stride as int, start as int, len as int, i);
                }
            }
            assert(is_power_of_two(2 * stride));
        }
        stride = stride * 2;
    }
    proof {
        lemma_pow2_pos(k);
        lemma_region_done(x, buf@, start as int, len as int);
    }
}

} // verus!
