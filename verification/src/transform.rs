//! The transform driver and the library's entry points.
//!
//! A transform runs in two phases. The small strides are handled block by
//! block: every block of [`BLOCK_LEN`] elements is transformed on its own,
//! so that its passes work on memory that stays close. The large strides
//! follow as whole passes over the buffer, each with twice the stride of
//! the one before.

use vstd::prelude::*;
use vstd::arithmetic::div_mod::*;
use vstd::arithmetic::power2::*;
use crate::element::{Arithmetic, Butterfly};
use crate::error::FhtError;
use crate::hadamard::{
    blockwise, hadamard, lemma_block_within, lemma_blockwise_at, lemma_blockwise_whole,
    lemma_stage_advances,
};
use crate::kernel::{butterfly_pass, transform_block, Kernel};
use crate::size::{
    exponent_of, is_power_of_two, lemma_pow2_divides, size_outcome, validate_size,
};
use crate::staging::copy_buffer;

verus! {

/// What a fallible operation of this library returns.
pub type FhtResult<T> = Result<T, FhtError>;

/// The block threshold: the number of elements of a block that is
/// transformed on its own before the passes over the whole buffer begin.
pub const BLOCK_LEN: usize = 1024;

/// The kernel variant that the entry points without a kernel argument use.
pub const DEFAULT_KERNEL: Kernel = Kernel::Lanes8;

/// How a request for a transform of `len` elements with exponent `log_n`
/// is answered: the validator's error for a length that it refuses,
/// `InvalidSize(len)` where `len` is not `2^log_n`, and success otherwise.
/// No request is answered with `InternalError`: the kernels of this
/// library cannot fail.
pub open spec fn request_outcome(len: usize, log_n: usize) -> FhtResult<()> {
    match size_outcome(len) {
        Err(e) => Err(e),
        Ok(k) => if k == log_n {
            Ok(())
        } else {
            Err(FhtError::InvalidSize(len))
        },
    }
}

/// How a request for an out-of-place transform is answered: buffers of
/// different lengths are refused with `InvalidSize` of the destination's
/// length, and equal lengths are judged as for the in-place transform.
pub open spec fn outofplace_outcome(source_len: usize, destination_len: usize, log_n: usize)
    -> FhtResult<()> {
    if source_len != destination_len {
        Err(FhtError::InvalidSize(destination_len))
    } else {
        request_outcome(source_len, log_n)
    }
}

/// The buffer after an in-place request: its transform where the request
/// succeeds, and the buffer as it was where it is refused.
pub open spec fn inplace_result<T: Arithmetic>(x: Seq<T>, log_n: usize) -> Seq<T> {
    if request_outcome(x.len() as usize, log_n) is Ok {
        hadamard(x)
    } else {
        x
    }
}

/// The destination after an out-of-place request: the transform of the
/// source where the request succeeds, and the destination as it was where
/// it is refused.
pub open spec fn outofplace_result<T: Arithmetic>(
    source: Seq<T>,
    destination: Seq<T>,
    log_n: usize,
) -> Seq<T> {
    if outofplace_outcome(source.len() as usize, destination.len() as usize, log_n) is Ok {
        hadamard(source)
    } else {
        destination
    }
}

/// Transforms a whole buffer whose length is a power of two.
fn run<T: Butterfly>(buf: &mut [T], kernel: Kernel)
    requires
        is_power_of_two(old(buf)@.len() as int),
    ensures
        final(buf)@ == hadamard(old(buf)@),
{
    let ghost x = buf@;
    let ghost k = exponent_of(x.len() as int);
    let n = buf.len();
    assert(n == x.len());
    if n == 1 {
        // A single element is its own transform.
        return ;
    }
    proof {
        lemma2_to64();
        lemma_pow2_pos(k);
        assert(BLOCK_LEN == pow2(10));
        if k < 10 {
            lemma_pow2_strictly_increases(k, 10);
        } else {
            lemma_pow2_divides(10, k);
        }
        lemma_mod_self_0(n as int);
    }
    let block = if n < BLOCK_LEN {
        n
    } else {
        BLOCK_LEN
    };
    assert(is_power_of_two(block as int));
    // The small strides: every block on its own.
    let mut base: usize = 0;
    while base < n
        invariant
            n == x.len(),
            block > 0,
            is_power_of_two(block as int),
            (n as int) % (block as int) == 0,
            (base as int) % (block as int) == 0,
            base <= n,
            buf@.len() == x.len(),
            forall|i: int|
                0 <= i < x.len() ==> buf@[i] == if i < base {
                    blockwise(x, block as int)[i]
                } else {
                    x[i]
                },
        decreases n - base,
    {
        proof {
            lemma_block_within(base as int, block as int, 0, n as int);
            lemma_small_mod(0, block as nat);
        }
        let ghost before = buf@;
        transform_block(buf, base, block, kernel);
        proof {
            assert(before.subrange(base as int, base + block) =~= x.subrange(
                base as int,
                base + block,
            ));
            assert forall|i: int| 0 <= i < x.len() implies buf@[i] == if i < base + block {
                blockwise(x, block as int)[i]
            } else {
                x[i]
            } by {
                if base <= i < base + block {
                    lemma_blockwise_at(x, block as int, base as int, i);
                }
            }
            lemma_mod_add_multiples_vanish(base as int, block as int);
        }
        base = base + block;
    }
    // The large strides: one pass over the whole buffer after the other.
    let mut stride = block;
    while stride < n
        invariant
            n == x.len(),
            n == pow2(k),
            is_power_of_two(stride as int),
            0 < stride <= n,
            buf@.len() == x.len(),
            forall|i: int|
                0 <= i < x.len() ==> buf@[i] == #[trigger] blockwise(x, stride as int)[i],
        decreases n - stride,
    {
        let ghost j = exponent_of(stride as int);
        let ghost before = buf@;
        proof {
            if k <= j {
                lemma_pow2_divides(k, j);
            }
            lemma_pow2_unfold(j + 1);
            lemma_pow2_divides(j + 1, k);
            lemma_small_mod(0, (2 * stride) as nat);
        }
        butterfly_pass(buf, 0, n, stride);
        proof {
            assert forall|i: int| 0 <= i < x.len() implies buf@[i] == #[trigger] blockwise(
                x,
                2 * stride,
            )[i] by {
                lemma_stage_advances(x, before, stride as int, 0, n as int, i);
            }
            assert(is_power_of_two(2 * stride));
        }
        stride = stride * 2;
    }
    proof {
        lemma_blockwise_whole(x);
        assert(buf@ =~= hadamard(x));
    }
}

/// Replaces `buffer` by its Hadamard transform, computed with the given
/// kernel variant.
///
/// The request is checked before anything is written: the length has to be
/// `2^log_n` with `log_n <= 30`. A refused request leaves the buffer as it
/// was. Every kernel variant gives the same result.
pub fn transform_inplace_with<T: Butterfly>(buffer: &mut [T], log_n: usize, kernel: Kernel) -> (r:
    FhtResult<()>)
    ensures
        r == request_outcome(old(buffer)@.len() as usize, log_n),
        final(buffer)@ == inplace_result(old(buffer)@, log_n),
{
    let n = buffer.len();
    assert(n == buffer@.len());
    match validate_size(n) {
        Err(e) => Err(e),
        Ok(k) => {
            if k != log_n {
                Err(FhtError::InvalidSize(n))
            } else {
                run(buffer, kernel);
                Ok(())
            }
        },
    }
}

/// Replaces `buffer` by its Hadamard transform.
///
/// The request is checked before anything is written: the length has to be
/// `2^log_n` with `log_n <= 30`. A refused request leaves the buffer as it
/// was.
pub fn transform_inplace<T: Butterfly>(buffer: &mut [T], log_n: usize) -> (r: FhtResult<()>)
    ensures
        r == request_outcome(old(buffer)@.len() as usize, log_n),
        final(buffer)@ == inplace_result(old(buffer)@, log_n),
{
    transform_inplace_with(buffer, log_n, DEFAULT_KERNEL)
}

/// Writes the Hadamard transform of `source` to `destination`, computed
/// with the given kernel variant.
///
/// The request is checked before anything is written: both buffers have to
/// hold `2^log_n` elements with `log_n <= 30`. A refused request leaves the
/// destination as it was; the source is never written. The two buffers
/// cannot overlap: a shared and a mutable slice never do.
pub fn transform_outofplace_with<T: Butterfly>(
    source: &[T],
    destination: &mut [T],
    log_n: usize,
    kernel: Kernel,
) -> (r: FhtResult<()>)
    ensures
        r == outofplace_outcome(source@.len() as usize, old(destination)@.len() as usize, log_n),
        final(destination)@ == outofplace_result(source@, old(destination)@, log_n),
{
    let n = source.len();
    assert(n == source@.len());
    assert(destination.len() == destination@.len());
    if n != destination.len() {
        return Err(FhtError::InvalidSize(destination.len()));
    }
    match validate_size(n) {
        Err(e) => Err(e),
        Ok(k) => {
            if k != log_n {
                Err(FhtError::InvalidSize(n))
            } else {
                copy_buffer(source, destination);
                run(destination, kernel);
                Ok(())
            }
        },
    }
}

/// Writes the Hadamard transform of `source` to `destination`.
///
/// The request is checked before anything is written: both buffers have to
/// hold `2^log_n` elements with `log_n <= 30`. A refused request leaves the
/// destination as it was; the source is never written. The two buffers
/// cannot overlap: a shared and a mutable slice never do.
pub fn transform_outofplace<T: Butterfly>(source: &[T], destination: &mut [T], log_n: usize) -> (r:
    FhtResult<()>)
    ensures
        r == outofplace_outcome(source@.len() as usize, old(destination)@.len() as usize, log_n),
        final(destination)@ == outofplace_result(source@, old(destination)@, log_n),
{
    transform_outofplace_with(source, destination, log_n, DEFAULT_KERNEL)
}

} // verus!
