//! The transform as a method of the element type and of the array that
//! holds the elements.

use vstd::prelude::*;
use crate::element::{Arithmetic, Butterfly};
use crate::error::FhtError;
use crate::hadamard::hadamard;
use crate::size::{size_outcome, validate_size};
use crate::transform::{transform_inplace, transform_outofplace, FhtResult};

verus! {

/// How a transform of `len` elements is answered when the exponent is taken
/// from the length: the validator decides alone.
pub open spec fn length_outcome(len: usize) -> FhtResult<()> {
    match size_outcome(len) {
        Err(e) => Err(e),
        Ok(_) => Ok(()),
    }
}

/// How an out-of-place transform is answered when the exponent is taken
/// from the length: buffers of different lengths are refused with
/// `InvalidSize` of the output's length, equal lengths go to the validator.
pub open spec fn pair_outcome(input_len: usize, output_len: usize) -> FhtResult<()> {
    if input_len != output_len {
        Err(FhtError::InvalidSize(output_len))
    } else {
        length_outcome(input_len)
    }
}

/// Element types that slices can be transformed over.
///
/// The two methods come with the trait: an implementation only says that
/// the type takes part.
pub trait Fht: Butterfly {
    /// Replaces `data` by its Hadamard transform.
    ///
    /// Succeeds exactly when the length is a power of two up to `2^30`;
    /// otherwise `data` stays as it was.
    fn fht_inplace(data: &mut [Self]) -> (r: FhtResult<()>)
        ensures
            r == length_outcome(old(data)@.len() as usize),
            r is Ok ==> final(data)@ == hadamard(old(data)@),
            r is Err ==> final(data)@ == old(data)@,
    {
        let n = data.len();
        match validate_size(n) {
            Err(e) => Err(e),
            Ok(log_n) => transform_inplace(data, log_n),
        }
    }

    /// Writes the Hadamard transform of `input` to `output`.
    ///
    /// Succeeds exactly when both lengths are the same power of two up to
    /// `2^30`; otherwise `output` stays as it was.
    fn fht(input: &[Self], output: &mut [Self]) -> (r: FhtResult<()>)
        ensures
            r == pair_outcome(input@.len() as usize, old(output)@.len() as usize),
            r is Ok ==> final(output)@ == hadamard(input@),
            r is Err ==> final(output)@ == old(output)@,
    {
        let n = input.len();
        if n != output.len() {
            return Err(FhtError::InvalidSize(output.len()));
        }
        match validate_size(n) {
            Err(e) => Err(e),
            Ok(log_n) => transform_outofplace(input, output, log_n),
        }
    }
}

impl Fht for i32 {}

impl Fht for i64 {}

/// Arrays that can be transformed as a whole.
pub trait FhtArray: Sized {
    /// The type of the array's elements.
    type Element: Arithmetic;

    /// The elements of the array, in order.
    spec fn elements(&self) -> Seq<Self::Element>;

    /// Replaces the array by its Hadamard transform.
    ///
    /// Succeeds exactly when the length is a power of two up to `2^30`;
    /// otherwise the array stays as it was.
    fn fht_inplace(&mut self) -> (r: FhtResult<()>)
        ensures
            r == length_outcome(old(self).elements().len() as usize),
            r is Ok ==> final(self).elements() == hadamard(old(self).elements()),
            r is Err ==> final(self).elements() == old(self).elements(),
    ;

    /// Returns the Hadamard transform of the array as a new array.
    ///
    /// Succeeds exactly when the length is a power of two up to `2^30`.
    fn fht(&self) -> (r: FhtResult<Self>)
        ensures
            (match length_outcome(self.elements().len() as usize) {
                Err(e) => r == Err::<Self, _>(e),
                Ok(_) => r is Ok && r->Ok_0.elements() == hadamard(self.elements()),
            }),
    ;
}

impl<T: Fht> FhtArray for Vec<T> {
    type Element = T;

    open spec fn elements(&self) -> Seq<T> {
        self@
    }

    fn fht_inplace(&mut self) -> (r: FhtResult<()>) {
        T::fht_inplace(self.as_mut_slice())
    }

    fn fht(&self) -> (r: FhtResult<Self>) {
        let n = self.len();
        match validate_size(n) {
            Err(e) => Err(e),
            Ok(log_n) => {
                let mut output: Vec<T> = Vec::with_capacity(n);
                let mut i: usize = 0;
                while i < n
                    invariant
                        n == self@.len(),
                        i <= n,
                        output@ == self@.subrange(0, i as int),
                    decreases n - i,
                {
                    output.push(self[i]);
                    i = i + 1;
                }
                assert(output@ =~= self@);
                match transform_inplace(output.as_mut_slice(), log_n) {
                    Ok(()) => Ok(output),
                    Err(e) => Err(e),
                }
            },
        }
    }
}

} // verus!
