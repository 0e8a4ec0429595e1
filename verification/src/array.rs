//! One-dimensional arrays of machine integers that ndarray stores, and
//! their transform.
//!
//! Verus does not look inside an ndarray array. What an array holds is
//! therefore a name, [`array32_elements`] and [`array64_elements`], and the
//! few ndarray functions that the library calls are wrapped by functions
//! whose contracts speak of that name and are believed, not proved.

use vstd::prelude::*;
use vstd::pervasive::unreached;
use crate::fht::{Fht, FhtArray};
use crate::transform::FhtResult;

verus! {

/// An owned one-dimensional array of `i32`: an `ndarray::Array1<i32>`,
/// which the verifier takes as it is, without looking inside.
#[verifier::external_body]
pub struct Array32 {
    inner: ndarray::Array1<i32>,
}

/// An owned one-dimensional array of `i64`: an `ndarray::Array1<i64>`,
/// which the verifier takes as it is, without looking inside.
#[verifier::external_body]
pub struct Array64 {
    inner: ndarray::Array1<i64>,
}

/// The elements of an [`Array32`], in the order of their indices.
pub uninterp spec fn array32_elements(a: Array32) -> Seq<i32>;

/// Whether an [`Array32`] lies in memory as one piece, the elements in
/// the order of their indices.
pub uninterp spec fn array32_standard(a: Array32) -> bool;

/// The elements of an [`Array64`], in the order of their indices.
pub uninterp spec fn array64_elements(a: Array64) -> Seq<i64>;

/// Whether an [`Array64`] lies in memory as one piece, the elements in
/// the order of their indices.
pub uninterp spec fn array64_standard(a: Array64) -> bool;

/// `ndarray::Array1::from_vec`: the array takes over the vector. It holds
/// the vector's elements in their order and is in standard layout.
#[verifier::external_body]
fn array32_from_vec(v: Vec<i32>) -> (a: Array32)
    ensures
        array32_elements(a) == v@,
        array32_standard(a),
{
    Array32 { inner: ndarray::Array1::from_vec(v) }
}

/// `ndarray::ArrayBase::to_vec`: a vector with copies of the array's
/// elements in their order.
#[verifier::external_body]
fn array32_to_vec(a: &Array32) -> (v: Vec<i32>)
    ensures
        v@ == array32_elements(*a),
{
    a.inner.to_vec()
}

/// `ndarray::ArrayBase::as_slice_mut`: the array's elements as a mutable
/// slice, where the array is in standard layout, and `None` where it is
/// not. What is written to the slice is written to the array; its layout
/// stays as it is.
#[verifier::external_body]
fn array32_as_slice_mut(a: &mut Array32) -> (r: Option<&mut [i32]>)
    ensures
        r is Some <==> array32_standard(*old(a)),
        r matches Some(s) ==> s@ == array32_elements(*old(a)) && array32_elements(*final(a))
            == final(s)@ && array32_standard(*final(a)),
        r is None ==> *final(a) == *old(a),
{
    a.inner.as_slice_mut()
}

/// `ndarray::Array1::from_vec`: the array takes over the vector. It holds
/// the vector's elements in their order and is in standard layout.
#[verifier::external_body]
fn array64_from_vec(v: Vec<i64>) -> (a: Array64)
    ensures
        array64_elements(a) == v@,
        array64_standard(a),
{
    Array64 { inner: ndarray::Array1::from_vec(v) }
}

/// `ndarray::ArrayBase::to_vec`: a vector with copies of the array's
/// elements in their order.
#[verifier::external_body]
fn array64_to_vec(a: &Array64) -> (v: Vec<i64>)
    ensures
        v@ == array64_elements(*a),
{
    a.inner.to_vec()
}

/// `ndarray::ArrayBase::as_slice_mut`: the array's elements as a mutable
/// slice, where the array is in standard layout, and `None` where it is
/// not. What is written to the slice is written to the array; its layout
/// stays as it is.
#[verifier::external_body]
fn array64_as_slice_mut(a: &mut Array64) -> (r: Option<&mut [i64]>)
    ensures
        r is Some <==> array64_standard(*old(a)),
        r matches Some(s) ==> s@ == array64_elements(*old(a)) && array64_elements(*final(a))
            == final(s)@ && array64_standard(*final(a)),
        r is None ==> *final(a) == *old(a),
{
    a.inner.as_slice_mut()
}

impl Array32 {
    /// Every array of this type is in standard layout: it is made from a
    /// vector, and nothing changes its layout afterwards.
    #[verifier::type_invariant]
    spec fn in_standard_layout(self) -> bool {
        array32_standard(self)
    }

    /// Makes an array of the elements of `v`, in their order.
    pub fn from_vec(v: Vec<i32>) -> (a: Array32)
        ensures
            a@ == v@,
    {
        array32_from_vec(v)
    }

    /// Returns the elements of the array as a vector, in their order.
    pub fn to_vec(&self) -> (v: Vec<i32>)
        ensures
            v@ == self@,
    {
        array32_to_vec(self)
    }
}

impl Array64 {
    /// Every array of this type is in standard layout: it is made from a
    /// vector, and nothing changes its layout afterwards.
    #[verifier::type_invariant]
    spec fn in_standard_layout(self) -> bool {
        array64_standard(self)
    }

    /// Makes an array of the elements of `v`, in their order.
    pub fn from_vec(v: Vec<i64>) -> (a: Array64)
        ensures
            a@ == v@,
    {
        array64_from_vec(v)
    }

    /// Returns the elements of the array as a vector, in their order.
    pub fn to_vec(&self) -> (v: Vec<i64>)
        ensures
            v@ == self@,
    {
        array64_to_vec(self)
    }
}

impl View for Array32 {
    type V = Seq<i32>;

    /// The elements of the array, in order.
    open spec fn view(&self) -> Seq<i32> {
        array32_elements(*self)
    }
}

impl FhtArray for Array32 {
    type Element = i32;

    open spec fn elements(&self) -> Seq<i32> {
        self@
    }

    fn fht_inplace(&mut self) -> (r: FhtResult<()>) {
        proof {
            use_type_invariant(&*self);
        }
        match array32_as_slice_mut(self) {
            Some(slice) => i32::fht_inplace(slice),
            None => unreached(),
        }
    }

    fn fht(&self) -> (r: FhtResult<Self>) {
        let mut data = array32_to_vec(self);
        match i32::fht_inplace(data.as_mut_slice()) {
            Ok(()) => Ok(array32_from_vec(data)),
            Err(e) => Err(e),
        }
    }
}

impl View for Array64 {
    type V = Seq<i64>;

    /// The elements of the array, in order.
    open spec fn view(&self) -> Seq<i64> {
        array64_elements(*self)
    }
}

impl FhtArray for Array64 {
    type Element = i64;

    open spec fn elements(&self) -> Seq<i64> {
        self@
    }

    fn fht_inplace(&mut self) -> (r: FhtResult<()>) {
        proof {
            use_type_invariant(&*self);
        }
        match array64_as_slice_mut(self) {
            Some(slice) => i64::fht_inplace(slice),
            None => unreached(),
        }
    }

    fn fht(&self) -> (r: FhtResult<Self>) {
        let mut data = array64_to_vec(self);
        match i64::fht_inplace(data.as_mut_slice()) {
            Ok(()) => Ok(array64_from_vec(data)),
            Err(e) => Err(e),
        }
    }
}

} // verus!
