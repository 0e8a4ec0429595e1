//! A verified fast Walsh-Hadamard transform.
//!
//! The transform of a buffer of `2^k` elements is computed in place or into
//! a second buffer by butterfly passes; every public function carries a
//! contract that pins its result to the mathematical definition in
//! [`hadamard`].

pub mod array;
pub mod element;
pub mod error;
pub mod fht;
pub mod hadamard;
pub mod kernel;
pub mod laws;
pub mod size;
pub mod staging;
pub mod transform;

pub use crate::array::{Array32, Array64};
pub use crate::element::{Arithmetic, Butterfly};
pub use crate::error::FhtError;
pub use crate::fht::{Fht, FhtArray};
pub use crate::kernel::Kernel;
pub use crate::transform::{
    transform_inplace, transform_inplace_with, transform_outofplace, transform_outofplace_with,
    FhtResult,
};
pub use crate::size::validate_size;
pub use crate::size::MAX_LOG_N;
