use ffht::kernel::{butterfly_pass, fused4, fused8, transform_block};
use ffht::staging::copy_buffer;
use ffht::transform::{BLOCK_LEN, DEFAULT_KERNEL};
use ffht::{
    transform_inplace, transform_inplace_with, transform_outofplace, transform_outofplace_with,
    validate_size, Arithmetic, Array32, Array64, Butterfly, Fht, FhtArray, FhtError, Kernel,
    MAX_LOG_N,
};

#[derive(Clone, Copy, Debug, PartialEq)]
struct F64(f64);

impl Arithmetic for F64 {
    fn plus(self, rhs: F64) -> F64 {
        F64(self.0 + rhs.0)
    }

    fn minus(self, rhs: F64) -> F64 {
        F64(self.0 - rhs.0)
    }
}

impl Butterfly for F64 {
    fn butterfly(self, rhs: F64) -> (F64, F64) {
        (F64(self.0 + rhs.0), F64(self.0 - rhs.0))
    }
}

impl Fht for F64 {}

/// An element without content: a buffer of any length costs no memory.
#[derive(Clone, Copy, Debug, PartialEq)]
struct Unit;

impl Arithmetic for Unit {
    fn plus(self, _rhs: Unit) -> Unit {
        Unit
    }

    fn minus(self, _rhs: Unit) -> Unit {
        Unit
    }
}

impl Butterfly for Unit {
    fn butterfly(self, _rhs: Unit) -> (Unit, Unit) {
        (Unit, Unit)
    }
}

impl Fht for Unit {}

/// The transform by its matrix: entry (i, j) is -1 where `i & j` has an
/// odd number of bits, and 1 otherwise.
fn by_matrix(x: &[i64]) -> Vec<i64> {
    let n = x.len();
    (0..n)
        .map(|i| {
            (0..n)
                .map(|j| if (i & j).count_ones() % 2 == 1 { -x[j] } else { x[j] })
                .sum()
        })
        .collect()
}

fn sample(n: usize) -> Vec<i64> {
    (0..n).map(|i| ((i * 37 + 11) % 101) as i64 - 50).collect()
}

fn noisy(n: usize) -> Vec<F64> {
    (0..n)
        .map(|i| F64(((i * 7919 + 13) % 1000) as f64 / 7.0 - 61.3))
        .collect()
}

const KERNELS: [Kernel; 3] = [Kernel::Scalar, Kernel::Lanes4, Kernel::Lanes8];

#[test]
fn known_vector_of_two() {
    let mut data = vec![1i64, 1];
    assert_eq!(i64::fht_inplace(&mut data), Ok(()));
    assert_eq!(data, vec![2, 0]);
}

#[test]
fn known_vector_of_four() {
    let mut data = vec![1i32, -1, 1, -1];
    assert_eq!(i32::fht_inplace(&mut data), Ok(()));
    assert_eq!(data, vec![0, 4, 0, 0]);
}

#[test]
fn known_vector_of_eight() {
    let mut data = vec![1i64, 2, 3, 4, 5, 6, 7, 8];
    assert_eq!(transform_inplace(&mut data, 3), Ok(()));
    assert_eq!(data, vec![36, -4, -8, 0, -16, 0, 0, 0]);
    assert_eq!(transform_inplace(&mut data, 3), Ok(()));
    assert_eq!(data, vec![8, 16, 24, 32, 40, 48, 56, 64]);
}

#[test]
fn one_element_is_its_own_transform() {
    let mut data = vec![-7i64];
    assert_eq!(transform_inplace(&mut data, 0), Ok(()));
    assert_eq!(data, vec![-7]);
    for kernel in KERNELS {
        assert_eq!(transform_inplace_with(&mut data, 0, kernel), Ok(()));
        assert_eq!(data, vec![-7]);
    }
}

#[test]
fn agrees_with_the_matrix() {
    for log_n in 0..=11usize {
        let x = sample(1 << log_n);
        let expected = by_matrix(&x);
        for kernel in KERNELS {
            let mut data = x.clone();
            assert_eq!(transform_inplace_with(&mut data, log_n, kernel), Ok(()));
            assert_eq!(data, expected);
        }
    }
}

#[test]
fn twice_is_the_input_times_the_length() {
    for log_n in [0usize, 1, 2, 3, 5, 9, 10, 11, 13] {
        let n = 1usize << log_n;
        let x = sample(n);
        let mut data = x.clone();
        assert_eq!(i64::fht_inplace(&mut data), Ok(()));
        assert_eq!(i64::fht_inplace(&mut data), Ok(()));
        let expected: Vec<i64> = x.iter().map(|v| v * n as i64).collect();
        assert_eq!(data, expected);
    }
}

#[test]
fn sum_of_squares_grows_by_the_length() {
    for log_n in [0usize, 1, 4, 10, 12] {
        let n = 1usize << log_n;
        let x = sample(n);
        let before: i64 = x.iter().map(|v| v * v).sum();
        let mut data = x.clone();
        assert_eq!(i64::fht_inplace(&mut data), Ok(()));
        let after: i64 = data.iter().map(|v| v * v).sum();
        assert_eq!(after, n as i64 * before);
    }
}

#[test]
fn sum_of_squares_of_floats_grows_by_the_length() {
    let x = noisy(256);
    let before: f64 = x.iter().map(|v| v.0 * v.0).sum();
    let mut data = x.clone();
    assert_eq!(F64::fht_inplace(&mut data), Ok(()));
    let after: f64 = data.iter().map(|v| v.0 * v.0).sum();
    assert!((after - 256.0 * before).abs() <= 1e-9 * after);
}

#[test]
fn both_modes_give_the_same_integers() {
    for log_n in [0usize, 1, 3, 10, 12] {
        let x = sample(1 << log_n);
        let mut inplace = x.clone();
        let mut destination = vec![0i64; x.len()];
        assert_eq!(transform_inplace(&mut inplace, log_n), Ok(()));
        assert_eq!(transform_outofplace(&x, &mut destination, log_n), Ok(()));
        assert_eq!(destination, inplace);
        assert_eq!(x, sample(1 << log_n));
    }
}

#[test]
fn both_modes_give_the_same_floats_bit_for_bit() {
    for log_n in [1usize, 4, 11] {
        let x = noisy(1 << log_n);
        let mut inplace = x.clone();
        let mut destination = vec![F64(0.0); x.len()];
        assert_eq!(F64::fht_inplace(&mut inplace), Ok(()));
        assert_eq!(F64::fht(&x, &mut destination), Ok(()));
        for (a, b) in inplace.iter().zip(destination.iter()) {
            assert_eq!(a.0.to_bits(), b.0.to_bits());
        }
    }
}

#[test]
fn every_kernel_gives_the_same_floats_bit_for_bit() {
    for log_n in [0usize, 1, 2, 3, 4, 9, 10, 11, 12] {
        let x = noisy(1 << log_n);
        let mut scalar = x.clone();
        assert_eq!(transform_inplace_with(&mut scalar, log_n, Kernel::Scalar), Ok(()));
        for kernel in [Kernel::Lanes4, Kernel::Lanes8] {
            let mut data = x.clone();
            assert_eq!(transform_inplace_with(&mut data, log_n, kernel), Ok(()));
            for (a, b) in scalar.iter().zip(data.iter()) {
                assert_eq!(a.0.to_bits(), b.0.to_bits());
            }
            let mut destination = vec![F64(0.0); x.len()];
            assert_eq!(transform_outofplace_with(&x, &mut destination, log_n, kernel), Ok(()));
            for (a, b) in scalar.iter().zip(destination.iter()) {
                assert_eq!(a.0.to_bits(), b.0.to_bits());
            }
        }
    }
}

#[test]
fn lengths_that_are_no_power_of_two_are_refused() {
    for n in [0usize, 3, 5, 6, 7, 100] {
        assert_eq!(validate_size(n), Err(FhtError::InvalidSize(n)));
        let x = sample(n);
        let mut data = x.clone();
        assert_eq!(i64::fht_inplace(&mut data), Err(FhtError::InvalidSize(n)));
        assert_eq!(data, x);
        for log_n in 0..4usize {
            assert_eq!(transform_inplace(&mut data, log_n), Err(FhtError::InvalidSize(n)));
            assert_eq!(data, x);
        }
    }
}

#[test]
fn powers_of_two_up_to_the_ceiling_are_accepted() {
    assert_eq!(MAX_LOG_N, 30);
    for log_n in 0..=30usize {
        assert_eq!(validate_size(1usize << log_n), Ok(log_n));
    }
}

#[test]
fn powers_of_two_above_the_ceiling_are_too_large() {
    let n = 1usize << 31;
    assert_eq!(validate_size(n), Err(FhtError::SizeTooLarge(n)));
    let mut data = vec![Unit; n];
    assert_eq!(Unit::fht_inplace(&mut data), Err(FhtError::SizeTooLarge(n)));
    assert_eq!(transform_inplace(&mut data, 31), Err(FhtError::SizeTooLarge(n)));
    let source = vec![Unit; n];
    assert_eq!(Unit::fht(&source, &mut data), Err(FhtError::SizeTooLarge(n)));
    assert_eq!(
        transform_outofplace(&source, &mut data, 31),
        Err(FhtError::SizeTooLarge(n))
    );
}

#[test]
fn an_exponent_that_is_not_the_logarithm_is_refused() {
    let x = vec![1i64, 2, 3, 4];
    let mut data = x.clone();
    assert_eq!(transform_inplace(&mut data, 3), Err(FhtError::InvalidSize(4)));
    assert_eq!(transform_inplace(&mut data, 1), Err(FhtError::InvalidSize(4)));
    assert_eq!(transform_inplace(&mut data, 31), Err(FhtError::InvalidSize(4)));
    assert_eq!(data, x);
    let mut destination = vec![9i64; 4];
    assert_eq!(
        transform_outofplace(&x, &mut destination, 3),
        Err(FhtError::InvalidSize(4))
    );
    assert_eq!(destination, vec![9; 4]);
}

#[test]
fn buffers_of_different_lengths_are_refused() {
    let x = vec![1i64, 2, 3, 4];
    let mut destination = vec![9i64; 8];
    assert_eq!(i64::fht(&x, &mut destination), Err(FhtError::InvalidSize(8)));
    assert_eq!(
        transform_outofplace(&x, &mut destination, 2),
        Err(FhtError::InvalidSize(8))
    );
    assert_eq!(
        transform_outofplace(&x, &mut destination, 3),
        Err(FhtError::InvalidSize(8))
    );
    assert_eq!(destination, vec![9; 8]);
    let mut short = vec![9i64; 2];
    assert_eq!(i64::fht(&x, &mut short), Err(FhtError::InvalidSize(2)));
    assert_eq!(short, vec![9; 2]);
}

#[test]
fn out_of_place_leaves_the_source_alone() {
    let x = sample(64);
    let mut destination = vec![0i64; 64];
    assert_eq!(i64::fht(&x, &mut destination), Ok(()));
    assert_eq!(x, sample(64));
    assert_eq!(destination, by_matrix(&x));
}

#[test]
fn machine_integers_wrap_around() {
    let mut data = vec![i32::MAX, 1];
    assert_eq!(i32::fht_inplace(&mut data), Ok(()));
    assert_eq!(data, vec![i32::MIN, i32::MAX - 1]);
    let mut wide = vec![i64::MIN, 1];
    assert_eq!(i64::fht_inplace(&mut wide), Ok(()));
    assert_eq!(wide, vec![i64::MIN + 1, i64::MAX]);
}

#[test]
fn butterfly_of_machine_integers() {
    assert_eq!(5i32.butterfly(3), (8, 2));
    assert_eq!((-5i64).butterfly(3), (-2, -8));
    assert_eq!(i64::MAX.butterfly(1), (i64::MIN, i64::MAX - 1));
}

#[test]
fn a_pass_pairs_elements_a_stride_apart() {
    let mut data = vec![1i64, 2, 3, 4, 5, 6, 7, 8];
    butterfly_pass(&mut data, 0, 8, 2);
    assert_eq!(data, vec![4, 6, -2, -2, 12, 14, -2, -2]);
    let mut part = vec![1i64, 2, 3, 4, 5, 6, 7, 8];
    butterfly_pass(&mut part, 4, 4, 1);
    assert_eq!(part, vec![1, 2, 3, 4, 11, -1, 15, -1]);
    let mut none = vec![1i64, 2];
    butterfly_pass(&mut none, 2, 0, 1);
    assert_eq!(none, vec![1, 2]);
}

#[test]
fn fused_kernels_transform_their_group() {
    let mut data = vec![9i64, 1, 2, 3, 4, 9];
    fused4(&mut data, 1);
    assert_eq!(data, vec![9, 10, -2, -4, 0, 9]);
    let mut wide = vec![9i64, 1, 2, 3, 4, 5, 6, 7, 8, 9];
    fused8(&mut wide, 1);
    assert_eq!(wide, vec![9, 36, -4, -8, 0, -16, 0, 0, 0, 9]);
}

#[test]
fn a_block_is_transformed_where_it_stands() {
    for kernel in KERNELS {
        for len in [1usize, 2, 4, 8, 16] {
            let x = sample(32);
            let mut data = x.clone();
            transform_block(&mut data, 16, len, kernel);
            assert_eq!(data[..16], x[..16]);
            assert_eq!(data[16..16 + len], by_matrix(&x[16..16 + len])[..]);
            assert_eq!(data[16 + len..], x[16 + len..]);
        }
    }
}

#[test]
fn staging_copies_every_element() {
    let source = vec![3i64, 1, 4, 1, 5];
    let mut destination = vec![0i64; 5];
    copy_buffer(&source, &mut destination);
    assert_eq!(destination, source);
    let empty: Vec<i64> = Vec::new();
    let mut nothing: Vec<i64> = Vec::new();
    copy_buffer(&empty, &mut nothing);
    assert!(nothing.is_empty());
}

#[test]
fn kernels_are_selected_by_width() {
    assert_eq!(Kernel::select(0), Kernel::Scalar);
    assert_eq!(Kernel::select(1), Kernel::Scalar);
    assert_eq!(Kernel::select(3), Kernel::Scalar);
    assert_eq!(Kernel::select(4), Kernel::Lanes4);
    assert_eq!(Kernel::select(7), Kernel::Lanes4);
    assert_eq!(Kernel::select(8), Kernel::Lanes8);
    assert_eq!(Kernel::select(64), Kernel::Lanes8);
    assert_eq!(Kernel::Scalar.lanes(), 1);
    assert_eq!(Kernel::Lanes4.lanes(), 4);
    assert_eq!(Kernel::Lanes8.lanes(), 8);
    assert_eq!(DEFAULT_KERNEL, Kernel::Lanes8);
    assert_eq!(BLOCK_LEN, 1024);
}

#[test]
fn errors_describe_themselves() {
    assert_eq!(
        FhtError::InvalidSize(3).message(),
        "Input size 3 is not a power of 2"
    );
    assert_eq!(
        FhtError::InvalidSize(0).message(),
        "Input size 0 is not a power of 2"
    );
    assert_eq!(
        FhtError::SizeTooLarge(2147483648).message(),
        "Input size 2147483648 is too large (max 2^30)"
    );
    assert_eq!(FhtError::InternalError(7).message(), "FFHT internal error: 7");
    assert_eq!(FhtError::InternalError(0).message(), "FFHT internal error: 0");
    assert_eq!(FhtError::InternalError(-12).message(), "FFHT internal error: -12");
    assert_eq!(
        FhtError::InternalError(i32::MIN).message(),
        "FFHT internal error: -2147483648"
    );
    assert_eq!(
        FhtError::InvalidSize(usize::MAX).message(),
        format!("Input size {} is not a power of 2", usize::MAX)
    );
}

#[test]
fn a_status_code_other_than_zero_is_an_internal_error() {
    assert_eq!(FhtError::check_status(0), Ok(()));
    assert_eq!(FhtError::check_status(7), Err(FhtError::InternalError(7)));
    assert_eq!(FhtError::check_status(-1), Err(FhtError::InternalError(-1)));
}

#[test]
fn vectors_are_arrays() {
    let mut data = vec![1i64, -1, 1, -1];
    assert_eq!(FhtArray::fht_inplace(&mut data), Ok(()));
    assert_eq!(data, vec![0, 4, 0, 0]);
    let x = vec![1i32, 2, 3, 4, 5, 6, 7, 8];
    assert_eq!(FhtArray::fht(&x), Ok(vec![36, -4, -8, 0, -16, 0, 0, 0]));
    assert_eq!(x, vec![1, 2, 3, 4, 5, 6, 7, 8]);
    let odd = vec![1i32, 2, 3];
    assert_eq!(FhtArray::fht(&odd), Err(FhtError::InvalidSize(3)));
    let mut odd_inplace = vec![1i32, 2, 3];
    assert_eq!(FhtArray::fht_inplace(&mut odd_inplace), Err(FhtError::InvalidSize(3)));
    assert_eq!(odd_inplace, vec![1, 2, 3]);
}

#[test]
fn stored_arrays_keep_their_elements() {
    let a = Array64::from_vec(vec![5, -6, 7]);
    assert_eq!(a.to_vec(), vec![5, -6, 7]);
    let b = Array32::from_vec(Vec::new());
    assert_eq!(b.to_vec(), Vec::<i32>::new());
}

#[test]
fn stored_arrays_are_transformed() {
    let x = sample(2048);
    let mut a = Array64::from_vec(x.clone());
    assert_eq!(a.fht_inplace(), Ok(()));
    assert_eq!(a.to_vec(), by_matrix(&x));
    let b = Array64::from_vec(x.clone());
    let transformed = b.fht().unwrap();
    assert_eq!(transformed.to_vec(), by_matrix(&x));
    assert_eq!(b.to_vec(), x);

    let mut small = Array32::from_vec(vec![1, 1]);
    assert_eq!(small.fht_inplace(), Ok(()));
    assert_eq!(small.to_vec(), vec![2, 0]);
}

#[test]
fn stored_arrays_of_a_bad_length_are_refused() {
    let mut a = Array64::from_vec(vec![1, 2, 3]);
    assert_eq!(a.fht_inplace(), Err(FhtError::InvalidSize(3)));
    assert_eq!(a.to_vec(), vec![1, 2, 3]);
    assert!(a.fht().is_err());
    let mut empty = Array32::from_vec(Vec::new());
    assert_eq!(empty.fht_inplace(), Err(FhtError::InvalidSize(0)));
    assert!(empty.fht().is_err());
}

#[test]
fn passes_one_after_the_other_give_the_transform() {
    let x = sample(64);
    let mut data = x.clone();
    let mut stride = 1usize;
    while stride < 64 {
        butterfly_pass(&mut data, 0, 64, stride);
        stride *= 2;
    }
    assert_eq!(data, by_matrix(&x));
}

#[test]
fn a_pass_pairs_an_index_with_its_flipped_bit() {
    let x = sample(32);
    for s in 0..5usize {
        let stride = 1usize << s;
        let mut data = x.clone();
        butterfly_pass(&mut data, 0, 32, stride);
        for i in 0..32usize {
            let partner = i ^ stride;
            if i & stride == 0 {
                assert_eq!(data[i], x[i] + x[partner]);
            } else {
                assert_eq!(data[i], x[partner] - x[i]);
            }
        }
    }
}

#[test]
fn the_machine_transform_is_the_exact_one_up_to_wrap_around() {
    let x: Vec<i32> = (0..16)
        .map(|i| if i % 3 == 0 { i32::MAX - i } else { i32::MIN + 7 * i })
        .collect();
    let wide: Vec<i64> = x.iter().map(|&v| v as i64).collect();
    let exact = by_matrix(&wide);
    let mut data = x.clone();
    assert_eq!(i32::fht_inplace(&mut data), Ok(()));
    for (got, want) in data.iter().zip(exact.iter()) {
        assert_eq!(*got, *want as i32);
    }
    assert_eq!(i32::fht_inplace(&mut data), Ok(()));
    for (got, before) in data.iter().zip(wide.iter()) {
        assert_eq!(*got, (16 * before) as i32);
    }
}

#[test]
fn small_machine_integers_are_transformed_exactly() {
    let x: Vec<i32> = (0..8).map(|i| 1000 * i - 3500).collect();
    let wide: Vec<i64> = x.iter().map(|&v| v as i64).collect();
    let mut data = x.clone();
    assert_eq!(i32::fht_inplace(&mut data), Ok(()));
    let exact = by_matrix(&wide);
    for (got, want) in data.iter().zip(exact.iter()) {
        assert_eq!(*got as i64, *want);
    }
    let total: i64 = wide.iter().map(|v| v.abs()).sum();
    for v in &data {
        assert!((*v as i64).abs() <= total);
    }
}
