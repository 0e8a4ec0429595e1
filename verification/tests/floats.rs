use ffht::{validate_size, Arithmetic, Array32, Array64, Butterfly, Fht, FhtArray, FhtError};

#[derive(Clone, Copy, Debug, PartialEq)]
struct F32(f32);

#[derive(Clone, Copy, Debug, PartialEq)]
struct F64(f64);

impl Arithmetic for F32 {
    fn plus(self, rhs: F32) -> F32 {
        F32(self.0 + rhs.0)
    }

    fn minus(self, rhs: F32) -> F32 {
        F32(self.0 - rhs.0)
    }
}

impl Butterfly for F32 {
    fn butterfly(self, rhs: F32) -> (F32, F32) {
        (F32(self.0 + rhs.0), F32(self.0 - rhs.0))
    }
}

impl Fht for F32 {}

impl Arithmetic for F64 {
    fn plus(self, rhs: F64) -> F64 {
        F64(self.0 + rhs.0)
    }

    fn minus(self, rhs: F64) -> F64 {
        F64(self.0 - rhs.0)
    }
}

impl Butterfly for F64 {
    fn butterfly(self, rhs: F64) -> (F64, F64) {
        (F64(self.0 + rhs.0), F64(self.0 - rhs.0))
    }
}

impl Fht for F64 {}

fn singles(values: Vec<f32>) -> Vec<F32> {
    values.into_iter().map(F32).collect()
}

fn doubles(values: Vec<f64>) -> Vec<F64> {
    values.into_iter().map(F64).collect()
}

fn close32(a: f32, b: f32, epsilon: f32) -> bool {
    (a - b).abs() <= epsilon
}

fn close64(a: f64, b: f64, epsilon: f64) -> bool {
    (a - b).abs() <= epsilon
}

#[test]
fn test_validate_size() {
    assert!(validate_size(8).is_ok());
    assert_eq!(validate_size(8).unwrap(), 3);

    assert!(validate_size(7).is_err());
    assert!(validate_size(0).is_err());
}

#[test]
fn test_fht_f32_inplace() {
    let mut data = singles(vec![1.0f32, -1.0, 1.0, -1.0]);
    F32::fht_inplace(&mut data).unwrap();

    assert!(close32(data[0].0, 0.0, 1e-6));
    assert!(close32(data[1].0, 4.0, 1e-6));
    assert!(close32(data[2].0, 0.0, 1e-6));
    assert!(close32(data[3].0, 0.0, 1e-6));
}

#[test]
fn test_fht_f64_inplace() {
    let mut data = doubles(vec![1.0f64, -1.0, 1.0, -1.0, 1.0, -1.0, 1.0, -1.0]);
    F64::fht_inplace(&mut data).unwrap();

    let sum: f64 = data.iter().map(|x| x.0.abs()).sum();
    assert!(sum > 0.0);
}

#[test]
fn test_fht_oop() {
    let input = singles(vec![1.0f32, -1.0, 1.0, -1.0]);
    let mut output = singles(vec![0.0f32; 4]);

    println!("Input: {:?}", input);
    println!("Output before: {:?}", output);

    F32::fht(&input, &mut output).unwrap();

    println!("Output after: {:?}", output);

    assert!(close32(output[0].0, 0.0, 1e-6));
    assert!(close32(output[1].0, 4.0, 1e-6));
}

#[test]
fn test_ndarray_integration() {
    let mut data = Array64::from_vec(vec![1i64, -1, 1, -1, 1, -1, 1, -1]);
    data.fht_inplace().unwrap();

    assert!(data.to_vec().iter().any(|&x| x.abs() > 0));
}

#[test]
fn test_ndarray_oop() {
    let data = Array32::from_vec(vec![1i32, -1, 1, -1]);
    let result = data.fht().unwrap();

    assert_eq!(result.to_vec()[0], 0);
    assert_eq!(result.to_vec()[1], 4);
}

#[test]
fn test_invalid_size() {
    let mut data = singles(vec![1.0f32, 2.0, 3.0]);
    let result = F32::fht_inplace(&mut data);

    assert!(result.is_err());
    assert_eq!(result.unwrap_err(), FhtError::InvalidSize(3));
}

#[test]
fn test_orthogonality() {
    let input = vec![1.0, 2.0, 3.0, 4.0, 5.0, 6.0, 7.0, 8.0];
    let mut data = doubles(input.clone());

    F64::fht_inplace(&mut data).unwrap();
    F64::fht_inplace(&mut data).unwrap();

    let n = data.len() as f64;
    for x in &mut data {
        x.0 /= n;
    }

    for (result, &expected) in data.iter().zip(input.iter()) {
        assert!(close64(result.0, expected, 1e-10));
    }
}

#[test]
fn test_sizes_subset() {
    let test_sizes = vec![1, 2, 4, 8, 10, 12, 16, 20];

    println!("\nFHT Subset Test (selected sizes)");
    println!("=================================\n");

    for log_n in test_sizes {
        let n = 1_usize << log_n;

        let mut data: Vec<F64> = (0..n)
            .map(|i| if i % 2 == 0 { F64(1.0) } else { F64(-1.0) })
            .collect();
        let input = data.clone();

        F64::fht_inplace(&mut data).unwrap();
        F64::fht_inplace(&mut data).unwrap();

        for x in &mut data {
            x.0 /= n as f64;
        }

        let max_error = data
            .iter()
            .zip(input.iter())
            .map(|(a, b)| (a.0 - b.0).abs())
            .fold(0.0, f64::max);

        println!("log_n={:2} (n={:8}): max_error={:.2e} ✓", log_n, n, max_error);
        assert!(max_error < 1e-6);
    }

    println!("\nAll subset tests passed!");
}
