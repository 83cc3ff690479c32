use ftdecode::downsample::{
    ft4_bin, ft8_shift, validate_extract, validate_input, DownsampleError, Preparation,
    PCM_BOUND, RESIDUAL_BOUND,
};
use ftdecode::fft::{check_complex, check_plan, check_real, complex_points, FftError};

#[test]
fn constructors_reject_zero_length() {
    assert_eq!(check_plan(0), Err(FftError::ZeroLength));
    assert_eq!(check_plan(1), Ok(()));
}

#[test]
fn transforms_reject_incorrect_buffer_shapes() {
    assert!(check_complex(4, 3).is_err());
    assert!(check_complex(4, 5).is_err());
    assert!(check_complex(4, 4).is_ok());
    assert!(check_real(8, 7, 5).is_err());
    assert!(check_real(8, 9, 5).is_err());
    assert!(check_real(8, 8, 4).is_err());
    assert!(check_real(8, 8, 6).is_err());
    assert!(check_real(8, 8, 5).is_ok());
    assert_eq!(
        check_real(8, 7, 4).unwrap_err().text(),
        "expected input length 8, got 7"
    );
    assert_eq!(
        check_real(8, 8, 4).unwrap_err().text(),
        "expected output length 5, got 4"
    );
    assert_eq!(
        FftError::ZeroLength.text(),
        "FFT length must be nonzero"
    );
    assert_eq!(complex_points(8), 4);
    assert_eq!(complex_points(9), 9);
}

#[test]
fn prepare_rejects_non_finite_and_out_of_pcm_range_samples() {
    for invalid in [f32::NAN, f32::INFINITY, -32_769.0, 32_769.0] {
        let mut input = vec![0; 180_000];
        input[91] = invalid.to_bits();
        assert!(matches!(
            validate_input(&input, 180_000, PCM_BOUND),
            Err(DownsampleError::InvalidSample { index: 91 })
        ));
    }
    assert!(matches!(
        validate_input(&[0; 3], 4, PCM_BOUND),
        Err(DownsampleError::InvalidInputLength {
            expected: 4,
            actual: 3
        })
    ));
    assert!(validate_input(
        &[(-32_768.0_f32).to_bits(), 32_768.0_f32.to_bits()],
        2,
        PCM_BOUND
    )
    .is_ok());
}

#[test]
fn extract_validates_frequency_and_output_shape() {
    for frequency in [f32::NAN, f32::INFINITY, -0.01, 6000.01] {
        assert!(matches!(
            validate_extract(frequency.to_bits(), 4032, 4032, true),
            Err(DownsampleError::InvalidFrequency)
        ));
    }
    assert!(matches!(
        validate_extract(1500.0_f32.to_bits(), 4031, 4032, true),
        Err(DownsampleError::InvalidOutputLength { .. })
    ));
    assert_eq!(validate_extract(1500.0_f32.to_bits(), 4032, 4032, true), Ok(()));
}

#[test]
fn extraction_requires_a_successful_prepare_and_reset_invalidates_it() {
    let mut preparation = Preparation::new();
    assert_eq!(
        preparation.check(1500.0_f32.to_bits(), 3200, 3200),
        Err(DownsampleError::NotPrepared)
    );
    preparation.begin(&vec![0; 180_000], 180_000, PCM_BOUND).unwrap();
    preparation.complete();
    assert_eq!(preparation.check(1500.0_f32.to_bits(), 3200, 3200), Ok(()));
    preparation.reset();
    assert_eq!(
        preparation.check(1500.0_f32.to_bits(), 3200, 3200),
        Err(DownsampleError::NotPrepared)
    );
}

#[test]
fn failed_prepare_invalidates_the_previous_spectrum() {
    let mut preparation = Preparation::new();
    preparation.begin(&vec![0; 72_576], 72_576, PCM_BOUND).unwrap();
    preparation.complete();
    assert!(matches!(
        preparation.begin(&vec![0; 72_575], 72_576, PCM_BOUND),
        Err(DownsampleError::InvalidInputLength { .. })
    ));
    assert_eq!(
        preparation.check(1500.0_f32.to_bits(), 4032, 4032),
        Err(DownsampleError::NotPrepared)
    );
}

#[test]
fn bins_are_laid_out_around_the_center() {
    assert_eq!(ft4_bin(9072, 0), Some(9072));
    assert_eq!(ft4_bin(9072, 2015), Some(11087));
    assert_eq!(ft4_bin(9072, 2016), Some(7056));
    assert_eq!(ft4_bin(9072, 4031), Some(9071));
    assert_eq!(ft4_bin(0, 4031), None);
    assert_eq!(ft4_bin(0, 2016), Some(2016));
    assert_eq!(ft4_bin(36_288, 1), None);
    assert_eq!(ft8_shift(24_000, 23_863), 137);
    assert_eq!(ft8_shift(100, 200), 3_100);
}

#[test]
fn subtraction_residual_can_exceed_pcm_bounds_without_clipping() {
    let mut data = vec![0.0_f32; 180_000];
    data[0] = 40000.0;
    let check = |data: &[f32], bound: u32| {
        let patterns: Vec<u32> = data.iter().map(|x| x.to_bits()).collect();
        validate_input(&patterns, data.len(), bound)
    };
    assert!(check(&data, PCM_BOUND).is_err());
    assert!(check(&data, RESIDUAL_BOUND).is_ok());
    data.truncate(72_576);
    assert!(check(&data, PCM_BOUND).is_err());
    assert!(check(&data, RESIDUAL_BOUND).is_ok());
    data[0] = f32::INFINITY;
    assert!(check(&data, RESIDUAL_BOUND).is_err());
}
