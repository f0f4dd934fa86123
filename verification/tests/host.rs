use cubefx_engine::cube::{is_launchable, CubeCount, CubeDim, HardwareProperties};
use cubefx_engine::irfft::{can_hold_signals, irfft, irfft_launch};
use cubefx_engine::phase_shift::{phase_shift, phase_shift_launch};
use cubefx_engine::rfft::{
    can_hold_spectra, can_try_divisors, is_power_of_two_length, rfft, rfft_launch,
};
use cubefx_engine::shape::{contiguous_allocation, is_allocatable, num_elements, FloatKind};

const GPU: HardwareProperties = HardwareProperties { plane_size_min: 32, num_cpu_cores: None };
const CPU: HardwareProperties = HardwareProperties { plane_size_min: 1, num_cpu_cores: Some(4) };

#[test]
fn elements_are_the_product_of_dimensions() {
    assert_eq!(num_elements(&vec![]), 1);
    assert_eq!(num_elements(&vec![2, 3, 5]), 30);
    assert_eq!(num_elements(&vec![4, 0, 5]), 0);
}

#[test]
fn bytes_follow_the_kind() {
    let sizes = [
        (FloatKind::E2M1, 1),
        (FloatKind::E2M3, 1),
        (FloatKind::E3M2, 1),
        (FloatKind::E4M3, 1),
        (FloatKind::E5M2, 1),
        (FloatKind::UE8M0, 1),
        (FloatKind::F16, 2),
        (FloatKind::BF16, 2),
        (FloatKind::Flex32, 4),
        (FloatKind::F32, 4),
        (FloatKind::TF32, 4),
        (FloatKind::F64, 8),
    ];
    for (kind, size) in sizes {
        let allocation = contiguous_allocation(vec![2, 3], kind);
        assert_eq!(allocation.shape, vec![2, 3]);
        assert_eq!(allocation.num_bytes, 6 * size);
    }
}

#[test]
fn rfft_allocates_half_the_bins_and_one() {
    let (re, im) = rfft(&vec![2, 3, 8], FloatKind::F32);
    assert_eq!(re.shape, vec![2, 3, 5]);
    assert_eq!(im.shape, vec![2, 3, 5]);
    assert_eq!(re.num_bytes, 120);
    assert_eq!(im.num_bytes, 120);
}

#[test]
fn rfft_of_single_samples() {
    let (re, _) = rfft(&vec![4, 1], FloatKind::F16);
    assert_eq!(re.shape, vec![4, 1]);
    assert_eq!(re.num_bytes, 8);
}

#[test]
fn irfft_allocates_the_samples_of_the_bins() {
    let signal = irfft(&vec![2, 3, 5], &vec![2, 3, 5], FloatKind::F64);
    assert_eq!(signal.shape, vec![2, 3, 8]);
    assert_eq!(signal.num_bytes, 384);
}

#[test]
fn irfft_of_single_bins_is_empty() {
    let signal = irfft(&vec![2, 3, 1], &vec![2, 3, 1], FloatKind::F32);
    assert_eq!(signal.shape, vec![2, 3, 0]);
    assert_eq!(signal.num_bytes, 0);
}

#[test]
fn shapes_are_restored() {
    for n in [2usize, 4, 64, 1024] {
        let (re, im) = rfft(&vec![3, 2, n], FloatKind::F32);
        assert_eq!(irfft(&re.shape, &im.shape, FloatKind::F32).shape, vec![3, 2, n]);
    }
    for bins in [2usize, 3, 5, 33] {
        let signal = irfft(&vec![1, 1, bins], &vec![1, 1, bins], FloatKind::F32);
        assert_eq!(rfft(&signal.shape, FloatKind::F32).0.shape, vec![1, 1, bins]);
    }
}

#[test]
fn phase_shift_keeps_the_shape() {
    let (re, im) = phase_shift(&vec![2, 3, 5], FloatKind::BF16);
    assert_eq!(re.shape, vec![2, 3, 5]);
    assert_eq!(im.shape, vec![2, 3, 5]);
    assert_eq!(re.num_bytes, 60);
    assert_eq!(im.num_bytes, 60);
}

#[test]
fn rfft_launch_takes_planes() {
    let launch = rfft_launch(&GPU, &vec![5, 20, 16], &vec![8, 4, 2, 1]);
    assert_eq!(launch.cube_dim, CubeDim { x: 32, y: 1, z: 1 });
    assert_eq!(launch.cube_count, CubeCount::Static(4, 1, 1));
    assert_eq!(launch.num_samples, 16);
    assert_eq!(launch.vectorization_input, 8);
    assert_eq!(launch.vectorization, 1);
}

#[test]
fn rfft_launch_takes_the_first_line_size_that_divides() {
    let chosen = |sizes: Vec<usize>, n: usize| {
        rfft_launch(&GPU, &vec![1, 1, n], &sizes).vectorization_input
    };
    assert_eq!(chosen(vec![8, 4, 2, 1], 4), 4);
    assert_eq!(chosen(vec![2, 8], 16), 2);
    assert_eq!(chosen(vec![8, 4], 2), 1);
    assert_eq!(chosen(vec![], 8), 1);
    assert_eq!(chosen(vec![3, 5], 8), 1);
    assert_eq!(chosen(vec![2, 0], 8), 2);
}

#[test]
fn irfft_launch_shares_memory_between_no_units() {
    let launch = irfft_launch(&GPU, &vec![5, 20, 16]);
    assert_eq!(launch.cube_dim, CubeDim { x: 1, y: 1, z: 1 });
    assert_eq!(launch.cube_count, CubeCount::Static(100, 1, 1));
    assert_eq!(launch.num_samples, 16);
    assert!(launch.is_gpu);
    assert_eq!(launch.vectorization, 1);
}

#[test]
fn irfft_launch_on_a_cpu_takes_its_cores() {
    let launch = irfft_launch(&CPU, &vec![5, 2, 16]);
    assert_eq!(launch.cube_dim, CubeDim { x: 1, y: 4, z: 1 });
    assert_eq!(launch.cube_count, CubeCount::Static(3, 1, 1));
    assert!(!launch.is_gpu);
}

#[test]
fn phase_shift_launch_takes_planes() {
    let launch = phase_shift_launch(&GPU, &vec![2, 3, 9]);
    assert_eq!(launch.cube_dim, CubeDim { x: 32, y: 1, z: 1 });
    assert_eq!(launch.cube_count, CubeCount::Static(1, 1, 1));
    assert_eq!(launch.vectorization, 1);
}

#[test]
fn powers_of_two() {
    for n in 0..5000usize {
        assert_eq!(is_power_of_two_length(n), n.is_power_of_two());
    }
    assert!(is_power_of_two_length(1 << 63));
    assert!(!is_power_of_two_length(usize::MAX));
}

#[test]
fn allocatable_shapes() {
    assert!(is_allocatable(&vec![], FloatKind::F64));
    assert!(is_allocatable(&vec![2, 3, 5], FloatKind::F32));
    assert!(is_allocatable(&vec![usize::MAX], FloatKind::E4M3));
    assert!(!is_allocatable(&vec![usize::MAX], FloatKind::F16));
    assert!(is_allocatable(&vec![usize::MAX / 8], FloatKind::F64));
    assert!(!is_allocatable(&vec![usize::MAX / 8 + 1], FloatKind::F64));
    assert!(!is_allocatable(&vec![usize::MAX, 2], FloatKind::E4M3));
    assert!(!is_allocatable(&vec![usize::MAX, 2, 0], FloatKind::E4M3));
    assert!(is_allocatable(&vec![0, usize::MAX, 2], FloatKind::F64));
}

#[test]
fn line_sizes_are_tried_until_one_divides() {
    assert!(can_try_divisors(&vec![], 8));
    assert!(can_try_divisors(&vec![3, 5], 8));
    assert!(can_try_divisors(&vec![3, 4, 0], 8));
    assert!(!can_try_divisors(&vec![3, 0, 4], 8));
    assert!(!can_try_divisors(&vec![0], 8));
}

#[test]
fn shapes_whose_spectra_can_be_held() {
    assert!(can_hold_spectra(&vec![2, 3, 8], FloatKind::F32));
    assert!(can_hold_spectra(&vec![1], FloatKind::F32));
    assert!(!can_hold_spectra(&vec![], FloatKind::F32));
    assert!(!can_hold_spectra(&vec![2, 3, 6], FloatKind::F32));
    assert!(!can_hold_spectra(&vec![2, 3, 0], FloatKind::F32));
    assert!(!can_hold_spectra(&vec![usize::MAX, 3, 8], FloatKind::F32));
    assert!(can_hold_spectra(&vec![1 << 63], FloatKind::E4M3));
    assert!(!can_hold_spectra(&vec![1 << 63], FloatKind::F64));
}

#[test]
fn shapes_whose_signals_can_be_held() {
    let ok = |re: Vec<usize>, im: Vec<usize>| can_hold_signals(&re, &im, FloatKind::F32);
    assert!(ok(vec![2, 3, 5], vec![2, 3, 5]));
    assert!(ok(vec![1], vec![1]));
    assert!(!ok(vec![], vec![]));
    assert!(!ok(vec![2, 3, 5], vec![3, 2, 5]));
    assert!(!ok(vec![2, 3, 5], vec![2, 3, 5, 1]));
    assert!(!ok(vec![2, 3, 0], vec![2, 3, 0]));
    assert!(!ok(vec![usize::MAX], vec![usize::MAX]));
    assert!(!ok(vec![1 << 62], vec![1 << 62]));
}

#[test]
fn launchable_shapes() {
    assert!(is_launchable(&GPU, &vec![2, 3, 8], false));
    assert!(is_launchable(&GPU, &vec![2, 3], true));
    assert!(!is_launchable(&GPU, &vec![2], false));
    assert!(!is_launchable(&GPU, &vec![], true));
    assert!(!is_launchable(&GPU, &vec![usize::MAX, 2, 8], true));
    let no_planes = HardwareProperties { plane_size_min: 0, num_cpu_cores: None };
    assert!(!is_launchable(&no_planes, &vec![2, 3, 8], false));
    assert!(is_launchable(&no_planes, &vec![2, 3, 8], true));
}
