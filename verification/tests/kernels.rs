use cubefx_engine::cube::{cube_selection, CubeCount, HardwareProperties};
use cubefx_engine::fft::FftMode;
use cubefx_engine::irfft::{irfft_kernel, irfft_kernel_one_batch, load_spectrum, normalize};
use cubefx_engine::layout::{BatchSignalLayout, Tensor};
use cubefx_engine::phase_shift::{phase_shift_kernel, phase_shift_kernel_one_window, shift_bin};
use cubefx_engine::rfft::{load_samples, rfft_kernel, rfft_kernel_one_window, rfft_launch};
use cubefx_engine::scalar::Float;
use cubefx_engine::shape::{contiguous_allocation, FloatKind};

#[derive(Clone, Copy, Debug, PartialEq)]
struct Real(f64);

impl Float for Real {
    fn cast_from(value: usize) -> Self {
        Real(value as f64)
    }
    fn plus(self, other: Self) -> Self {
        Real(self.0 + other.0)
    }
    fn minus(self, other: Self) -> Self {
        Real(self.0 - other.0)
    }
    fn times(self, other: Self) -> Self {
        Real(self.0 * other.0)
    }
    fn over(self, other: Self) -> Self {
        Real(self.0 / other.0)
    }
    fn negated(self) -> Self {
        Real(-self.0)
    }
    fn cos(self) -> Self {
        Real(self.0.cos())
    }
    fn sin(self) -> Self {
        Real(self.0.sin())
    }
}

fn reals(values: &[f64]) -> Vec<Real> {
    values.iter().map(|v| Real(*v)).collect()
}

fn tensor(shape: [usize; 3], line_size: usize, values: &[f64]) -> Tensor<Real> {
    Tensor {
        shape: shape.to_vec(),
        strides: vec![shape[1] * shape[2], shape[2], 1],
        line_size,
        data: reals(values),
    }
}

fn filled(shape: [usize; 3], value: f64) -> Tensor<Real> {
    tensor(shape, 1, &vec![value; shape[0] * shape[1] * shape[2]])
}

/// The discrete Fourier transform, by its definition.
fn dft(re: Vec<Real>, im: Vec<Real>, mode: FftMode) -> (Vec<Real>, Vec<Real>) {
    let n = re.len();
    let sign = match mode {
        FftMode::Forward => -1.0,
        FftMode::Inverse => 1.0,
    };
    let mut out_re = Vec::new();
    let mut out_im = Vec::new();
    for k in 0..n {
        let mut sum_re = 0.0;
        let mut sum_im = 0.0;
        for t in 0..n {
            let angle = sign * 2.0 * std::f64::consts::PI * ((k * t) % n) as f64 / n as f64;
            sum_re += re[t].0 * angle.cos() - im[t].0 * angle.sin();
            sum_im += re[t].0 * angle.sin() + im[t].0 * angle.cos();
        }
        out_re.push(Real(sum_re));
        out_im.push(Real(sum_im));
    }
    (out_re, out_im)
}

fn keep(re: Vec<Real>, im: Vec<Real>, _mode: FftMode) -> (Vec<Real>, Vec<Real>) {
    (re, im)
}

fn assert_close(actual: &[Real], expected: &[f64]) {
    assert_eq!(actual.len(), expected.len());
    for (a, e) in actual.iter().zip(expected) {
        assert!((a.0 - e).abs() < 1e-9, "{:?} is not {}", a, e);
    }
}

#[test]
fn layout_of_a_contiguous_window() {
    let t = filled([2, 3, 4], 0.0);
    let layout = BatchSignalLayout::new(&t, 4);
    assert_eq!(layout, BatchSignalLayout { offset: 16, stride: 1, len: 4 });
    assert_eq!(layout.position(3), 19);
}

#[test]
fn layout_of_a_strided_window() {
    let t = Tensor {
        shape: vec![2, 2, 3],
        strides: vec![1, 2, 4],
        line_size: 1,
        data: reals(&[0.0; 12]),
    };
    let layout = BatchSignalLayout::new(&t, 3);
    assert_eq!(layout, BatchSignalLayout { offset: 3, stride: 4, len: 3 });
    assert_eq!(layout.position(2), 11);
}

#[test]
fn samples_are_loaded_in_lines() {
    let values: Vec<f64> = (0..16).map(|v| v as f64).collect();
    for line_size in [1, 2, 4, 8] {
        let signal = tensor([1, 2, 8], line_size, &values);
        let (re, im) = load_samples(&signal, 1, 8);
        assert_eq!(re, reals(&values[8..]));
        assert_eq!(im, reals(&[0.0; 8]));
    }
}

#[test]
fn rfft_stores_the_first_bins() {
    let signal = tensor([1, 2, 4], 2, &[9.0, 9.0, 9.0, 9.0, 1.0, 2.0, 3.0, 4.0]);
    let mut re = filled([1, 2, 3], 7.0);
    let mut im = filled([1, 2, 3], 7.0);
    rfft_kernel_one_window(&signal, &mut re, &mut im, 1, 4, &keep);
    assert_eq!(re.data, reals(&[7.0, 7.0, 7.0, 1.0, 2.0, 3.0]));
    assert_eq!(im.data, reals(&[7.0, 7.0, 7.0, 0.0, 0.0, 0.0]));
}

#[test]
fn rfft_of_an_impulse_is_flat() {
    let signal = tensor([1, 1, 4], 1, &[1.0, 0.0, 0.0, 0.0]);
    let mut re = filled([1, 1, 3], 0.0);
    let mut im = filled([1, 1, 3], 0.0);
    rfft_kernel(&signal, &mut re, &mut im, 0, 4, &dft);
    assert_close(&re.data, &[1.0, 1.0, 1.0]);
    assert_close(&im.data, &[0.0, 0.0, 0.0]);
}

#[test]
fn rfft_of_a_ramp() {
    let signal = tensor([1, 1, 4], 4, &[1.0, 2.0, 3.0, 4.0]);
    let mut re = filled([1, 1, 3], 0.0);
    let mut im = filled([1, 1, 3], 0.0);
    rfft_kernel(&signal, &mut re, &mut im, 0, 4, &dft);
    assert_close(&re.data, &[10.0, -2.0, -2.0]);
    assert_close(&im.data, &[0.0, 2.0, 0.0]);
}

#[test]
fn rfft_unit_past_the_last_window_does_nothing() {
    let signal = tensor([1, 1, 2], 1, &[1.0, 2.0]);
    let mut re = filled([1, 1, 2], 7.0);
    let mut im = filled([1, 1, 2], 8.0);
    rfft_kernel(&signal, &mut re, &mut im, 1, 2, &dft);
    assert_eq!(re.data, reals(&[7.0, 7.0]));
    assert_eq!(im.data, reals(&[8.0, 8.0]));
}

#[test]
fn bins_are_completed_by_their_mirror_images() {
    let re = tensor([1, 1, 4], 1, &[1.0, 2.0, 3.0, 4.0]);
    let im = tensor([1, 1, 4], 1, &[0.0, 5.0, -6.0, 0.0]);
    let (whole_re, whole_im) = load_spectrum(&re, &im, 0, 6);
    assert_eq!(whole_re, reals(&[1.0, 2.0, 3.0, 4.0, 3.0, 2.0]));
    assert_eq!(whole_im, reals(&[0.0, 5.0, -6.0, 0.0, 6.0, -5.0]));
}

#[test]
fn two_bins_need_no_mirror() {
    let re = tensor([1, 1, 2], 1, &[3.0, 1.0]);
    let im = tensor([1, 1, 2], 1, &[0.0, 0.0]);
    let (whole_re, whole_im) = load_spectrum(&re, &im, 0, 2);
    assert_eq!(whole_re, reals(&[3.0, 1.0]));
    assert_eq!(whole_im, reals(&[0.0, 0.0]));
}

#[test]
fn samples_are_divided_by_their_number() {
    assert_eq!(normalize(&reals(&[4.0, 8.0, -2.0, 0.0])), reals(&[1.0, 2.0, -0.5, 0.0]));
    assert_eq!(normalize(&reals(&[])), reals(&[]));
}

#[test]
fn irfft_stores_normalized_real_parts() {
    let re = tensor([1, 2, 3], 1, &[0.0, 0.0, 0.0, 4.0, 8.0, 12.0]);
    let im = tensor([1, 2, 3], 1, &[0.0, 0.0, 0.0, 0.0, 1.0, 0.0]);
    let mut signal = filled([1, 2, 4], 7.0);
    irfft_kernel_one_batch(&re, &im, &mut signal, 1, 4, &keep);
    assert_eq!(signal.data, reals(&[7.0, 7.0, 7.0, 7.0, 1.0, 2.0, 3.0, 2.0]));
}

#[test]
fn irfft_of_the_zeroth_bin_is_constant() {
    let re = tensor([1, 1, 3], 1, &[4.0, 0.0, 0.0]);
    let im = tensor([1, 1, 3], 1, &[0.0, 0.0, 0.0]);
    let mut signal = filled([1, 1, 4], 0.0);
    irfft_kernel(&re, &im, &mut signal, 0, 4, &dft);
    assert_close(&signal.data, &[1.0, 1.0, 1.0, 1.0]);
}

#[test]
fn irfft_unit_past_the_last_window_does_nothing() {
    let re = tensor([1, 1, 2], 1, &[1.0, 2.0]);
    let im = tensor([1, 1, 2], 1, &[0.0, 0.0]);
    let mut signal = filled([1, 1, 2], 7.0);
    irfft_kernel(&re, &im, &mut signal, 5, 2, &dft);
    assert_eq!(signal.data, reals(&[7.0, 7.0]));
}

#[test]
fn irfft_undoes_rfft_in_every_window() {
    let values: Vec<f64> = (0..48).map(|v| ((v * 37) % 23) as f64 - 11.0).collect();
    let signal = tensor([2, 3, 8], 4, &values);
    let mut re = filled([2, 3, 5], 0.0);
    let mut im = filled([2, 3, 5], 0.0);
    let mut back = filled([2, 3, 8], 0.0);
    for w in [3, 0, 5, 1, 4, 2] {
        rfft_kernel(&signal, &mut re, &mut im, w, 8, &dft);
    }
    for w in [5, 4, 3, 2, 1, 0] {
        irfft_kernel(&re, &im, &mut back, w, 8, &dft);
    }
    assert_close(&back.data, &values);
}

#[test]
fn the_units_of_a_launch_reach_every_window() {
    let hw = HardwareProperties { plane_size_min: 4, num_cpu_cores: None };
    let values: Vec<f64> = (0..12).map(|v| v as f64).collect();
    let signal = tensor([2, 3, 2], 1, &values);
    let (dim, count, _) = cube_selection(&hw, 6, false);
    let cubes = match count {
        CubeCount::Static(x, _, _) => x,
        CubeCount::Dynamic => 0,
    };
    let units = (dim.x * dim.y * dim.z * cubes) as usize;
    assert_eq!(units, 8);
    let mut re = filled([2, 3, 2], -1.0);
    let mut im = filled([2, 3, 2], -1.0);
    for unit in (0..units).rev() {
        rfft_kernel(&signal, &mut re, &mut im, unit, 2, &keep);
    }
    assert_eq!(re.data, reals(&values));
    assert_eq!(im.data, reals(&[0.0; 12]));
}

#[test]
fn shifting_by_zero_keeps_a_bin() {
    assert_eq!(shift_bin(Real(3.0), Real(-2.0), Real(0.0), 5), (Real(3.0), Real(-2.0)));
    assert_eq!(shift_bin(Real(3.0), Real(-2.0), Real(0.7), 0), (Real(3.0), Real(-2.0)));
}

#[test]
fn shifting_turns_a_bin_by_its_index() {
    let quarter = Real(std::f64::consts::FRAC_PI_2);
    let (re, im) = shift_bin(Real(3.0), Real(1.0), quarter, 1);
    assert_close(&[re, im], &[-1.0, 3.0]);
    let (re, im) = shift_bin(Real(3.0), Real(1.0), quarter, 2);
    assert_close(&[re, im], &[-3.0, -1.0]);
}

#[test]
fn phase_shift_turns_the_bins_of_one_window() {
    let re = tensor([1, 2, 3], 1, &[9.0, 9.0, 9.0, 1.0, 2.0, 3.0]);
    let im = tensor([1, 2, 3], 1, &[9.0, 9.0, 9.0, 0.0, 0.0, 1.0]);
    let mut out_re = filled([1, 2, 3], 7.0);
    let mut out_im = filled([1, 2, 3], 7.0);
    let quarter = Real(std::f64::consts::FRAC_PI_2);
    phase_shift_kernel_one_window(&re, &im, &mut out_re, &mut out_im, 1, quarter);
    assert_close(&out_re.data, &[7.0, 7.0, 7.0, 1.0, 0.0, -3.0]);
    assert_close(&out_im.data, &[7.0, 7.0, 7.0, 0.0, 2.0, -1.0]);
}

#[test]
fn phase_shift_reaches_every_window_and_no_further() {
    let re = tensor([2, 1, 2], 1, &[1.0, 2.0, 3.0, 4.0]);
    let im = tensor([2, 1, 2], 1, &[0.0, 0.0, 0.0, 0.0]);
    let mut out_re = filled([2, 1, 2], 7.0);
    let mut out_im = filled([2, 1, 2], 7.0);
    for unit in [4, 1, 3, 0, 2] {
        phase_shift_kernel(&re, &im, &mut out_re, &mut out_im, unit, Real(std::f64::consts::PI));
    }
    assert_close(&out_re.data, &[1.0, -2.0, 3.0, -4.0]);
    assert_close(&out_im.data, &[0.0, 0.0, 0.0, 0.0]);
}

#[test]
fn windows_tile_the_data() {
    let t = filled([2, 3, 4], 0.0);
    let mut positions = Vec::new();
    for w in 0..6 {
        let layout = BatchSignalLayout::new(&t, w);
        for i in 0..layout.len {
            positions.push(layout.position(i));
        }
    }
    let expected: Vec<usize> = (0..24).collect();
    assert_eq!(positions, expected);
}

#[test]
fn completing_the_bins_of_a_real_spectrum_restores_it() {
    let samples = reals(&[3.0, -1.0, 4.0, 1.0, -5.0, 9.0, 2.0, -6.0]);
    let (re, im) = dft(samples, reals(&[0.0; 8]), FftMode::Forward);
    let bins_re: Vec<f64> = re[..5].iter().map(|v| v.0).collect();
    let bins_im: Vec<f64> = im[..5].iter().map(|v| v.0).collect();
    let (whole_re, whole_im) =
        load_spectrum(&tensor([1, 1, 5], 1, &bins_re), &tensor([1, 1, 5], 1, &bins_im), 0, 8);
    let expected_re: Vec<f64> = re.iter().map(|v| v.0).collect();
    let expected_im: Vec<f64> = im.iter().map(|v| v.0).collect();
    assert_close(&whole_re, &expected_re);
    assert_close(&whole_im, &expected_im);
}

#[test]
fn the_launched_line_size_reads_every_sample() {
    let hw = HardwareProperties { plane_size_min: 4, num_cpu_cores: None };
    let values: Vec<f64> = (0..8).map(|v| v as f64).collect();
    for sizes in [vec![16, 8, 4], vec![3, 2], vec![5], vec![]] {
        let launch = rfft_launch(&hw, &vec![1, 1, 8], &sizes);
        let signal = tensor([1, 1, 8], launch.vectorization_input, &values);
        let (re, _) = load_samples(&signal, 0, launch.num_samples);
        assert_eq!(re, reals(&values));
    }
}

#[test]
fn the_units_of_an_inverse_launch_reach_every_window() {
    let hw = HardwareProperties { plane_size_min: 4, num_cpu_cores: None };
    let re = tensor([3, 1, 2], 1, &[2.0, 4.0, 6.0, 8.0, 10.0, 12.0]);
    let im = filled([3, 1, 2], 0.0);
    let mut signal = filled([3, 1, 2], -1.0);
    let (dim, count, single) = cube_selection(&hw, 3, true);
    assert!(single);
    assert_eq!((dim.x, dim.y, dim.z), (1, 1, 1));
    assert_eq!(count, CubeCount::Static(3, 1, 1));
    for unit in [1, 2, 0] {
        irfft_kernel(&re, &im, &mut signal, unit, 2, &keep);
    }
    assert_eq!(signal.data, reals(&[1.0, 2.0, 3.0, 4.0, 5.0, 6.0]));
}

#[test]
fn an_allocation_holds_the_data_of_its_shape() {
    let t = filled([2, 3, 4], 0.0);
    assert_eq!(contiguous_allocation(t.shape, FloatKind::F64).num_bytes, 8 * t.data.len());
}

#[test]
fn phase_shift_writes_where_the_outputs_have_the_window() {
    // The inputs are transposed, the outputs contiguous.
    let transposed = |values: &[f64]| Tensor {
        shape: vec![1, 2, 3],
        strides: vec![6, 1, 2],
        line_size: 1,
        data: reals(values),
    };
    let re = transposed(&[1.0, 4.0, 2.0, 5.0, 3.0, 6.0]);
    let im = transposed(&[10.0, 40.0, 20.0, 50.0, 30.0, 60.0]);
    let mut out_re = filled([1, 2, 3], 7.0);
    let mut out_im = filled([1, 2, 3], 7.0);
    phase_shift_kernel(&re, &im, &mut out_re, &mut out_im, 0, Real(0.0));
    assert_eq!(out_re.data, reals(&[1.0, 2.0, 3.0, 7.0, 7.0, 7.0]));
    assert_eq!(out_im.data, reals(&[10.0, 20.0, 30.0, 7.0, 7.0, 7.0]));
    phase_shift_kernel(&re, &im, &mut out_re, &mut out_im, 1, Real(0.0));
    assert_eq!(out_re.data, reals(&[1.0, 2.0, 3.0, 4.0, 5.0, 6.0]));
    assert_eq!(out_im.data, reals(&[10.0, 20.0, 30.0, 40.0, 50.0, 60.0]));
}

#[test]
fn rfft_undoes_irfft_on_real_spectra() {
    let bins_re = [5.0, -3.0, 2.0, 8.0, 1.0, 4.0, -7.0, 0.5, 9.0, 6.0];
    let bins_im = [0.0, 2.0, -1.0, 3.0, 0.0, 0.0, -4.0, 1.5, 2.5, 0.0];
    let re = tensor([1, 2, 5], 1, &bins_re);
    let im = tensor([1, 2, 5], 1, &bins_im);
    let mut signal = filled([1, 2, 8], 0.0);
    let mut back_re = filled([1, 2, 5], 0.0);
    let mut back_im = filled([1, 2, 5], 0.0);
    for w in 0..2 {
        irfft_kernel(&re, &im, &mut signal, w, 8, &dft);
    }
    for w in 0..2 {
        rfft_kernel(&signal, &mut back_re, &mut back_im, w, 8, &dft);
    }
    assert_close(&back_re.data, &bins_re);
    assert_close(&back_im.data, &bins_im);
}

#[test]
fn the_line_size_does_not_change_the_spectra() {
    let values: Vec<f64> = (0..16).map(|v| ((v * 5) % 7) as f64).collect();
    let spectra = |line_size: usize| {
        let signal = tensor([1, 2, 8], line_size, &values);
        let mut re = filled([1, 2, 5], 0.0);
        let mut im = filled([1, 2, 5], 0.0);
        rfft_kernel(&signal, &mut re, &mut im, 0, 8, &dft);
        rfft_kernel(&signal, &mut re, &mut im, 1, 8, &dft);
        (re.data, im.data)
    };
    let expected = spectra(1);
    assert_eq!(spectra(2), expected);
    assert_eq!(spectra(4), expected);
    assert_eq!(spectra(8), expected);
}

#[test]
fn two_inverse_runs_leave_one_signal() {
    let re = tensor([1, 1, 3], 1, &[4.0, 1.0, -2.0]);
    let im = tensor([1, 1, 3], 1, &[0.0, 3.0, 0.0]);
    let mut first = filled([1, 1, 4], 7.0);
    let mut second = filled([1, 1, 4], 7.0);
    irfft_kernel(&re, &im, &mut first, 0, 4, &dft);
    irfft_kernel(&re, &im, &mut second, 0, 4, &dft);
    assert_eq!(first.data, second.data);
    assert_close(&first.data, &[1.0, 0.0, 0.0, 3.0]);
}
