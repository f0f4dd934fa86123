//! The real-valued Fourier transform.

use vstd::prelude::*;

use crate::cube::{cube_selection, CubeCount, CubeDim, HardwareProperties};
use crate::fft::FftMode;
use crate::layout::{write_window, BatchSignalLayout, Tensor};
use crate::scalar::Float;
use crate::shape::{contiguous_allocation, is_allocatable, with_last, Allocation, FloatKind};

verus! {

/// Whether all elements are zeros of the element type.
pub open spec fn zeros<F: Float>(values: Seq<F>) -> bool {
    forall|i: int|
        0 <= i < values.len() ==> call_ensures(F::cast_from, (0usize,), #[trigger] values[i])
}

/// Whether a window of real samples may have the given spectrum: it is what the transform makes of
/// the samples as complex numbers without imaginary part.
pub open spec fn spectrum_of<F: Float, T: Fn(Vec<F>, Vec<F>, FftMode) -> (Vec<F>, Vec<F>)>(
    fft: T,
    samples: Seq<F>,
    re: Seq<F>,
    im: Seq<F>,
) -> bool {
    exists|im0: Seq<F>|
        im0.len() == samples.len() && zeros(im0) && #[trigger] crate::fft::transformed(
            fft,
            FftMode::Forward,
            samples,
            im0,
            re,
            im,
        )
}

/// What a kernel needs of the signal: windows that start on a line and hold whole lines, and samples
/// of one line side by side.
pub open spec fn readable_in_lines<F>(signal: Tensor<F>) -> bool {
    &&& signal.wf()
    &&& signal.window_len() % signal.line_size as int == 0
    &&& signal.line_size == 1 || signal.strides@[2] == 1
    &&& forall|w: int|
        0 <= w < signal.windows() ==> #[trigger] signal.offset(w) % signal.line_size as int == 0
}

/// The samples of a window, as complex numbers without imaginary part.
pub fn load_samples<F: Float>(
    signal: &Tensor<F>,
    window_index: usize,
    num_samples: usize,
) -> (loaded: (Vec<F>, Vec<F>))
    requires
        readable_in_lines(*signal),
        window_index < signal.windows(),
        num_samples == signal.window_len(),
    ensures
        loaded.0@ == signal.window(window_index as int),
        loaded.1@.len() == num_samples,
        zeros(loaded.1@),
{
    let layout = BatchSignalLayout::new(signal, window_index);
    let line_size: usize = signal.line_size;
    let lines: usize = num_samples / line_size;
    let ghost window = signal.window(window_index as int);
    assert(lines * line_size == num_samples) by (nonlinear_arith)
        requires
            line_size > 0,
            num_samples as int % line_size as int == 0,
            lines == num_samples as int / line_size as int,
    ;

    let mut re: Vec<F> = Vec::new();
    let mut im: Vec<F> = Vec::new();
    assert(re@ =~= window.take(0));
    assert(0 * line_size == 0) by (nonlinear_arith);
    for i in 0..lines
        invariant
            readable_in_lines(*signal),
            window_index < signal.windows(),
            num_samples == signal.window_len(),
            layout == BatchSignalLayout::of(*signal, window_index as int),
            layout.fits(signal.data@.len() as int),
            forall|k: int|
                layout.spec_position(k) == #[trigger] signal.position(window_index as int, k),
            window == signal.window(window_index as int),
            line_size == signal.line_size,
            lines * line_size == num_samples,
            re@ == window.take(i * line_size),
            im@.len() == i * line_size,
            zeros(im@),
    {
        assert(i * line_size + line_size <= num_samples) by (nonlinear_arith)
            requires
                i + 1 <= lines,
                lines * line_size == num_samples,
                line_size > 0,
        ;
        assert(0 <= i * line_size) by (nonlinear_arith);
        assert(signal.data@.len() == signal.data.len());
        let first: usize = i * line_size;
        assert(layout.spec_position(first as int) < signal.data@.len());
        let base: usize = layout.position(first);
        for j in 0..line_size
            invariant
                readable_in_lines(*signal),
                window_index < signal.windows(),
                num_samples == signal.window_len(),
                layout == BatchSignalLayout::of(*signal, window_index as int),
                layout.fits(signal.data@.len() as int),
                forall|k: int|
                    layout.spec_position(k) == #[trigger] signal.position(window_index as int, k),
                window == signal.window(window_index as int),
                line_size == signal.line_size,
                first + line_size <= num_samples,
                base == layout.spec_position(first as int),
                signal.data@.len() <= usize::MAX,
                re@ == window.take(first + j),
                im@.len() == first + j,
                zeros(im@),
        {
            let ghost k: int = first + j;
            assert(layout.spec_position(k) == base + j) by {
                let stride = layout.stride as int;
                assert(k * stride == first * stride + j) by (nonlinear_arith)
                    requires
                        k == first + j,
                        stride == 1 || j == 0,
                ;
            }
            assert(layout.spec_position(k) < signal.data@.len());
            assert(signal.position(window_index as int, k) == base + j);
            re.push(signal.data[base + j]);
            im.push(F::cast_from(0));
            assert(re@ =~= window.take(k + 1));
        }
        assert(i * line_size + line_size == (i + 1) * line_size) by (nonlinear_arith);
    }
    assert(window.take(num_samples as int) =~= window);
    (re, im)
}

/// Applies the transform to one window.
///
/// The samples of the window are loaded and transformed, and as many bins as the spectrum tensors
/// hold are stored. `fft` is the complex transform.
pub fn rfft_kernel_one_window<F: Float, T: Fn(Vec<F>, Vec<F>, FftMode) -> (Vec<F>, Vec<F>)>(
    signal: &Tensor<F>,
    spectrums_re: &mut Tensor<F>,
    spectrums_im: &mut Tensor<F>,
    window_index: usize,
    num_samples: usize,
    fft: &T,
)
    requires
        readable_in_lines(*signal),
        crate::layout::writable(*old(spectrums_re)),
        crate::layout::writable(*old(spectrums_im)),
        window_index < signal.windows(),
        window_index < old(spectrums_re).windows(),
        window_index < old(spectrums_im).windows(),
        num_samples == signal.window_len(),
        old(spectrums_re).window_len() <= num_samples,
        old(spectrums_im).window_len() == old(spectrums_re).window_len(),
        crate::fft::transforms(*fft, num_samples as int),
    ensures
        final(spectrums_re).same_layout(*old(spectrums_re)),
        final(spectrums_im).same_layout(*old(spectrums_im)),
        stores_spectrum(
            *fft,
            signal.window(window_index as int),
            window_index as int,
            *old(spectrums_re),
            *old(spectrums_im),
            *final(spectrums_re),
            *final(spectrums_im),
        ),
{
    let re_layout = BatchSignalLayout::new(spectrums_re, window_index);
    let im_layout = BatchSignalLayout::new(spectrums_im, window_index);
    let (re0, im0) = load_samples(signal, window_index, num_samples);
    let ghost zero = im0@;
    let (re, im) = fft(re0, im0, FftMode::Forward);
    let ghost samples = signal.window(window_index as int);
    assert(crate::fft::transformed(*fft, FftMode::Forward, samples, zero, re@, im@));
    assert(spectrum_of(*fft, samples, re@, im@));
    write_window(&mut spectrums_re.data, &re_layout, &re);
    write_window(&mut spectrums_im.data, &im_layout, &im);
}

/// Whether a window of both spectrum tensors, and nothing else of them, was set to the first bins
/// of a spectrum of the samples.
pub open spec fn stores_spectrum<F: Float, T: Fn(Vec<F>, Vec<F>, FftMode) -> (Vec<F>, Vec<F>)>(
    fft: T,
    samples: Seq<F>,
    window: int,
    re_before: Tensor<F>,
    im_before: Tensor<F>,
    re_after: Tensor<F>,
    im_after: Tensor<F>,
) -> bool {
    exists|re: Seq<F>, im: Seq<F>|
        #[trigger] spectrum_of(fft, samples, re, im) && re.len() == samples.len() && im.len()
            == samples.len() && crate::layout::written(
            re_before.data@,
            re_after.data@,
            BatchSignalLayout::of(re_before, window),
            re,
        ) && crate::layout::written(
            im_before.data@,
            im_after.data@,
            BatchSignalLayout::of(im_before, window),
            im,
        )
}

/// What the unit at a position does: it stores the spectrum of the window with that index, and
/// nothing where there is no such window.
pub open spec fn rfft_unit<F: Float, T: Fn(Vec<F>, Vec<F>, FftMode) -> (Vec<F>, Vec<F>)>(
    fft: T,
    signal: Tensor<F>,
    absolute_pos: int,
    re_before: Tensor<F>,
    im_before: Tensor<F>,
    re_after: Tensor<F>,
    im_after: Tensor<F>,
) -> bool {
    &&& re_after.same_layout(re_before)
    &&& im_after.same_layout(im_before)
    &&& absolute_pos < signal.windows() ==> stores_spectrum(
        fft,
        signal.window(absolute_pos),
        absolute_pos,
        re_before,
        im_before,
        re_after,
        im_after,
    )
    &&& absolute_pos >= signal.windows() ==> re_after == re_before && im_after == im_before
}

/// The kernel of one unit: the unit applies the transform to the window of its position, and a
/// unit past the last window does nothing.
pub fn rfft_kernel<F: Float, T: Fn(Vec<F>, Vec<F>, FftMode) -> (Vec<F>, Vec<F>)>(
    signal: &Tensor<F>,
    spectrums_re: &mut Tensor<F>,
    spectrums_im: &mut Tensor<F>,
    absolute_pos: usize,
    num_samples: usize,
    fft: &T,
)
    requires
        readable_in_lines(*signal),
        crate::layout::writable(*old(spectrums_re)),
        crate::layout::writable(*old(spectrums_im)),
        signal.windows() <= old(spectrums_re).windows(),
        signal.windows() <= old(spectrums_im).windows(),
        num_samples == signal.window_len(),
        old(spectrums_re).window_len() <= num_samples,
        old(spectrums_im).window_len() == old(spectrums_re).window_len(),
        crate::fft::transforms(*fft, num_samples as int),
    ensures
        rfft_unit(
            *fft,
            *signal,
            absolute_pos as int,
            *old(spectrums_re),
            *old(spectrums_im),
            *final(spectrums_re),
            *final(spectrums_im),
        ),
{
    let num_batch: usize = signal.shape[0] * signal.shape[1];
    if absolute_pos >= num_batch {
        return;
    }
    rfft_kernel_one_window(signal, spectrums_re, spectrums_im, absolute_pos, num_samples, fft);
}

/// The number of frequency bins of a spectrum of real samples.
pub open spec fn num_freq_bins(num_samples: int) -> int {
    num_samples / 2 + 1
}

/// Whether a number is a power of two.
pub open spec fn is_power_of_two(n: usize) -> bool {
    exists|k: nat| n == #[trigger] vstd::arithmetic::power2::pow2(k)
}

/// Whether `rfft` takes windows of the given length.
pub fn is_power_of_two_length(num_samples: usize) -> (ok: bool)
    ensures
        ok == is_power_of_two(num_samples),
{
    let mut rest: usize = num_samples;
    proof {
        lemma_power_of_two_step(rest);
    }
    while rest != 0 && rest % 2 == 0
        invariant
            is_power_of_two(rest) == is_power_of_two(num_samples),
        decreases rest,
    {
        proof {
            lemma_power_of_two_step(rest);
        }
        rest = rest / 2;
    }
    proof {
        lemma_power_of_two_step(rest);
    }
    rest == 1
}

proof fn lemma_power_of_two_step(n: usize)
    ensures
        n == 0 ==> !is_power_of_two(n),
        n % 2 == 1 ==> (is_power_of_two(n) <==> n == 1),
        n > 0 && n % 2 == 0 ==> is_power_of_two(n) == is_power_of_two((n / 2) as usize),
{
    vstd::arithmetic::power2::lemma2_to64();
    assert(n == 1 ==> n == vstd::arithmetic::power2::pow2(0));
    if is_power_of_two(n) {
        let k = choose|k: nat| n == #[trigger] vstd::arithmetic::power2::pow2(k);
        vstd::arithmetic::power2::lemma_pow2_pos(k);
        if k > 0 {
            vstd::arithmetic::power2::lemma_pow2_unfold(k);
            assert(n / 2 == vstd::arithmetic::power2::pow2((k - 1) as nat));
        }
    }
    if n > 0 && n % 2 == 0 && is_power_of_two((n / 2) as usize) {
        let k = choose|k: nat| (n / 2) as usize == #[trigger] vstd::arithmetic::power2::pow2(k);
        vstd::arithmetic::power2::lemma_pow2_unfold(k + 1);
        assert(n == vstd::arithmetic::power2::pow2(k + 1));
    }
}

/// The shape of the spectra of signals: the last dimension counts frequency bins in place of
/// samples.
pub open spec fn spectrum_shape(signal_shape: Seq<usize>) -> Seq<usize> {
    signal_shape.update(
        signal_shape.len() - 1,
        num_freq_bins(signal_shape.last() as int) as usize,
    )
}

/// Whether spectra of signals of the given shape can be taken and held.
pub open spec fn spectra_can_be_held(signal_shape: Seq<usize>, dtype: FloatKind) -> bool {
    &&& signal_shape.len() > 0
    &&& is_power_of_two(signal_shape.last())
    &&& crate::shape::allocatable(spectrum_shape(signal_shape), dtype)
}

/// Whether spectra of signals of the given shape can be taken and held.
pub fn can_hold_spectra(signal_shape: &Vec<usize>, dtype: FloatKind) -> (ok: bool)
    ensures
        ok == spectra_can_be_held(signal_shape@, dtype),
{
    if signal_shape.len() == 0 {
        return false;
    }
    let num_samples: usize = signal_shape[signal_shape.len() - 1];
    if !is_power_of_two_length(num_samples) {
        return false;
    }
    is_allocatable(&with_last(signal_shape, num_samples / 2 + 1), dtype)
}

/// The tensors that hold the spectra, real parts first, of signals along the last dimension.
pub fn rfft(signal_shape: &Vec<usize>, dtype: FloatKind) -> (spectrum: (Allocation, Allocation))
    requires
        spectra_can_be_held(signal_shape@, dtype),
    ensures
        spectrum.0.is_for(spectrum_shape(signal_shape@), dtype),
        spectrum.1.is_for(spectrum_shape(signal_shape@), dtype),
{
    let dim: usize = signal_shape.len() - 1;
    let bins: usize = signal_shape[dim] / 2 + 1;
    let spectrum_re = contiguous_allocation(with_last(signal_shape, bins), dtype);
    let spectrum_im = contiguous_allocation(with_last(signal_shape, bins), dtype);
    (spectrum_re, spectrum_im)
}

/// Whether `chosen` is the first of the line sizes that divides the number of samples, or one if
/// there is none.
pub open spec fn is_first_divisor(
    line_sizes: Seq<usize>,
    num_samples: usize,
    chosen: usize,
) -> bool {
    ||| exists|i: int|
        {
            &&& 0 <= i < line_sizes.len()
            &&& chosen == #[trigger] line_sizes[i]
            &&& num_samples % line_sizes[i] == 0
            &&& forall|j: int| 0 <= j < i ==> num_samples % #[trigger] line_sizes[j] != 0
        }
    ||| chosen == 1 && forall|j: int|
        0 <= j < line_sizes.len() ==> num_samples % #[trigger] line_sizes[j] != 0
}

/// Whether the line sizes can be tried in turn until one divides the number of samples: none of
/// those tried is zero.
pub open spec fn divisors_can_be_tried(line_sizes: Seq<usize>, num_samples: usize) -> bool {
    forall|i: int|
        0 <= i < line_sizes.len() && (forall|j: int|
            0 <= j < i ==> num_samples % #[trigger] line_sizes[j] != 0) ==> #[trigger] line_sizes[i]
            != 0
}

/// Whether the line sizes can be tried in turn until one divides the number of samples.
pub fn can_try_divisors(line_sizes: &Vec<usize>, num_samples: usize) -> (ok: bool)
    ensures
        ok == divisors_can_be_tried(line_sizes@, num_samples),
{
    for i in 0..line_sizes.len()
        invariant
            forall|j: int|
                0 <= j < i ==> #[trigger] line_sizes@[j] != 0 && num_samples % line_sizes@[j] != 0,
    {
        if line_sizes[i] == 0 {
            return false;
        }
        if num_samples % line_sizes[i] == 0 {
            return true;
        }
    }
    true
}

/// How the kernel of the transform is launched.
#[derive(Clone, Copy, Debug, PartialEq, Eq, Structural)]
pub struct RfftLaunch {
    pub cube_dim: CubeDim,
    pub cube_count: CubeCount,
    /// The length of a window.
    pub num_samples: usize,
    /// The line size of the signal.
    pub vectorization_input: usize,
    /// The line size of the spectra.
    pub vectorization: usize,
}

/// Chooses the cubes and line sizes of a launch for signals of the given shape.
///
/// `line_sizes` are those that the device reads efficiently, best first.
pub fn rfft_launch(
    hw: &HardwareProperties,
    signal_shape: &Vec<usize>,
    line_sizes: &Vec<usize>,
) -> (launch: RfftLaunch)
    requires
        crate::cube::launchable(*hw, signal_shape@, false),
        divisors_can_be_tried(line_sizes@, signal_shape@.last()),
    ensures
        (launch.cube_dim, launch.cube_count, false) == crate::cube::selection(
            *hw,
            (signal_shape@[0] * signal_shape@[1]) as usize,
            false,
        ),
        launch.num_samples == signal_shape@.last(),
        is_first_divisor(line_sizes@, signal_shape@.last(), launch.vectorization_input),
        launch.vectorization == 1,
{
    let num_iter: usize = signal_shape[0] * signal_shape[1];
    let (cube_dim, cube_count, _) = cube_selection(hw, num_iter, false);
    let num_samples: usize = signal_shape[signal_shape.len() - 1];
    let vectorization_input: usize = first_divisor(line_sizes, num_samples);
    RfftLaunch { cube_dim, cube_count, num_samples, vectorization_input, vectorization: 1 }
}

/// The first of the line sizes that divides the number of samples, or one if there is none.
fn first_divisor(line_sizes: &Vec<usize>, num_samples: usize) -> (chosen: usize)
    requires
        divisors_can_be_tried(line_sizes@, num_samples),
    ensures
        is_first_divisor(line_sizes@, num_samples, chosen),
{
    for i in 0..line_sizes.len()
        invariant
            divisors_can_be_tried(line_sizes@, num_samples),
            forall|j: int| 0 <= j < i ==> num_samples % #[trigger] line_sizes@[j] != 0,
    {
        assert(line_sizes@[i as int] != 0);
        if num_samples % line_sizes[i] == 0 {
            return line_sizes[i];
        }
    }
    1
}

/// The line size chosen for the signal divides the length of a window, so that no sample is left
/// out of the lines.
pub proof fn law_lines_cover_window(line_sizes: Seq<usize>, num_samples: usize, chosen: usize)
    requires
        divisors_can_be_tried(line_sizes, num_samples),
        is_first_divisor(line_sizes, num_samples, chosen),
    ensures
        chosen > 0,
        num_samples % chosen == 0,
{
}

/// A contiguous signal that is read in lines of the chosen size is one that the kernel can read.
pub proof fn law_launched_signal_is_readable<F>(signal: Tensor<F>, line_sizes: Seq<usize>)
    requires
        signal.contiguous(),
        divisors_can_be_tried(line_sizes, signal.shape@[2]),
        is_first_divisor(line_sizes, signal.shape@[2], signal.line_size),
    ensures
        readable_in_lines(signal),
{
    crate::layout::law_contiguous_is_wf(signal);
    law_lines_cover_window(line_sizes, signal.shape@[2], signal.line_size);
    let len = signal.window_len();
    let line = signal.line_size as int;
    assert forall|w: int| 0 <= w < signal.windows() implies #[trigger] signal.offset(w) % line
        == 0 by {
        assert(signal.position(w, 0) == w * len);
        vstd::arithmetic::div_mod::lemma_fundamental_div_mod(len, line);
        vstd::arithmetic::mul::lemma_mul_is_associative(w, len / line, line);
        vstd::arithmetic::mul::lemma_mul_is_commutative(line, len / line);
        vstd::arithmetic::div_mod::lemma_mod_multiples_basic(w * (len / line), line);
    }
}

/// Whether two signals hold the same samples in the same places, and differ at most in the size of
/// the lines that they are read in.
pub open spec fn differ_in_lines<F>(a: Tensor<F>, b: Tensor<F>) -> bool {
    &&& a.shape@ == b.shape@
    &&& a.strides@ == b.strides@
    &&& a.data@ == b.data@
}

/// The line size of the signal does not change what a unit may do: what it may do with lines of one
/// size it may do with lines of another, and nothing else.
pub proof fn law_line_size_keeps_outcomes<
    F: Float,
    T: Fn(Vec<F>, Vec<F>, FftMode) -> (Vec<F>, Vec<F>),
>(
    fft: T,
    a: Tensor<F>,
    b: Tensor<F>,
    absolute_pos: int,
    re_before: Tensor<F>,
    im_before: Tensor<F>,
    re_after: Tensor<F>,
    im_after: Tensor<F>,
)
    requires
        differ_in_lines(a, b),
    ensures
        rfft_unit(fft, a, absolute_pos, re_before, im_before, re_after, im_after) <==> rfft_unit(
            fft,
            b,
            absolute_pos,
            re_before,
            im_before,
            re_after,
            im_after,
        ),
{
    assert(a.window(absolute_pos) =~= b.window(absolute_pos));
}

/// Whether real samples have but one spectrum.
pub open spec fn has_one_spectrum<F: Float, T: Fn(Vec<F>, Vec<F>, FftMode) -> (Vec<F>, Vec<F>)>(
    fft: T,
    samples: Seq<F>,
) -> bool {
    forall|re: Seq<F>, im: Seq<F>, other_re: Seq<F>, other_im: Seq<F>|
        #[trigger] spectrum_of(fft, samples, re, im) && #[trigger] spectrum_of(
            fft,
            samples,
            other_re,
            other_im,
        ) ==> re == other_re && im == other_im
}

/// Where the transform and casts are unique, real samples have but one spectrum.
pub proof fn law_samples_have_one_spectrum<
    F: Float,
    T: Fn(Vec<F>, Vec<F>, FftMode) -> (Vec<F>, Vec<F>),
>(fft: T, samples: Seq<F>)
    requires
        crate::scalar::casts_uniquely::<F>(),
        crate::fft::transforms_uniquely(fft, FftMode::Forward),
    ensures
        has_one_spectrum(fft, samples),
{
    assert forall|re: Seq<F>, im: Seq<F>, other_re: Seq<F>, other_im: Seq<F>|
        #[trigger] spectrum_of(fft, samples, re, im) && #[trigger] spectrum_of(
            fft,
            samples,
            other_re,
            other_im,
        ) implies re == other_re && im == other_im by {
        let zero = choose|zero: Seq<F>|
            zero.len() == samples.len() && zeros(zero) && #[trigger] crate::fft::transformed(
                fft,
                FftMode::Forward,
                samples,
                zero,
                re,
                im,
            );
        let other_zero = choose|zero: Seq<F>|
            zero.len() == samples.len() && zeros(zero) && #[trigger] crate::fft::transformed(
                fft,
                FftMode::Forward,
                samples,
                zero,
                other_re,
                other_im,
            );
        assert forall|i: int| 0 <= i < samples.len() implies zero[i] == other_zero[i] by {
            assert(call_ensures(F::cast_from, (0usize,), zero[i]));
            assert(call_ensures(F::cast_from, (0usize,), other_zero[i]));
        }
        assert(zero =~= other_zero);
    }
}

/// The line size of the signal does not change the spectra: where samples have but one spectrum,
/// two units at the same position that read them in lines of different sizes leave the same
/// elements behind.
pub proof fn law_line_size_keeps_spectra<
    F: Float,
    T: Fn(Vec<F>, Vec<F>, FftMode) -> (Vec<F>, Vec<F>),
>(
    fft: T,
    a: Tensor<F>,
    b: Tensor<F>,
    absolute_pos: int,
    re_before: Tensor<F>,
    im_before: Tensor<F>,
    re_after_a: Tensor<F>,
    im_after_a: Tensor<F>,
    re_after_b: Tensor<F>,
    im_after_b: Tensor<F>,
)
    requires
        differ_in_lines(a, b),
        has_one_spectrum(fft, a.window(absolute_pos)),
        rfft_unit(fft, a, absolute_pos, re_before, im_before, re_after_a, im_after_a),
        rfft_unit(fft, b, absolute_pos, re_before, im_before, re_after_b, im_after_b),
    ensures
        re_after_a.data@ == re_after_b.data@,
        im_after_a.data@ == im_after_b.data@,
{
    assert(a.window(absolute_pos) =~= b.window(absolute_pos));
    if absolute_pos < a.windows() {
        let samples = a.window(absolute_pos);
        let re_layout = BatchSignalLayout::of(re_before, absolute_pos);
        let im_layout = BatchSignalLayout::of(im_before, absolute_pos);
        let (re, im) = choose|re: Seq<F>, im: Seq<F>|
            #[trigger] spectrum_of(fft, samples, re, im) && re.len() == samples.len() && im.len()
                == samples.len() && crate::layout::written(
                re_before.data@,
                re_after_a.data@,
                re_layout,
                re,
            ) && crate::layout::written(im_before.data@, im_after_a.data@, im_layout, im);
        let (other_re, other_im) = choose|re: Seq<F>, im: Seq<F>|
            #[trigger] spectrum_of(fft, samples, re, im) && re.len() == samples.len() && im.len()
                == samples.len() && crate::layout::written(
                re_before.data@,
                re_after_b.data@,
                re_layout,
                re,
            ) && crate::layout::written(im_before.data@, im_after_b.data@, im_layout, im);
        assert(re == other_re && im == other_im);
        crate::layout::lemma_written_is_determined(
            re_before.data@,
            re_after_a.data@,
            re_after_b.data@,
            re_layout,
            re,
        );
        crate::layout::lemma_written_is_determined(
            im_before.data@,
            im_after_a.data@,
            im_after_b.data@,
            im_layout,
            im,
        );
    }
}

/// Contiguous spectrum tensors of the allocated shape have a window for each window of the signal,
/// with no more bins than there are samples.
pub proof fn law_spectra_match_signal<F>(signal: Tensor<F>, spectrum: Tensor<F>)
    requires
        signal.shape@.len() == 3,
        is_power_of_two(signal.shape@[2]),
        spectrum.shape@ == spectrum_shape(signal.shape@),
        spectrum.contiguous(),
        spectrum.line_size == 1,
    ensures
        crate::layout::writable(spectrum),
        spectrum.windows() == signal.windows(),
        spectrum.window_len() == num_freq_bins(signal.window_len()),
        spectrum.window_len() <= signal.window_len(),
{
    crate::layout::law_contiguous_is_wf(spectrum);
    let k = choose|k: nat| signal.shape@[2] == #[trigger] vstd::arithmetic::power2::pow2(k);
    vstd::arithmetic::power2::lemma_pow2_pos(k);
}

/// A launch transforms every window: in whatever order its units run, in the end the spectrum
/// tensors hold, for each window of the signal, the first bins of a spectrum of its samples.
///
/// `re` and `im` are the spectrum tensors before the first unit and after each unit.
pub proof fn law_rfft_transforms_every_window<
    F: Float,
    T: Fn(Vec<F>, Vec<F>, FftMode) -> (Vec<F>, Vec<F>),
>(
    hw: HardwareProperties,
    fft: T,
    signal: Tensor<F>,
    order: Seq<int>,
    re: Seq<Tensor<F>>,
    im: Seq<Tensor<F>>,
)
    requires
        signal.windows() <= u32::MAX,
        crate::cube::selectable(hw, signal.windows() as usize, false),
        crate::units::runs_all_units(hw, signal.windows() as usize, false, order),
        forall|t: int| 0 <= t < order.len() ==> #[trigger] order[t] >= 0,
        re.len() == order.len() + 1,
        im.len() == order.len() + 1,
        re[0].contiguous(),
        im[0].contiguous(),
        re[0].windows() == signal.windows(),
        im[0].windows() == signal.windows(),
        re[0].window_len() == im[0].window_len(),
        re[0].window_len() <= signal.window_len(),
        forall|t: int|
            0 <= t < order.len() ==> rfft_unit(
                fft,
                signal,
                #[trigger] order[t],
                re[t],
                im[t],
                re[t + 1],
                im[t + 1],
            ),
    ensures
        forall|w: int|
            0 <= w < signal.windows() ==> first_bins_of(
                fft,
                signal.window(w),
                #[trigger] re.last().window(w),
                im.last().window(w),
            ),
        re[0].shape@ == spectrum_shape(signal.shape@) && im[0].shape@ == spectrum_shape(
            signal.shape@,
        ) ==> crate::round_trip::are_spectra_of(fft, signal, re.last(), im.last()),
{
    let windows = signal.windows();
    let content = |t: int, w: int| (re[t].window(w), im[t].window(w));
    let settled = |w: int, c: (Seq<F>, Seq<F>)| first_bins_of(fft, signal.window(w), c.0, c.1);
    assert forall|t: int| 0 <= t < order.len() implies (#[trigger] re[t + 1]).same_layout(re[t]) by {
        let p = order[t];
    }
    assert forall|t: int| 0 <= t < order.len() implies (#[trigger] im[t + 1]).same_layout(im[t]) by {
        let p = order[t];
    }
    crate::units::lemma_layout_is_kept(re, order.len() as int);
    crate::units::lemma_layout_is_kept(im, order.len() as int);
    assert forall|t: int, w: int|
        #![trigger content(t + 1, w)]
        0 <= t < order.len() && 0 <= w < windows implies if w == order[t] {
        settled(w, content(t + 1, w))
    } else {
        content(t + 1, w) == content(t, w)
    } by {
        let p = order[t];
        assert(re[t].contiguous() && im[t].contiguous());
        if p < windows {
            let (sre, sim) = choose|sre: Seq<F>, sim: Seq<F>|
                #[trigger] spectrum_of(fft, signal.window(p), sre, sim) && sre.len()
                    == signal.window(p).len() && sim.len() == signal.window(p).len()
                    && crate::layout::written(
                    re[t].data@,
                    re[t + 1].data@,
                    BatchSignalLayout::of(re[t], p),
                    sre,
                ) && crate::layout::written(
                    im[t].data@,
                    im[t + 1].data@,
                    BatchSignalLayout::of(im[t], p),
                    sim,
                );
            crate::layout::law_window_write_is_local(re[t], re[t + 1], p, sre);
            crate::layout::law_window_write_is_local(im[t], im[t + 1], p, sim);
            assert(re[t + 1].window(p) == sre.take(re[t].window_len()));
            assert(im[t + 1].window(p) == sim.take(im[t].window_len()));
            assert(first_bins_of(fft, signal.window(p), re[t + 1].window(p), im[t + 1].window(p)));
            if w != p {
                assert(re[t + 1].window(w) == re[t].window(w));
                assert(im[t + 1].window(w) == im[t].window(w));
            }
        }
    }
    crate::units::lemma_units_settle_windows(order, windows, content, settled, order.len() as int);
    crate::cube::law_selection_covers_iterations(hw, windows as usize, false);
    assert forall|w: int| 0 <= w < windows implies first_bins_of(
        fft,
        signal.window(w),
        #[trigger] re.last().window(w),
        im.last().window(w),
    ) by {
        assert(order.contains(w));
        assert(order.take(order.len() as int) =~= order);
        assert(settled(w, content(order.len() as int, w)));
    }
}

/// Whether bins are the first ones of a spectrum of the samples.
pub open spec fn first_bins_of<F: Float, T: Fn(Vec<F>, Vec<F>, FftMode) -> (Vec<F>, Vec<F>)>(
    fft: T,
    samples: Seq<F>,
    bins_re: Seq<F>,
    bins_im: Seq<F>,
) -> bool {
    exists|re: Seq<F>, im: Seq<F>|
        #[trigger] spectrum_of(fft, samples, re, im) && re.len() == samples.len() && im.len()
            == samples.len() && bins_re == re.take(bins_re.len() as int) && bins_im == im.take(
            bins_im.len() as int,
        )
}

/// Doubling a length keeps it a power of two, or keeps it from being one. Zero is none.
pub proof fn law_doubling_keeps_powers_of_two(n: usize, twice: usize, ok: bool, twice_ok: bool)
    requires
        twice == 2 * n,
        call_ensures(is_power_of_two_length, (n,), ok),
        call_ensures(is_power_of_two_length, (twice,), twice_ok),
    ensures
        ok == twice_ok,
        n == 0 ==> !ok,
{
    lemma_power_of_two_step(n);
    lemma_power_of_two_step(twice);
}

/// One is the only odd length that is a power of two.
pub proof fn law_odd_lengths_are_refused(n: usize, ok: bool)
    requires
        n % 2 == 1,
        call_ensures(is_power_of_two_length, (n,), ok),
    ensures
        ok <==> n == 1,
{
    lemma_power_of_two_step(n);
}

/// The spectra keep all dimensions of the signals but the last, which counts the frequencies from
/// zero to half the number of samples, and both take the bytes of all their bins.
pub proof fn law_spectra_hold_half_the_frequencies(
    signal_shape: Vec<usize>,
    dtype: FloatKind,
    re: Allocation,
    im: Allocation,
    count: usize,
)
    requires
        signal_shape@.len() > 0,
        call_ensures(rfft, (&signal_shape, dtype), (re, im)),
        call_ensures(crate::shape::num_elements, (&re.shape,), count),
    ensures
        re.shape@.len() == signal_shape@.len(),
        re.shape@.drop_last() == signal_shape@.drop_last(),
        2 * (re.shape@.last() - 1) <= signal_shape@.last() < 2 * re.shape@.last(),
        im.shape@ == re.shape@,
        re.num_bytes == count * dtype.bytes(),
        im.num_bytes == re.num_bytes,
{
    assert(re.shape@.drop_last() =~= signal_shape@.drop_last());
}

/// The spectra of signals fit into what is allocated for them: the bytes are those of the data of
/// every contiguous tensor of the allocated shape.
pub proof fn law_spectra_fit_their_allocation<F>(
    signal_shape: Vec<usize>,
    dtype: FloatKind,
    re: Allocation,
    im: Allocation,
    tensor: Tensor<F>,
)
    requires
        call_ensures(rfft, (&signal_shape, dtype), (re, im)),
        tensor.contiguous(),
        tensor.shape@ == re.shape@,
    ensures
        re.num_bytes == tensor.data@.len() * dtype.bytes(),
        im.num_bytes == tensor.data@.len() * dtype.bytes(),
{
    crate::layout::law_allocation_holds_data(tensor);
}

/// Spectra are refused only where there is no window, its length is no power of two, or the
/// tensors of the spectra cannot be allocated.
pub proof fn law_spectra_are_refused_for_cause(
    signal_shape: Vec<usize>,
    spectrum_shape: Vec<usize>,
    dtype: FloatKind,
    is_length: bool,
    fits: bool,
    ok: bool,
)
    requires
        signal_shape@.len() > 0,
        spectrum_shape@.len() == signal_shape@.len(),
        spectrum_shape@.drop_last() == signal_shape@.drop_last(),
        2 * (spectrum_shape@.last() - 1) <= signal_shape@.last() < 2 * spectrum_shape@.last(),
        call_ensures(is_power_of_two_length, (signal_shape@.last(),), is_length),
        call_ensures(is_allocatable, (&spectrum_shape, dtype), fits),
        call_ensures(can_hold_spectra, (&signal_shape, dtype), ok),
    ensures
        ok == (is_length && fits),
        ok ==> call_requires(rfft, (&signal_shape, dtype)),
{
    let expected = self::spectrum_shape(signal_shape@);
    assert forall|i: int| 0 <= i < expected.len() implies expected[i] == spectrum_shape@[i] by {
        if i < expected.len() - 1 {
            assert(signal_shape@.drop_last()[i] == signal_shape@[i]);
            assert(spectrum_shape@.drop_last()[i] == spectrum_shape@[i]);
        } else {
            assert(spectrum_shape@[i] == spectrum_shape@.last());
        }
    }
    assert(expected =~= spectrum_shape@);
}

/// No spectra without a dimension.
pub proof fn law_spectra_need_a_dimension(signal_shape: Vec<usize>, dtype: FloatKind, ok: bool)
    requires
        signal_shape@.len() == 0,
        call_ensures(can_hold_spectra, (&signal_shape, dtype), ok),
    ensures
        !ok,
{
}

/// A launch has a unit for each window of the signal, and is told the length of a window. Spectra
/// are written one element at a time.
pub proof fn law_rfft_launch_counts_windows(
    hw: HardwareProperties,
    signal_shape: Vec<usize>,
    line_sizes: Vec<usize>,
    windows: usize,
    launch: RfftLaunch,
    selected: (CubeDim, CubeCount, bool),
)
    requires
        windows == signal_shape@[0] * signal_shape@[1],
        call_ensures(rfft_launch, (&hw, &signal_shape, &line_sizes), launch),
        call_ensures(cube_selection, (&hw, windows, false), selected),
    ensures
        launch.cube_dim == selected.0,
        launch.cube_count == selected.1,
        launch.num_samples == signal_shape@.last(),
        launch.vectorization == 1,
{
}

/// The best line size is taken if it divides the length of a window, and otherwise plays no part;
/// without line sizes a line has one element.
pub proof fn law_best_line_size_is_taken(
    hw: HardwareProperties,
    signal_shape: Vec<usize>,
    line_sizes: Vec<usize>,
    rest: Vec<usize>,
    launch: RfftLaunch,
    rest_launch: RfftLaunch,
)
    requires
        line_sizes@.len() > 0,
        line_sizes@[0] > 0,
        rest@ == line_sizes@.skip(1),
        call_ensures(rfft_launch, (&hw, &signal_shape, &line_sizes), launch),
        call_ensures(rfft_launch, (&hw, &signal_shape, &rest), rest_launch),
    ensures
        signal_shape@.last() % line_sizes@[0] == 0 ==> launch.vectorization_input == line_sizes@[0],
        signal_shape@.last() % line_sizes@[0] != 0 ==> launch.vectorization_input
            == rest_launch.vectorization_input,
        rest@.len() == 0 ==> rest_launch.vectorization_input == 1,
{
    let n = signal_shape@.last();
    if n % line_sizes@[0] != 0 {
        assert forall|j: int| 0 <= j < rest@.len() implies #[trigger] rest@[j] == line_sizes@[j
            + 1] by {}
        assert forall|j: int| 1 <= j < line_sizes@.len() implies #[trigger] line_sizes@[j]
            == rest@[j - 1] by {}
        lemma_first_divisor_is_unique(
            rest@,
            n,
            rest_launch.vectorization_input,
            launch.vectorization_input,
        );
    }
}

proof fn lemma_first_divisor_is_unique(line_sizes: Seq<usize>, n: usize, a: usize, b: usize)
    requires
        is_first_divisor(line_sizes, n, a),
        is_first_divisor(line_sizes, n, b),
    ensures
        a == b,
{
}

/// Line sizes can be tried in turn unless a zero comes before the first divisor: a zero in front is
/// fatal, a divisor in front is found, any other number in front plays no part, and no line sizes
/// are no obstacle.
pub proof fn law_a_zero_line_size_stops_the_trial(
    line_sizes: Vec<usize>,
    rest: Vec<usize>,
    num_samples: usize,
    ok: bool,
    rest_ok: bool,
)
    requires
        line_sizes@.len() > 0,
        rest@ == line_sizes@.skip(1),
        call_ensures(can_try_divisors, (&line_sizes, num_samples), ok),
        call_ensures(can_try_divisors, (&rest, num_samples), rest_ok),
    ensures
        line_sizes@[0] == 0 ==> !ok,
        line_sizes@[0] != 0 && num_samples % line_sizes@[0] == 0 ==> ok,
        line_sizes@[0] != 0 && num_samples % line_sizes@[0] != 0 ==> ok == rest_ok,
        rest@.len() == 0 ==> rest_ok,
{
    let n = num_samples;
    let first = line_sizes@[0];
    assert forall|j: int| 0 <= j < rest@.len() implies #[trigger] rest@[j] == line_sizes@[j + 1] by {}
    if first != 0 && n % first != 0 {
        if rest_ok {
            assert forall|i: int|
                0 <= i < line_sizes@.len() && (forall|j: int|
                    0 <= j < i ==> n % #[trigger] line_sizes@[j] != 0) implies #[trigger] line_sizes@[i]
                != 0 by {
                if i > 0 {
                    assert forall|j: int| 0 <= j < i - 1 implies n % #[trigger] rest@[j] != 0 by {
                        assert(n % line_sizes@[j + 1] != 0);
                    }
                    assert(rest@[i - 1] != 0);
                }
            }
        }
        if ok {
            assert forall|i: int|
                0 <= i < rest@.len() && (forall|j: int|
                    0 <= j < i ==> n % #[trigger] rest@[j] != 0) implies #[trigger] rest@[i] != 0 by {
                assert forall|j: int| 0 <= j < i + 1 implies n % #[trigger] line_sizes@[j] != 0 by {
                    if j > 0 {
                        assert(n % rest@[j - 1] != 0);
                    }
                }
                assert(line_sizes@[i + 1] != 0);
            }
        }
    }
}

/// The kernel stores what the transform makes of the samples and zeros: the real parts in the one
/// tensor, the imaginary parts in the other, each bin in its place, for windows of every length.
/// `real_part` and `imag_part` are what the forward transform computes, `zero` is the zero of the
/// element type.
pub proof fn law_rfft_stores_the_transform<
    F: Float,
    T: Fn(Vec<F>, Vec<F>, FftMode) -> (Vec<F>, Vec<F>),
>(
    fft: T,
    real_part: spec_fn(Seq<F>, Seq<F>) -> Seq<F>,
    imag_part: spec_fn(Seq<F>, Seq<F>) -> Seq<F>,
    zero: F,
    signal: Tensor<F>,
    w: usize,
    num_samples: usize,
    re_before: Tensor<F>,
    im_before: Tensor<F>,
    re_after: Tensor<F>,
    im_after: Tensor<F>,
)
    requires
        forall|z: F| #[trigger] call_ensures(F::cast_from, (0usize,), z) ==> z == zero,
        forall|a: Vec<F>, b: Vec<F>, out: (Vec<F>, Vec<F>)| #[trigger]
            call_ensures(fft, (a, b, FftMode::Forward), out) ==> out.0@ == real_part(a@, b@)
                && out.1@ == imag_part(a@, b@),
        w < signal.shape@[0] * signal.shape@[1],
        0 <= re_before.offset(w as int) <= usize::MAX,
        0 <= im_before.offset(w as int) <= usize::MAX,
        (exists|re: &mut Tensor<F>, im: &mut Tensor<F>|
            {
                &&& *re == re_before
                &&& *im == im_before
                &&& *final(re) == re_after
                &&& *final(im) == im_after
                &&& #[trigger] call_ensures(
                    crate::rfft::rfft_kernel::<F, T>,
                    (&signal, re, im, w, num_samples, &fft),
                    (),
                )
            }) || (exists|re: &mut Tensor<F>, im: &mut Tensor<F>|
            {
                &&& *re == re_before
                &&& *im == im_before
                &&& *final(re) == re_after
                &&& *final(im) == im_after
                &&& #[trigger] call_ensures(
                    crate::rfft::rfft_kernel_one_window::<F, T>,
                    (&signal, re, im, w, num_samples, &fft),
                    (),
                )
            }),
    ensures
        ({
            let samples = signal.window(w as int);
            let zeros = Seq::new(signal.shape@[2] as nat, |i: int| zero);
            &&& forall|k: int|
                0 <= k < re_before.shape@[2] ==> re_after.data@[#[trigger] re_before.position(
                    w as int,
                    k,
                )] == real_part(samples, zeros)[k]
            &&& forall|k: int|
                0 <= k < im_before.shape@[2] ==> im_after.data@[#[trigger] im_before.position(
                    w as int,
                    k,
                )] == imag_part(samples, zeros)[k]
        }),
{
    let v = w as int;
    let samples = signal.window(v);
    let zeros = Seq::new(signal.shape@[2] as nat, |i: int| zero);
    let (re, im) = choose|re: Seq<F>, im: Seq<F>|
        #[trigger] spectrum_of(fft, samples, re, im) && re.len() == samples.len() && im.len()
            == samples.len() && crate::layout::written(
            re_before.data@,
            re_after.data@,
            BatchSignalLayout::of(re_before, v),
            re,
        ) && crate::layout::written(
            im_before.data@,
            im_after.data@,
            BatchSignalLayout::of(im_before, v),
            im,
        );
    let im0 = choose|im0: Seq<F>|
        im0.len() == samples.len() && self::zeros(im0) && #[trigger] crate::fft::transformed(
            fft,
            FftMode::Forward,
            samples,
            im0,
            re,
            im,
        );
    assert(im0 =~= zeros);
    assert(re == real_part(samples, zeros));
    assert(im == imag_part(samples, zeros));
    assert forall|k: int| 0 <= k < re_before.shape@[2] implies re_after.data@[
        #[trigger] re_before.position(v, k)
    ] == real_part(samples, zeros)[k] by {
        assert(BatchSignalLayout::of(re_before, v).spec_position(k) == re_before.position(v, k));
    }
    assert forall|k: int| 0 <= k < im_before.shape@[2] implies im_after.data@[
        #[trigger] im_before.position(v, k)
    ] == imag_part(samples, zeros)[k] by {
        assert(BatchSignalLayout::of(im_before, v).spec_position(k) == im_before.position(v, k));
    }
}

/// With a transform that forward returns its arguments, the real parts are the first samples of the
/// window and the imaginary parts are zeros.
pub proof fn law_rfft_without_a_transform_copies_samples<
    F: Float,
    T: Fn(Vec<F>, Vec<F>, FftMode) -> (Vec<F>, Vec<F>),
>(
    fft: T,
    zero: F,
    signal: Tensor<F>,
    w: usize,
    num_samples: usize,
    re_before: Tensor<F>,
    im_before: Tensor<F>,
    re_after: Tensor<F>,
    im_after: Tensor<F>,
)
    requires
        forall|z: F| #[trigger] call_ensures(F::cast_from, (0usize,), z) ==> z == zero,
        forall|a: Vec<F>, b: Vec<F>, out: (Vec<F>, Vec<F>)| #[trigger]
            call_ensures(fft, (a, b, FftMode::Forward), out) ==> out.0@ == a@ && out.1@ == b@,
        w < signal.shape@[0] * signal.shape@[1],
        re_before.shape@[2] <= signal.shape@[2],
        im_before.shape@[2] <= signal.shape@[2],
        0 <= re_before.offset(w as int) <= usize::MAX,
        0 <= im_before.offset(w as int) <= usize::MAX,
        (exists|re: &mut Tensor<F>, im: &mut Tensor<F>|
            {
                &&& *re == re_before
                &&& *im == im_before
                &&& *final(re) == re_after
                &&& *final(im) == im_after
                &&& #[trigger] call_ensures(
                    crate::rfft::rfft_kernel::<F, T>,
                    (&signal, re, im, w, num_samples, &fft),
                    (),
                )
            }) || (exists|re: &mut Tensor<F>, im: &mut Tensor<F>|
            {
                &&& *re == re_before
                &&& *im == im_before
                &&& *final(re) == re_after
                &&& *final(im) == im_after
                &&& #[trigger] call_ensures(
                    crate::rfft::rfft_kernel_one_window::<F, T>,
                    (&signal, re, im, w, num_samples, &fft),
                    (),
                )
            }),
    ensures
        forall|k: int|
            0 <= k < re_before.shape@[2] ==> re_after.data@[#[trigger] re_before.position(
                w as int,
                k,
            )] == signal.window(w as int)[k],
        forall|k: int|
            0 <= k < im_before.shape@[2] ==> im_after.data@[#[trigger] im_before.position(
                w as int,
                k,
            )] == zero,
{
    law_rfft_stores_the_transform(
        fft,
        |a: Seq<F>, b: Seq<F>| a,
        |a: Seq<F>, b: Seq<F>| b,
        zero,
        signal,
        w,
        num_samples,
        re_before,
        im_before,
        re_after,
        im_after,
    );
}

/// The kernel changes nothing but the elements of its window, and nothing at all where there is no
/// such window.
pub proof fn law_rfft_keeps_other_elements<
    F: Float,
    T: Fn(Vec<F>, Vec<F>, FftMode) -> (Vec<F>, Vec<F>),
>(
    fft: T,
    signal: Tensor<F>,
    w: usize,
    num_samples: usize,
    re_before: Tensor<F>,
    im_before: Tensor<F>,
    re_after: Tensor<F>,
    im_after: Tensor<F>,
    p: int,
)
    requires
        w < signal.shape@[0] * signal.shape@[1] ==> 0 <= re_before.offset(w as int) <= usize::MAX,
        w < signal.shape@[0] * signal.shape@[1] ==> 0 <= im_before.offset(w as int) <= usize::MAX,
        exists|re: &mut Tensor<F>, im: &mut Tensor<F>|
            {
                &&& *re == re_before
                &&& *im == im_before
                &&& *final(re) == re_after
                &&& *final(im) == im_after
                &&& #[trigger] call_ensures(
                    crate::rfft::rfft_kernel::<F, T>,
                    (&signal, re, im, w, num_samples, &fft),
                    (),
                )
            },
    ensures
        re_after.shape@ == re_before.shape@ && re_after.strides@ == re_before.strides@,
        im_after.shape@ == im_before.shape@ && im_after.strides@ == im_before.strides@,
        re_after.line_size == re_before.line_size && im_after.line_size == im_before.line_size,
        re_after.data@.len() == re_before.data@.len(),
        im_after.data@.len() == im_before.data@.len(),
        w >= signal.shape@[0] * signal.shape@[1] ==> re_after == re_before && im_after == im_before,
        0 <= p < re_before.data@.len() && (forall|k: int|
            0 <= k < re_before.shape@[2] ==> p != #[trigger] re_before.position(w as int, k))
            ==> re_after.data@[p] == re_before.data@[p],
        0 <= p < im_before.data@.len() && (forall|k: int|
            0 <= k < im_before.shape@[2] ==> p != #[trigger] im_before.position(w as int, k))
            ==> im_after.data@[p] == im_before.data@[p],
{
    if w < signal.windows() {
        crate::layout::lemma_covers_positions(re_before, w as int, p);
        crate::layout::lemma_covers_positions(im_before, w as int, p);
    }
}

} // verus!
