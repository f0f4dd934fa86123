//! The inverse of the real-valued Fourier transform.

use vstd::prelude::*;

use crate::cube::{cube_selection, CubeCount, CubeDim, HardwareProperties};
use crate::fft::FftMode;
use crate::layout::{read, write_window, BatchSignalLayout, Tensor};
use crate::scalar::Float;
use crate::shape::{
    contiguous_allocation, is_allocatable, same_shape, with_last, Allocation, FloatKind,
};

verus! {

/// Whether a whole spectrum is the completion of its first bins: the bins between the first and
/// the last stand mirrored, and conjugated, behind them.
pub open spec fn completes<F: Float>(
    bins_re: Seq<F>,
    bins_im: Seq<F>,
    re: Seq<F>,
    im: Seq<F>,
) -> bool {
    let n = 2 * (bins_re.len() - 1);
    &&& bins_im.len() == bins_re.len()
    &&& re.len() == n
    &&& im.len() == n
    &&& forall|i: int|
        #![trigger re[i]]
        #![trigger im[i]]
        0 <= i < bins_re.len() ==> re[i] == bins_re[i] && im[i] == bins_im[i]
    &&& forall|i: int|
        #![trigger re[i]]
        #![trigger im[i]]
        bins_re.len() <= i < n ==> re[i] == bins_re[n - i] && call_ensures(
            F::negated,
            (bins_im[n - i],),
            im[i],
        )
}

/// Whether `out` is `value` divided by the number of samples.
pub open spec fn normalized<F: Float>(value: F, num_samples: usize, out: F) -> bool {
    exists|count: F|
        call_ensures(F::cast_from, (num_samples,), count) && #[trigger] call_ensures(
            F::over,
            (value, count),
            out,
        )
}

/// Whether samples are the normalized real parts of what the inverse transform makes of a spectrum.
pub open spec fn inverse_of<F: Float, T: Fn(Vec<F>, Vec<F>, FftMode) -> (Vec<F>, Vec<F>)>(
    fft: T,
    re: Seq<F>,
    im: Seq<F>,
    samples: Seq<F>,
) -> bool {
    exists|out_re: Seq<F>, out_im: Seq<F>|
        {
            &&& #[trigger] crate::fft::transformed(fft, FftMode::Inverse, re, im, out_re, out_im)
            &&& out_re.len() == samples.len() == re.len()
            &&& forall|i: int|
                0 <= i < samples.len() ==> normalized(
                    out_re[i],
                    samples.len() as usize,
                    #[trigger] samples[i],
                )
        }
}

/// Whether frequency bins may have the given samples: those come by the inverse transform from the
/// completed spectrum.
pub open spec fn samples_of<F: Float, T: Fn(Vec<F>, Vec<F>, FftMode) -> (Vec<F>, Vec<F>)>(
    fft: T,
    bins_re: Seq<F>,
    bins_im: Seq<F>,
    samples: Seq<F>,
) -> bool {
    exists|re: Seq<F>, im: Seq<F>|
        completes(bins_re, bins_im, re, im) && #[trigger] inverse_of(fft, re, im, samples)
}

/// The bins of a window, completed to the spectrum of as many bins as there are samples.
pub fn load_spectrum<F: Float>(
    spectrums_re: &Tensor<F>,
    spectrums_im: &Tensor<F>,
    window_index: usize,
    num_samples: usize,
) -> (loaded: (Vec<F>, Vec<F>))
    requires
        spectrums_re.wf(),
        spectrums_im.wf(),
        window_index < spectrums_re.windows(),
        window_index < spectrums_im.windows(),
        spectrums_im.window_len() == spectrums_re.window_len(),
        spectrums_re.window_len() >= 2,
        num_samples == 2 * (spectrums_re.window_len() - 1),
    ensures
        completes(
            spectrums_re.window(window_index as int),
            spectrums_im.window(window_index as int),
            loaded.0@,
            loaded.1@,
        ),
{
    let re_layout = BatchSignalLayout::new(spectrums_re, window_index);
    let im_layout = BatchSignalLayout::new(spectrums_im, window_index);
    let num_freq_bins: usize = re_layout.len;
    let ghost bins_re = spectrums_re.window(window_index as int);
    let ghost bins_im = spectrums_im.window(window_index as int);

    let mut re: Vec<F> = Vec::new();
    let mut im: Vec<F> = Vec::new();
    for i in 0..num_freq_bins
        invariant
            num_freq_bins == re_layout.len == im_layout.len,
            bins_re == spectrums_re.window(window_index as int),
            bins_im == spectrums_im.window(window_index as int),
            bins_re.len() == num_freq_bins == bins_im.len(),
            re_layout.fits(spectrums_re.data@.len() as int),
            im_layout.fits(spectrums_im.data@.len() as int),
            forall|k: int|
                re_layout.spec_position(k) == #[trigger] spectrums_re.position(
                    window_index as int,
                    k,
                ),
            forall|k: int|
                im_layout.spec_position(k) == #[trigger] spectrums_im.position(
                    window_index as int,
                    k,
                ),
            re@ == bins_re.take(i as int),
            im@ == bins_im.take(i as int),
    {
        let ghost w = window_index as int;
        assert(re_layout.spec_position(i as int) == spectrums_re.position(w, i as int));
        assert(im_layout.spec_position(i as int) == spectrums_im.position(w, i as int));
        re.push(read(&spectrums_re.data, &re_layout, i));
        im.push(read(&spectrums_im.data, &im_layout, i));
        assert(re@ =~= bins_re.take(i + 1));
        assert(im@ =~= bins_im.take(i + 1));
    }

    let mut i: usize = num_freq_bins;
    while i < num_samples
        invariant
            num_freq_bins >= 2,
            num_freq_bins <= i <= num_samples,
            num_samples == 2 * (num_freq_bins - 1),
            bins_re.len() == num_freq_bins == bins_im.len(),
            re@.len() == i == im@.len(),
            forall|k: int|
                0 <= k < num_freq_bins ==> #[trigger] re@[k] == bins_re[k] && im@[k] == bins_im[k],
            forall|k: int|
                num_freq_bins <= k < i ==> #[trigger] re@[k] == bins_re[num_samples - k]
                    && call_ensures(F::negated, (bins_im[num_samples - k],), im@[k]),
        decreases num_samples - i,
    {
        let k: usize = num_samples - i;
        let mirrored_re = re[k];
        let mirrored_im = im[k].negated();
        assert(re@[k as int] == bins_re[k as int]);
        re.push(mirrored_re);
        im.push(mirrored_im);
        i = i + 1;
    }
    assert(num_samples == 2 * (bins_re.len() - 1));
    assert(completes(bins_re, bins_im, re@, im@));
    (re, im)
}

/// The real parts of a transformed spectrum, divided by the number of samples.
pub fn normalize<F: Float>(spectrum_re: &Vec<F>) -> (samples: Vec<F>)
    ensures
        samples@.len() == spectrum_re@.len(),
        forall|i: int|
            0 <= i < samples@.len() ==> normalized(
                spectrum_re@[i],
                spectrum_re@.len() as usize,
                #[trigger] samples@[i],
            ),
{
    let num_samples: usize = spectrum_re.len();
    let mut samples: Vec<F> = Vec::new();
    for i in 0..num_samples
        invariant
            num_samples == spectrum_re@.len(),
            samples@.len() == i,
            forall|k: int|
                0 <= k < i ==> normalized(spectrum_re@[k], num_samples, #[trigger] samples@[k]),
    {
        let output = spectrum_re[i].over(F::cast_from(num_samples));
        samples.push(output);
    }
    samples
}

/// Whether a window of the signal, and nothing else of it, was set to samples of the bins.
pub open spec fn stores_samples<F: Float, T: Fn(Vec<F>, Vec<F>, FftMode) -> (Vec<F>, Vec<F>)>(
    fft: T,
    bins_re: Seq<F>,
    bins_im: Seq<F>,
    window: int,
    before: Tensor<F>,
    after: Tensor<F>,
) -> bool {
    exists|samples: Seq<F>|
        #[trigger] samples_of(fft, bins_re, bins_im, samples) && samples.len()
            == before.window_len() && crate::layout::written(
            before.data@,
            after.data@,
            BatchSignalLayout::of(before, window),
            samples,
        )
}

/// Applies the inverse transform to one window.
///
/// The bins of the window are loaded and completed by their mirror images, and the normalized real
/// parts of the transformed spectrum are stored. `fft` is the complex transform.
pub fn irfft_kernel_one_batch<F: Float, T: Fn(Vec<F>, Vec<F>, FftMode) -> (Vec<F>, Vec<F>)>(
    spectrums_re: &Tensor<F>,
    spectrums_im: &Tensor<F>,
    signal: &mut Tensor<F>,
    window_index: usize,
    num_samples: usize,
    fft: &T,
)
    requires
        spectrums_re.wf(),
        spectrums_im.wf(),
        crate::layout::writable(*old(signal)),
        window_index < spectrums_re.windows(),
        window_index < spectrums_im.windows(),
        window_index < old(signal).windows(),
        spectrums_im.window_len() == spectrums_re.window_len(),
        spectrums_re.window_len() >= 2,
        num_samples == 2 * (spectrums_re.window_len() - 1),
        num_samples == old(signal).window_len(),
        spectrums_re.line_size == 1,
        spectrums_im.line_size == 1,
        crate::fft::transforms(*fft, num_samples as int),
    ensures
        final(signal).same_layout(*old(signal)),
        stores_samples(
            *fft,
            spectrums_re.window(window_index as int),
            spectrums_im.window(window_index as int),
            window_index as int,
            *old(signal),
            *final(signal),
        ),
{
    let signal_layout = BatchSignalLayout::new(signal, window_index);
    let (re0, im0) = load_spectrum(spectrums_re, spectrums_im, window_index, num_samples);
    let ghost whole = (re0@, im0@);
    let (re, im) = fft(re0, im0, FftMode::Inverse);
    let samples = normalize(&re);
    assert(crate::fft::transformed(*fft, FftMode::Inverse, whole.0, whole.1, re@, im@));
    assert(inverse_of(*fft, whole.0, whole.1, samples@));
    assert(samples_of(
        *fft,
        spectrums_re.window(window_index as int),
        spectrums_im.window(window_index as int),
        samples@,
    ));
    write_window(&mut signal.data, &signal_layout, &samples);
}

/// What the unit at a position does: it stores samples of the window with that index, and nothing
/// where there is no such window.
pub open spec fn irfft_unit<F: Float, T: Fn(Vec<F>, Vec<F>, FftMode) -> (Vec<F>, Vec<F>)>(
    fft: T,
    spectrums_re: Tensor<F>,
    spectrums_im: Tensor<F>,
    absolute_pos: int,
    before: Tensor<F>,
    after: Tensor<F>,
) -> bool {
    &&& after.same_layout(before)
    &&& absolute_pos < before.windows() ==> stores_samples(
        fft,
        spectrums_re.window(absolute_pos),
        spectrums_im.window(absolute_pos),
        absolute_pos,
        before,
        after,
    )
    &&& absolute_pos >= before.windows() ==> after == before
}

/// The kernel of one unit: the unit applies the inverse transform to the window of its position,
/// and a unit past the last window does nothing.
pub fn irfft_kernel<F: Float, T: Fn(Vec<F>, Vec<F>, FftMode) -> (Vec<F>, Vec<F>)>(
    spectrums_re: &Tensor<F>,
    spectrums_im: &Tensor<F>,
    signal: &mut Tensor<F>,
    absolute_pos: usize,
    num_samples: usize,
    fft: &T,
)
    requires
        spectrums_re.wf(),
        spectrums_im.wf(),
        crate::layout::writable(*old(signal)),
        old(signal).windows() <= spectrums_re.windows(),
        old(signal).windows() <= spectrums_im.windows(),
        spectrums_im.window_len() == spectrums_re.window_len(),
        spectrums_re.window_len() >= 2,
        num_samples == 2 * (spectrums_re.window_len() - 1),
        num_samples == old(signal).window_len(),
        spectrums_re.line_size == 1,
        spectrums_im.line_size == 1,
        crate::fft::transforms(*fft, num_samples as int),
    ensures
        irfft_unit(
            *fft,
            *spectrums_re,
            *spectrums_im,
            absolute_pos as int,
            *old(signal),
            *final(signal),
        ),
{
    let num_batch: usize = signal.shape[0] * signal.shape[1];
    if absolute_pos >= num_batch {
        return;
    }
    irfft_kernel_one_batch(spectrums_re, spectrums_im, signal, absolute_pos, num_samples, fft);
}

/// The number of samples that a spectrum of real samples stands for.
pub open spec fn num_samples_of(num_freq_bins: int) -> int {
    (num_freq_bins - 1) * 2
}

/// The shape of the signals of spectra: the last dimension counts samples in place of frequency
/// bins.
pub open spec fn signal_shape(spectrum_shape: Seq<usize>) -> Seq<usize> {
    spectrum_shape.update(
        spectrum_shape.len() - 1,
        num_samples_of(spectrum_shape.last() as int) as usize,
    )
}

/// Whether signals of spectra whose real and imaginary parts have the given shapes can be taken and
/// held.
pub open spec fn signals_can_be_held(
    spectrum_re_shape: Seq<usize>,
    spectrum_im_shape: Seq<usize>,
    dtype: FloatKind,
) -> bool {
    &&& spectrum_re_shape.len() > 0
    &&& spectrum_re_shape == spectrum_im_shape
    &&& spectrum_re_shape.last() > 0
    &&& num_samples_of(spectrum_re_shape.last() as int) <= usize::MAX
    &&& crate::shape::allocatable(signal_shape(spectrum_re_shape), dtype)
}

/// Whether signals of spectra whose real and imaginary parts have the given shapes can be taken and
/// held.
pub fn can_hold_signals(
    spectrum_re_shape: &Vec<usize>,
    spectrum_im_shape: &Vec<usize>,
    dtype: FloatKind,
) -> (ok: bool)
    ensures
        ok == signals_can_be_held(spectrum_re_shape@, spectrum_im_shape@, dtype),
{
    if spectrum_re_shape.len() == 0 || !same_shape(spectrum_re_shape, spectrum_im_shape) {
        return false;
    }
    let num_freq_bins: usize = spectrum_re_shape[spectrum_re_shape.len() - 1];
    if num_freq_bins == 0 {
        return false;
    }
    match (num_freq_bins - 1).checked_mul(2) {
        Some(num_samples) => is_allocatable(&with_last(spectrum_re_shape, num_samples), dtype),
        None => false,
    }
}

/// The tensor that holds the signals of spectra along the last dimension, which are given by the
/// shapes of their real and imaginary parts.
pub fn irfft(
    spectrum_re_shape: &Vec<usize>,
    spectrum_im_shape: &Vec<usize>,
    dtype: FloatKind,
) -> (signal: Allocation)
    requires
        signals_can_be_held(spectrum_re_shape@, spectrum_im_shape@, dtype),
    ensures
        signal.is_for(signal_shape(spectrum_re_shape@), dtype),
{
    let dim: usize = spectrum_re_shape.len() - 1;
    let num_samples: usize = (spectrum_re_shape[dim] - 1) * 2;
    contiguous_allocation(with_last(spectrum_re_shape, num_samples), dtype)
}

/// How the kernel of the inverse transform is launched.
#[derive(Clone, Copy, Debug, PartialEq, Eq, Structural)]
pub struct IrfftLaunch {
    pub cube_dim: CubeDim,
    pub cube_count: CubeCount,
    /// The length of a window.
    pub num_samples: usize,
    /// Whether windows are transformed in the shared memory of a cube.
    pub is_gpu: bool,
    /// The line size of all tensors.
    pub vectorization: usize,
}

/// Chooses the cubes of a launch for signals of the given shape.
pub fn irfft_launch(hw: &HardwareProperties, signal_shape: &Vec<usize>) -> (launch: IrfftLaunch)
    requires
        crate::cube::launchable(*hw, signal_shape@, true),
    ensures
        (launch.cube_dim, launch.cube_count, launch.is_gpu) == crate::cube::selection(
            *hw,
            (signal_shape@[0] * signal_shape@[1]) as usize,
            true,
        ),
        launch.is_gpu ==> launch.cube_dim.units() == 1,
        launch.num_samples == signal_shape@.last(),
        launch.vectorization == 1,
{
    let num_iter: usize = signal_shape[0] * signal_shape[1];
    let (cube_dim, cube_count, is_gpu) = cube_selection(hw, num_iter, true);
    let num_samples: usize = signal_shape[signal_shape.len() - 1];
    proof {
        crate::cube::law_selection_shape(*hw, num_iter, true);
    }
    IrfftLaunch { cube_dim, cube_count, num_samples, is_gpu, vectorization: 1 }
}

/// Whether a spectrum is symmetric, as that of real samples is: it completes its own first bins.
pub open spec fn is_hermitian<F: Float>(re: Seq<F>, im: Seq<F>) -> bool {
    let bins = re.len() / 2 + 1;
    completes(re.take(bins as int), im.take(bins as int), re, im)
}

/// Completing the bins of a spectrum keeps them, puts the conjugate of bin `k` in the `k`-th place
/// from the end, and gives a symmetric spectrum.
pub proof fn law_completion_mirrors_bins<F: Float>(
    bins_re: Seq<F>,
    bins_im: Seq<F>,
    re: Seq<F>,
    im: Seq<F>,
)
    requires
        bins_re.len() >= 2,
        completes(bins_re, bins_im, re, im),
    ensures
        re.take(bins_re.len() as int) == bins_re,
        im.take(bins_re.len() as int) == bins_im,
        forall|k: int|
            1 <= k < bins_re.len() - 1 ==> re[re.len() - k] == #[trigger] bins_re[k]
                && call_ensures(F::negated, (bins_im[k],), im[im.len() - k]),
        is_hermitian(re, im),
{
    assert(re.take(bins_re.len() as int) =~= bins_re);
    assert(im.take(bins_re.len() as int) =~= bins_im);
    assert(re.len() / 2 + 1 == bins_re.len());
}

/// A symmetric spectrum is determined by its first bins: whatever completes them is the spectrum
/// itself.
pub proof fn law_completion_restores_spectrum<F: Float>(
    re: Seq<F>,
    im: Seq<F>,
    completed_re: Seq<F>,
    completed_im: Seq<F>,
)
    requires
        re.len() >= 2,
        crate::scalar::negates_uniquely::<F>(),
        is_hermitian(re, im),
        completes(
            re.take((re.len() / 2 + 1) as int),
            im.take((re.len() / 2 + 1) as int),
            completed_re,
            completed_im,
        ),
    ensures
        completed_re == re,
        completed_im == im,
{
    let bins = (re.len() / 2 + 1) as int;
    lemma_completion_is_unique(re.take(bins), im.take(bins), re, im, completed_re, completed_im);
}

proof fn lemma_completion_is_unique<F: Float>(
    bins_re: Seq<F>,
    bins_im: Seq<F>,
    re: Seq<F>,
    im: Seq<F>,
    other_re: Seq<F>,
    other_im: Seq<F>,
)
    requires
        crate::scalar::negates_uniquely::<F>(),
        completes(bins_re, bins_im, re, im),
        completes(bins_re, bins_im, other_re, other_im),
    ensures
        other_re == re,
        other_im == im,
{
    let n = 2 * (bins_re.len() - 1);
    assert forall|i: int| 0 <= i < n implies other_re[i] == re[i] && other_im[i] == im[i] by {
        if i < bins_re.len() {
            assert(other_re[i] == bins_re[i]);
            assert(re[i] == bins_re[i]);
        } else {
            assert(other_re[i] == bins_re[n - i]);
            assert(re[i] == bins_re[n - i]);
            assert(call_ensures(F::negated, (bins_im[n - i],), other_im[i]));
            assert(call_ensures(F::negated, (bins_im[n - i],), im[i]));
        }
    }
    assert(other_re =~= re);
    assert(other_im =~= im);
}

/// Where the inverse transform, negation, casts and division are unique, frequency bins have but
/// one sequence of samples.
pub proof fn law_bins_have_one_signal<
    F: Float,
    T: Fn(Vec<F>, Vec<F>, FftMode) -> (Vec<F>, Vec<F>),
>(fft: T, bins_re: Seq<F>, bins_im: Seq<F>, samples: Seq<F>, other: Seq<F>)
    requires
        crate::scalar::casts_uniquely::<F>(),
        crate::scalar::negates_uniquely::<F>(),
        crate::scalar::divides_uniquely::<F>(),
        crate::fft::transforms_uniquely(fft, FftMode::Inverse),
        samples_of(fft, bins_re, bins_im, samples),
        samples_of(fft, bins_re, bins_im, other),
    ensures
        other == samples,
{
    let (re, im) = choose|re: Seq<F>, im: Seq<F>|
        completes(bins_re, bins_im, re, im) && #[trigger] inverse_of(fft, re, im, samples);
    let (other_re, other_im) = choose|re: Seq<F>, im: Seq<F>|
        completes(bins_re, bins_im, re, im) && #[trigger] inverse_of(fft, re, im, other);
    lemma_completion_is_unique(bins_re, bins_im, re, im, other_re, other_im);
    let n = samples.len() as usize;
    let (out, _) = choose|out_re: Seq<F>, out_im: Seq<F>|
        {
            &&& #[trigger] crate::fft::transformed(fft, FftMode::Inverse, re, im, out_re, out_im)
            &&& out_re.len() == samples.len() == re.len()
            &&& forall|i: int|
                0 <= i < samples.len() ==> normalized(out_re[i], n, #[trigger] samples[i])
        };
    let (other_out, _) = choose|out_re: Seq<F>, out_im: Seq<F>|
        {
            &&& #[trigger] crate::fft::transformed(fft, FftMode::Inverse, re, im, out_re, out_im)
            &&& out_re.len() == other.len() == re.len()
            &&& forall|i: int|
                0 <= i < other.len() ==> normalized(out_re[i], n, #[trigger] other[i])
        };
    assert(out == other_out);
    assert forall|i: int| 0 <= i < samples.len() implies other[i] == samples[i] by {
        assert(normalized(out[i], n, samples[i]));
        assert(normalized(out[i], n, other[i]));
    }
    assert(other =~= samples);
}

/// A unit leaves one signal behind: where the inverse transform, negation, casts and division are
/// unique, two units at the same position that start from the same signal leave the same elements.
pub proof fn law_irfft_unit_leaves_one_signal<
    F: Float,
    T: Fn(Vec<F>, Vec<F>, FftMode) -> (Vec<F>, Vec<F>),
>(
    fft: T,
    spectrums_re: Tensor<F>,
    spectrums_im: Tensor<F>,
    absolute_pos: int,
    before: Tensor<F>,
    after: Tensor<F>,
    other: Tensor<F>,
)
    requires
        crate::scalar::casts_uniquely::<F>(),
        crate::scalar::negates_uniquely::<F>(),
        crate::scalar::divides_uniquely::<F>(),
        crate::fft::transforms_uniquely(fft, FftMode::Inverse),
        irfft_unit(fft, spectrums_re, spectrums_im, absolute_pos, before, after),
        irfft_unit(fft, spectrums_re, spectrums_im, absolute_pos, before, other),
    ensures
        after.data@ == other.data@,
{
    if absolute_pos < before.windows() {
        let bins_re = spectrums_re.window(absolute_pos);
        let bins_im = spectrums_im.window(absolute_pos);
        let layout = BatchSignalLayout::of(before, absolute_pos);
        let samples = choose|samples: Seq<F>|
            #[trigger] samples_of(fft, bins_re, bins_im, samples) && samples.len()
                == before.window_len() && crate::layout::written(
                before.data@,
                after.data@,
                layout,
                samples,
            );
        let other_samples = choose|samples: Seq<F>|
            #[trigger] samples_of(fft, bins_re, bins_im, samples) && samples.len()
                == before.window_len() && crate::layout::written(
                before.data@,
                other.data@,
                layout,
                samples,
            );
        law_bins_have_one_signal(fft, bins_re, bins_im, samples, other_samples);
        crate::layout::lemma_written_is_determined(
            before.data@,
            after.data@,
            other.data@,
            layout,
            samples,
        );
    }
}

/// The shape of signals is restored: the signals of the spectra of signals have their shape again,
/// unless their windows have a single sample.
pub proof fn law_signal_shape_is_restored(shape: Seq<usize>)
    requires
        shape.len() > 0,
        crate::rfft::is_power_of_two(shape.last()),
        shape.last() != 1,
    ensures
        signal_shape(crate::rfft::spectrum_shape(shape)) == shape,
{
    let k = choose|k: nat| shape.last() == #[trigger] vstd::arithmetic::power2::pow2(k);
    vstd::arithmetic::power2::lemma2_to64();
    if k > 0 {
        vstd::arithmetic::power2::lemma_pow2_unfold(k);
    }
    assert(shape.last() as int % 2 == 0);
    assert(signal_shape(crate::rfft::spectrum_shape(shape)) =~= shape);
}

/// The shape of spectra is restored: the spectra of the signals of spectra have their shape again.
pub proof fn law_spectrum_shape_is_restored(shape: Seq<usize>)
    requires
        shape.len() > 0,
        shape.last() > 0,
        num_samples_of(shape.last() as int) <= usize::MAX,
    ensures
        crate::rfft::spectrum_shape(signal_shape(shape)) == shape,
{
    assert(crate::rfft::spectrum_shape(signal_shape(shape)) =~= shape);
}

/// A contiguous signal of the allocated shape has a window for each window of the spectra, with as
/// many samples as their bins complete to.
pub proof fn law_signal_matches_spectra<F>(spectrum: Tensor<F>, signal: Tensor<F>)
    requires
        spectrum.shape@.len() == 3,
        spectrum.window_len() > 0,
        num_samples_of(spectrum.window_len()) <= usize::MAX,
        signal.shape@ == signal_shape(spectrum.shape@),
        signal.contiguous(),
        signal.line_size == 1,
    ensures
        crate::layout::writable(signal),
        signal.windows() == spectrum.windows(),
        signal.window_len() == 2 * (spectrum.window_len() - 1),
{
    crate::layout::law_contiguous_is_wf(signal);
}

/// A launch transforms every window: in whatever order its units run, in the end the signal holds
/// samples of each window of the spectra.
///
/// `signal` is the signal before the first unit and after each unit.
pub proof fn law_irfft_transforms_every_window<
    F: Float,
    T: Fn(Vec<F>, Vec<F>, FftMode) -> (Vec<F>, Vec<F>),
>(
    hw: HardwareProperties,
    fft: T,
    spectrums_re: Tensor<F>,
    spectrums_im: Tensor<F>,
    order: Seq<int>,
    signal: Seq<Tensor<F>>,
)
    requires
        signal.len() == order.len() + 1,
        signal[0].contiguous(),
        signal[0].windows() <= u32::MAX,
        crate::cube::selectable(hw, signal[0].windows() as usize, true),
        crate::units::runs_all_units(hw, signal[0].windows() as usize, true, order),
        forall|t: int| 0 <= t < order.len() ==> #[trigger] order[t] >= 0,
        forall|t: int|
            0 <= t < order.len() ==> irfft_unit(
                fft,
                spectrums_re,
                spectrums_im,
                #[trigger] order[t],
                signal[t],
                signal[t + 1],
            ),
    ensures
        forall|w: int|
            0 <= w < signal[0].windows() ==> samples_of(
                fft,
                spectrums_re.window(w),
                spectrums_im.window(w),
                #[trigger] signal.last().window(w),
            ),
        signal[0].shape@ == signal_shape(spectrums_re.shape@) ==> crate::round_trip::is_signal_of(
            fft,
            spectrums_re,
            spectrums_im,
            signal.last(),
        ),
{
    let windows = signal[0].windows();
    let content = |t: int, w: int| signal[t].window(w);
    let settled = |w: int, c: Seq<F>|
        samples_of(fft, spectrums_re.window(w), spectrums_im.window(w), c);
    assert forall|t: int| 0 <= t < order.len() implies (#[trigger] signal[t + 1]).same_layout(
        signal[t],
    ) by {
        let p = order[t];
    }
    crate::units::lemma_layout_is_kept(signal, order.len() as int);
    assert forall|t: int, w: int|
        #![trigger content(t + 1, w)]
        0 <= t < order.len() && 0 <= w < windows implies if w == order[t] {
        settled(w, content(t + 1, w))
    } else {
        content(t + 1, w) == content(t, w)
    } by {
        let p = order[t];
        assert(signal[t].contiguous());
        if p < windows {
            let samples = choose|samples: Seq<F>|
                #[trigger] samples_of(
                    fft,
                    spectrums_re.window(p),
                    spectrums_im.window(p),
                    samples,
                ) && samples.len() == signal[t].window_len() && crate::layout::written(
                    signal[t].data@,
                    signal[t + 1].data@,
                    BatchSignalLayout::of(signal[t], p),
                    samples,
                );
            crate::layout::law_window_write_is_local(signal[t], signal[t + 1], p, samples);
            assert(samples.take(signal[t].window_len()) =~= samples);
            assert(signal[t + 1].window(p) == samples);
            assert(signal[t + 1].window(w) == if w == p { samples } else { signal[t].window(w) });
        }
    }
    crate::units::lemma_units_settle_windows(order, windows, content, settled, order.len() as int);
    crate::cube::law_selection_covers_iterations(hw, windows as usize, true);
    assert forall|w: int| 0 <= w < windows implies samples_of(
        fft,
        spectrums_re.window(w),
        spectrums_im.window(w),
        #[trigger] signal.last().window(w),
    ) by {
        assert(order.contains(w));
        assert(order.take(order.len() as int) =~= order);
        assert(settled(w, content(order.len() as int, w)));
    }
}

/// The signals keep all dimensions of the spectra but the last, which counts two samples for each
/// bin but the first, and take the bytes of all their samples.
pub proof fn law_signal_holds_two_samples_per_bin(
    spectrum_re_shape: Vec<usize>,
    spectrum_im_shape: Vec<usize>,
    dtype: FloatKind,
    signal: Allocation,
    count: usize,
)
    requires
        spectrum_re_shape@.len() > 0,
        0 < spectrum_re_shape@.last(),
        2 * (spectrum_re_shape@.last() - 1) <= usize::MAX,
        call_ensures(irfft, (&spectrum_re_shape, &spectrum_im_shape, dtype), signal),
        call_ensures(crate::shape::num_elements, (&signal.shape,), count),
    ensures
        signal.shape@.len() == spectrum_re_shape@.len(),
        signal.shape@.drop_last() == spectrum_re_shape@.drop_last(),
        signal.shape@.last() + 2 == 2 * spectrum_re_shape@.last(),
        signal.num_bytes == count * dtype.bytes(),
{
    assert(signal.shape@.drop_last() =~= spectrum_re_shape@.drop_last());
}

/// The signals of spectra fit into what is allocated for them: the bytes are those of the data of
/// every contiguous tensor of the allocated shape.
pub proof fn law_signal_fits_its_allocation<F>(
    spectrum_re_shape: Vec<usize>,
    spectrum_im_shape: Vec<usize>,
    dtype: FloatKind,
    signal: Allocation,
    tensor: Tensor<F>,
)
    requires
        call_ensures(irfft, (&spectrum_re_shape, &spectrum_im_shape, dtype), signal),
        tensor.contiguous(),
        tensor.shape@ == signal.shape@,
    ensures
        signal.num_bytes == tensor.data@.len() * dtype.bytes(),
{
    crate::layout::law_allocation_holds_data(tensor);
}

/// What is allocated for the signals of the spectra of signals has the shape and the bytes of these
/// signals, unless their windows have a single sample.
pub proof fn law_allocations_are_restored(
    shape: Vec<usize>,
    dtype: FloatKind,
    re: Allocation,
    im: Allocation,
    signal: Allocation,
    original: Allocation,
    is_length: bool,
)
    requires
        shape@.len() > 0,
        shape@.last() != 1,
        call_ensures(crate::rfft::is_power_of_two_length, (shape@.last(),), is_length),
        is_length,
        call_ensures(crate::rfft::rfft, (&shape, dtype), (re, im)),
        call_ensures(irfft, (&re.shape, &im.shape, dtype), signal),
        call_ensures(contiguous_allocation, (shape, dtype), original),
    ensures
        signal.shape@ == shape@,
        signal.num_bytes == original.num_bytes,
{
    law_signal_shape_is_restored(shape@);
}

/// Signals are refused only where real and imaginary parts differ in shape, there is no bin, or the
/// samples cannot be counted or allocated.
pub proof fn law_signals_are_refused_for_cause(
    spectrum_re_shape: Vec<usize>,
    spectrum_im_shape: Vec<usize>,
    signal_shape: Vec<usize>,
    dtype: FloatKind,
    fits: bool,
    ok: bool,
)
    requires
        spectrum_re_shape@.len() > 0,
        signal_shape@.len() == spectrum_re_shape@.len(),
        signal_shape@.drop_last() == spectrum_re_shape@.drop_last(),
        signal_shape@.last() + 2 == 2 * spectrum_re_shape@.last(),
        call_ensures(is_allocatable, (&signal_shape, dtype), fits),
        call_ensures(can_hold_signals, (&spectrum_re_shape, &spectrum_im_shape, dtype), ok),
    ensures
        ok == (fits && spectrum_im_shape@ == spectrum_re_shape@),
        ok ==> call_requires(irfft, (&spectrum_re_shape, &spectrum_im_shape, dtype)),
{
    let expected = self::signal_shape(spectrum_re_shape@);
    assert forall|i: int| 0 <= i < expected.len() implies expected[i] == signal_shape@[i] by {
        if i < expected.len() - 1 {
            assert(signal_shape@.drop_last()[i] == signal_shape@[i]);
            assert(spectrum_re_shape@.drop_last()[i] == spectrum_re_shape@[i]);
        } else {
            assert(signal_shape@[i] == signal_shape@.last());
        }
    }
    assert(expected =~= signal_shape@);
}

/// No signals without a dimension, without bins, or with more samples than can be counted.
pub proof fn law_signals_need_bins(
    spectrum_re_shape: Vec<usize>,
    spectrum_im_shape: Vec<usize>,
    dtype: FloatKind,
    ok: bool,
)
    requires
        spectrum_re_shape@.len() == 0 || spectrum_re_shape@.last() == 0 || 2 * (
        spectrum_re_shape@.last() - 1) > usize::MAX,
        call_ensures(can_hold_signals, (&spectrum_re_shape, &spectrum_im_shape, dtype), ok),
    ensures
        !ok,
{
}

/// A launch has a unit for each window of the signal, and is told the length of a window and
/// whether cubes hold single units. All tensors are read and written one element at a time.
pub proof fn law_irfft_launch_counts_windows(
    hw: HardwareProperties,
    signal_shape: Vec<usize>,
    windows: usize,
    launch: IrfftLaunch,
    selected: (CubeDim, CubeCount, bool),
)
    requires
        windows == signal_shape@[0] * signal_shape@[1],
        call_ensures(irfft_launch, (&hw, &signal_shape), launch),
        call_ensures(cube_selection, (&hw, windows, true), selected),
    ensures
        launch.cube_dim == selected.0,
        launch.cube_count == selected.1,
        launch.is_gpu == selected.2,
        launch.num_samples == signal_shape@.last(),
        launch.vectorization == 1,
{
}

/// The kernel changes nothing but the elements of its window, and nothing at all where there is no
/// such window.
pub proof fn law_irfft_keeps_other_elements<
    F: Float,
    T: Fn(Vec<F>, Vec<F>, FftMode) -> (Vec<F>, Vec<F>),
>(
    fft: T,
    spectrums_re: Tensor<F>,
    spectrums_im: Tensor<F>,
    w: usize,
    num_samples: usize,
    before: Tensor<F>,
    after: Tensor<F>,
    p: int,
)
    requires
        w < before.shape@[0] * before.shape@[1] ==> 0 <= before.offset(w as int) <= usize::MAX,
        exists|signal: &mut Tensor<F>|
            {
                &&& *signal == before
                &&& *final(signal) == after
                &&& #[trigger] call_ensures(
                    crate::irfft::irfft_kernel::<F, T>,
                    (&spectrums_re, &spectrums_im, signal, w, num_samples, &fft),
                    (),
                )
            },
    ensures
        after.shape@ == before.shape@ && after.strides@ == before.strides@,
        after.line_size == before.line_size,
        after.data@.len() == before.data@.len(),
        w >= before.shape@[0] * before.shape@[1] ==> after == before,
        0 <= p < before.data@.len() && (forall|k: int|
            0 <= k < before.shape@[2] ==> p != #[trigger] before.position(w as int, k))
            ==> after.data@[p] == before.data@[p],
{
    if w < before.windows() {
        crate::layout::lemma_covers_positions(before, w as int, p);
    }
}

} // verus!
