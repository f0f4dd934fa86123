//! What the transform and its inverse undo of each other, as far as the complex transform and the
//! arithmetic of elements are exact.

use vstd::prelude::*;

use crate::fft::FftMode;
use crate::layout::Tensor;
use crate::scalar::Float;

verus! {

/// Whether the complex transform is exact on real windows of the given length: their spectra are
/// symmetric, and the inverse transform takes these back to the samples.
pub open spec fn exact_on_samples<F: Float, T: Fn(Vec<F>, Vec<F>, FftMode) -> (Vec<F>, Vec<F>)>(
    fft: T,
    num_samples: int,
) -> bool {
    forall|samples: Seq<F>, re: Seq<F>, im: Seq<F>|
        samples.len() == num_samples && re.len() == num_samples && im.len() == num_samples
            && #[trigger] crate::rfft::spectrum_of(fft, samples, re, im) ==> {
            &&& crate::irfft::is_hermitian(re, im)
            &&& forall|back: Seq<F>|
                #[trigger] crate::irfft::inverse_of(fft, re, im, back) ==> back == samples
        }
}

/// Whether a spectrum is one that real samples can have: it is symmetric, and its first bin and the
/// middle one have no imaginary part.
pub open spec fn is_real_spectrum<F: Float>(re: Seq<F>, im: Seq<F>) -> bool {
    &&& crate::irfft::is_hermitian(re, im)
    &&& call_ensures(F::cast_from, (0usize,), im[0])
    &&& call_ensures(F::cast_from, (0usize,), im[re.len() as int / 2])
}

/// Whether the complex transform is exact on spectra of real windows of the given length: the
/// samples that come from them by the inverse transform have no other spectrum.
pub open spec fn exact_on_spectra<F: Float, T: Fn(Vec<F>, Vec<F>, FftMode) -> (Vec<F>, Vec<F>)>(
    fft: T,
    num_samples: int,
) -> bool {
    forall|re: Seq<F>, im: Seq<F>, samples: Seq<F>, back_re: Seq<F>, back_im: Seq<F>|
        #![trigger
            crate::irfft::inverse_of(fft, re, im, samples),
            crate::rfft::spectrum_of(fft, samples, back_re, back_im)
        ]
        re.len() == num_samples && im.len() == num_samples && is_real_spectrum(re, im)
            && crate::irfft::inverse_of(fft, re, im, samples) && crate::rfft::spectrum_of(
            fft,
            samples,
            back_re,
            back_im,
        ) && back_re.len() == num_samples && back_im.len() == num_samples ==> back_re == re
            && back_im == im
}

/// The inverse transform undoes the transform on a window: from the first bins of a spectrum of
/// samples come the samples again.
pub proof fn law_irfft_undoes_rfft<F: Float, T: Fn(Vec<F>, Vec<F>, FftMode) -> (Vec<F>, Vec<F>)>(
    fft: T,
    samples: Seq<F>,
    bins_re: Seq<F>,
    bins_im: Seq<F>,
    back: Seq<F>,
)
    requires
        2 <= samples.len(),
        crate::scalar::negates_uniquely::<F>(),
        exact_on_samples(fft, samples.len() as int),
        bins_re.len() == crate::rfft::num_freq_bins(samples.len() as int),
        bins_im.len() == bins_re.len(),
        crate::rfft::first_bins_of(fft, samples, bins_re, bins_im),
        crate::irfft::samples_of(fft, bins_re, bins_im, back),
    ensures
        back == samples,
{
    let (re, im) = choose|re: Seq<F>, im: Seq<F>|
        #[trigger] crate::rfft::spectrum_of(fft, samples, re, im) && re.len() == samples.len()
            && im.len() == samples.len() && bins_re == re.take(bins_re.len() as int) && bins_im
            == im.take(bins_im.len() as int);
    let (whole_re, whole_im) = choose|whole_re: Seq<F>, whole_im: Seq<F>|
        crate::irfft::completes(bins_re, bins_im, whole_re, whole_im)
            && #[trigger] crate::irfft::inverse_of(fft, whole_re, whole_im, back);
    crate::irfft::law_completion_restores_spectrum(re, im, whole_re, whole_im);
}

/// The transform undoes its inverse on a window: the samples of bins have these as the first bins
/// of their spectrum again, where the first and the last bin have no imaginary part.
pub proof fn law_rfft_undoes_irfft<F: Float, T: Fn(Vec<F>, Vec<F>, FftMode) -> (Vec<F>, Vec<F>)>(
    fft: T,
    bins_re: Seq<F>,
    bins_im: Seq<F>,
    samples: Seq<F>,
    back_re: Seq<F>,
    back_im: Seq<F>,
)
    requires
        2 <= bins_re.len(),
        call_ensures(F::cast_from, (0usize,), bins_im[0]),
        call_ensures(F::cast_from, (0usize,), bins_im[bins_re.len() - 1]),
        exact_on_spectra(fft, crate::irfft::num_samples_of(bins_re.len() as int)),
        crate::irfft::samples_of(fft, bins_re, bins_im, samples),
        crate::rfft::first_bins_of(fft, samples, back_re, back_im),
        back_re.len() == bins_re.len(),
        back_im.len() == bins_re.len(),
    ensures
        back_re == bins_re,
        back_im == bins_im,
{
    let (whole_re, whole_im) = choose|whole_re: Seq<F>, whole_im: Seq<F>|
        crate::irfft::completes(bins_re, bins_im, whole_re, whole_im)
            && #[trigger] crate::irfft::inverse_of(fft, whole_re, whole_im, samples);
    crate::irfft::law_completion_mirrors_bins(bins_re, bins_im, whole_re, whole_im);
    assert(whole_im[0] == bins_im[0]);
    assert(whole_im[bins_re.len() - 1] == bins_im[bins_re.len() - 1]);
    assert(is_real_spectrum(whole_re, whole_im));
    let (re, im) = choose|re: Seq<F>, im: Seq<F>|
        #[trigger] crate::rfft::spectrum_of(fft, samples, re, im) && re.len() == samples.len()
            && im.len() == samples.len() && back_re == re.take(back_re.len() as int) && back_im
            == im.take(back_im.len() as int);
    assert(re == whole_re && im == whole_im);
}

/// Whether spectrum tensors are what a launch of the transform makes of a signal.
pub open spec fn are_spectra_of<F: Float, T: Fn(Vec<F>, Vec<F>, FftMode) -> (Vec<F>, Vec<F>)>(
    fft: T,
    signal: Tensor<F>,
    re: Tensor<F>,
    im: Tensor<F>,
) -> bool {
    &&& re.shape@ == crate::rfft::spectrum_shape(signal.shape@)
    &&& im.shape@ == crate::rfft::spectrum_shape(signal.shape@)
    &&& forall|w: int|
        0 <= w < signal.windows() ==> crate::rfft::first_bins_of(
            fft,
            #[trigger] signal.window(w),
            re.window(w),
            im.window(w),
        )
}

/// Whether a signal is what a launch of the inverse transform makes of spectrum tensors.
pub open spec fn is_signal_of<F: Float, T: Fn(Vec<F>, Vec<F>, FftMode) -> (Vec<F>, Vec<F>)>(
    fft: T,
    re: Tensor<F>,
    im: Tensor<F>,
    signal: Tensor<F>,
) -> bool {
    &&& signal.shape@ == crate::irfft::signal_shape(re.shape@)
    &&& forall|w: int|
        0 <= w < signal.windows() ==> crate::irfft::samples_of(
            fft,
            re.window(w),
            im.window(w),
            #[trigger] signal.window(w),
        )
}

/// The inverse transform undoes the transform: the signal that a launch makes of the spectra of a
/// signal has the shape of that signal and its samples in every window, unless a window has a
/// single sample.
pub proof fn law_irfft_restores_signal<
    F: Float,
    T: Fn(Vec<F>, Vec<F>, FftMode) -> (Vec<F>, Vec<F>),
>(fft: T, signal: Tensor<F>, re: Tensor<F>, im: Tensor<F>, back: Tensor<F>)
    requires
        signal.shape@.len() == 3,
        crate::rfft::is_power_of_two(signal.shape@[2]),
        signal.shape@[2] != 1,
        crate::scalar::negates_uniquely::<F>(),
        exact_on_samples(fft, signal.window_len()),
        are_spectra_of(fft, signal, re, im),
        is_signal_of(fft, re, im, back),
    ensures
        back.shape@ == signal.shape@,
        forall|w: int|
            0 <= w < signal.windows() ==> #[trigger] back.window(w) == signal.window(w),
{
    crate::irfft::law_signal_shape_is_restored(signal.shape@);
    let k = choose|k: nat| signal.shape@[2] == #[trigger] vstd::arithmetic::power2::pow2(k);
    vstd::arithmetic::power2::lemma_pow2_pos(k);
    assert forall|w: int| 0 <= w < signal.windows() implies #[trigger] back.window(w)
        == signal.window(w) by {
        let samples = signal.window(w);
        law_irfft_undoes_rfft(fft, samples, re.window(w), im.window(w), back.window(w));
    }
}

/// The transform undoes its inverse: the spectra that a launch makes of the signal of spectra have
/// their shape and their bins in every window, where the first and the last bin of each window have
/// no imaginary part.
pub proof fn law_rfft_restores_spectra<
    F: Float,
    T: Fn(Vec<F>, Vec<F>, FftMode) -> (Vec<F>, Vec<F>),
>(
    fft: T,
    re: Tensor<F>,
    im: Tensor<F>,
    signal: Tensor<F>,
    back_re: Tensor<F>,
    back_im: Tensor<F>,
)
    requires
        re.shape@.len() == 3,
        im.shape@ == re.shape@,
        re.shape@[2] >= 2,
        crate::irfft::num_samples_of(re.window_len()) <= usize::MAX,
        forall|w: int|
            0 <= w < re.windows() ==> call_ensures(
                F::cast_from,
                (0usize,),
                (#[trigger] im.window(w))[0],
            ) && call_ensures(F::cast_from, (0usize,), im.window(w)[re.window_len() - 1]),
        exact_on_spectra(fft, crate::irfft::num_samples_of(re.window_len())),
        is_signal_of(fft, re, im, signal),
        are_spectra_of(fft, signal, back_re, back_im),
    ensures
        back_re.shape@ == re.shape@,
        back_im.shape@ == re.shape@,
        forall|w: int|
            0 <= w < re.windows() ==> #[trigger] back_re.window(w) == re.window(w)
                && back_im.window(w) == im.window(w),
{
    crate::irfft::law_spectrum_shape_is_restored(re.shape@);
    assert forall|w: int| 0 <= w < re.windows() implies #[trigger] back_re.window(w) == re.window(w)
        && back_im.window(w) == im.window(w) by {
        let samples = signal.window(w);
        assert(call_ensures(F::cast_from, (0usize,), im.window(w)[0]));
        law_rfft_undoes_irfft(
            fft,
            re.window(w),
            im.window(w),
            samples,
            back_re.window(w),
            back_im.window(w),
        );
    }
}

} // verus!
