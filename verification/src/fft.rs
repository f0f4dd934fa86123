//! The complex Fourier transform that both real-valued transforms run on a window.

use vstd::prelude::*;

use crate::scalar::Float;

verus! {

/// The direction of a transform.
#[derive(Clone, Copy, Debug, PartialEq, Eq, Hash, Structural)]
pub enum FftMode {
    /// From samples to frequency bins.
    Forward,
    /// From frequency bins to samples, without normalization.
    Inverse,
}

/// Whether `fft` takes every window of `num_samples` complex numbers, given by their real and
/// imaginary parts, to one of the same length.
pub open spec fn transforms<F: Float, T: Fn(Vec<F>, Vec<F>, FftMode) -> (Vec<F>, Vec<F>)>(
    fft: T,
    num_samples: int,
) -> bool {
    &&& forall|re: Vec<F>, im: Vec<F>, mode: FftMode|
        re@.len() == num_samples && im@.len() == num_samples ==> #[trigger] call_requires(
            fft,
            (re, im, mode),
        )
    &&& forall|re: Vec<F>, im: Vec<F>, mode: FftMode, out: (Vec<F>, Vec<F>)|
        re@.len() == num_samples && im@.len() == num_samples && #[trigger] call_ensures(
            fft,
            (re, im, mode),
            out,
        ) ==> out.0@.len() == num_samples && out.1@.len() == num_samples
}

/// Whether `fft` may take one window of complex numbers to another.
pub open spec fn transformed<F: Float, T: Fn(Vec<F>, Vec<F>, FftMode) -> (Vec<F>, Vec<F>)>(
    fft: T,
    mode: FftMode,
    re: Seq<F>,
    im: Seq<F>,
    out_re: Seq<F>,
    out_im: Seq<F>,
) -> bool {
    exists|re0: Vec<F>, im0: Vec<F>, out: (Vec<F>, Vec<F>)|
        re0@ == re && im0@ == im && out.0@ == out_re && out.1@ == out_im && #[trigger] call_ensures(
            fft,
            (re0, im0, mode),
            out,
        )
}

/// Whether `fft`, in the given direction, has but one outcome on every window of complex numbers.
pub open spec fn transforms_uniquely<
    F: Float,
    T: Fn(Vec<F>, Vec<F>, FftMode) -> (Vec<F>, Vec<F>),
>(fft: T, mode: FftMode) -> bool {
    forall|
        re: Seq<F>,
        im: Seq<F>,
        out_re: Seq<F>,
        out_im: Seq<F>,
        other_re: Seq<F>,
        other_im: Seq<F>,
    |
        #[trigger] transformed(fft, mode, re, im, out_re, out_im) && #[trigger] transformed(
            fft,
            mode,
            re,
            im,
            other_re,
            other_im,
        ) ==> out_re == other_re && out_im == other_im
}

} // verus!
