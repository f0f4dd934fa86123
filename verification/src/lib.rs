//! Batched real-valued Fourier transforms and spectral effects on a compute device.
//!
//! A tensor holds signals, or spectra, along its last dimension: its windows. One unit of the
//! device works on one window.
//!
//! For each operation there is a function that says which tensors its results take (`rfft`,
//! `irfft`, `phase_shift`), one that chooses how its kernel is launched (`rfft_launch`,
//! `irfft_launch`, `phase_shift_launch`), and the kernel of one unit. `units` has what holds of all
//! units of a launch together, and `exact` what the operations compute in real numbers.

pub mod cube;
pub mod exact;
pub mod fft;
pub mod irfft;
pub mod layout;
pub mod phase_shift;
pub mod rfft;
pub mod round_trip;
pub mod scalar;
pub mod shape;
pub mod units;
