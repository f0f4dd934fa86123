# cubefx_engine

Batched real-valued Fourier transforms (`rfft`, `irfft`) and a per-bin phase shift of spectra for
compute devices that are driven through `cubecl`.

`src/` is verified with Verus. What it takes from `cubecl` it takes through five small wrappers, whose
contracts are trusted: `cube_dim_single`, `cube_dim_2d`, `cube_dim_num_elems` and `cube_count_1d` in
`src/cube.rs`, and `storage_size` in `src/shape.rs`.

- `src/cube.rs`: how many units a kernel is launched with, and their grouping into cubes.
- `src/shape.rs`: shapes of tensors and the bytes they take.
- `src/layout.rs`: batched tensors and the windows that a kernel sees of them.
- `src/scalar.rs`: the arithmetic of elements, of which nothing is assumed.
- `src/fft.rs`: the complex transform that runs on a window, given by the caller.
- `src/rfft.rs`, `src/irfft.rs`, `src/phase_shift.rs`: for each operation the tensors of its
  results, its launch, its kernel, and what a whole launch achieves.
- `src/round_trip.rs`: what the transform and its inverse undo of each other.
- `src/units.rs`: runs of all units of a launch, in any order.
- `app/`: the calls to the device, and the device code. It is not verified: the attribute macros of
  `cubecl` expand its kernels, which restate those of `src/`.
