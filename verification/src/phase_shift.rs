//! An effect on spectra: every frequency bin is turned by an angle in proportion to its index.

use vstd::prelude::*;

use crate::cube::{cube_selection, CubeCount, CubeDim, HardwareProperties};
use crate::layout::{read, write_window, BatchSignalLayout, Tensor};
use crate::scalar::Float;
use crate::shape::{contiguous_allocation, Allocation, FloatKind};

verus! {

/// Whether `theta` is `alpha` times the index of a bin.
pub open spec fn is_angle<F: Float>(alpha: F, bin: usize, theta: F) -> bool {
    exists|index: F|
        call_ensures(F::cast_from, (bin,), index) && #[trigger] call_ensures(
            F::times,
            (alpha, index),
            theta,
        )
}

/// Whether `out` is `a * b - c * d`.
pub open spec fn is_difference_of_products<F: Float>(a: F, b: F, c: F, d: F, out: F) -> bool {
    exists|ab: F, cd: F|
        call_ensures(F::times, (a, b), ab) && call_ensures(F::times, (c, d), cd)
            && #[trigger] call_ensures(F::minus, (ab, cd), out)
}

/// Whether `out` is `a * b + c * d`.
pub open spec fn is_sum_of_products<F: Float>(a: F, b: F, c: F, d: F, out: F) -> bool {
    exists|ab: F, cd: F|
        call_ensures(F::times, (a, b), ab) && call_ensures(F::times, (c, d), cd)
            && #[trigger] call_ensures(F::plus, (ab, cd), out)
}

/// Whether a complex number, turned by `theta` about zero, is the other one: its real part is
/// `re * cos - im * sin`, its imaginary part `re * sin + im * cos`.
pub open spec fn is_turned<F: Float>(re: F, im: F, theta: F, out_re: F, out_im: F) -> bool {
    exists|cos: F, sin: F|
        #![trigger is_difference_of_products(re, cos, im, sin, out_re)]
        {
            &&& call_ensures(F::cos, (theta,), cos)
            &&& call_ensures(F::sin, (theta,), sin)
            &&& is_difference_of_products(re, cos, im, sin, out_re)
            &&& is_sum_of_products(re, sin, im, cos, out_im)
        }
}

/// Whether a bin, turned by `alpha` times its index, is the given complex number.
pub open spec fn is_shifted<F: Float>(
    re: F,
    im: F,
    alpha: F,
    bin: usize,
    out_re: F,
    out_im: F,
) -> bool {
    exists|theta: F|
        is_angle(alpha, bin, theta) && #[trigger] is_turned(re, im, theta, out_re, out_im)
}

/// Whether every bin of a spectrum is shifted to the bin of the other one with the same index.
pub open spec fn shifted_spectrum<F: Float>(
    re: Seq<F>,
    im: Seq<F>,
    alpha: F,
    out_re: Seq<F>,
    out_im: Seq<F>,
) -> bool {
    &&& out_re.len() == re.len()
    &&& out_im.len() == re.len()
    &&& forall|k: int|
        0 <= k < re.len() ==> is_shifted(
            re[k],
            im[k],
            alpha,
            k as usize,
            #[trigger] out_re[k],
            out_im[k],
        )
}

/// Turns a bin by `alpha` times its index.
pub fn shift_bin<F: Float>(re: F, im: F, alpha: F, bin: usize) -> (shifted: (F, F))
    ensures
        is_shifted(re, im, alpha, bin, shifted.0, shifted.1),
{
    let theta = alpha.times(F::cast_from(bin));
    let cos = theta.cos();
    let sin = theta.sin();
    let out_re = re.times(cos).minus(im.times(sin));
    let out_im = re.times(sin).plus(im.times(cos));
    assert(is_angle(alpha, bin, theta));
    assert(is_difference_of_products(re, cos, im, sin, out_re));
    assert(is_sum_of_products(re, sin, im, cos, out_im));
    assert(is_turned(re, im, theta, out_re, out_im));
    (out_re, out_im)
}

/// Whether a window of both outputs, and nothing else of them, was set to the shifted spectrum.
pub open spec fn stores_shifted<F: Float>(
    input_re: Tensor<F>,
    input_im: Tensor<F>,
    alpha: F,
    window: int,
    re_before: Tensor<F>,
    im_before: Tensor<F>,
    re_after: Tensor<F>,
    im_after: Tensor<F>,
) -> bool {
    exists|re: Seq<F>, im: Seq<F>|
        #[trigger] shifted_spectrum(
            input_re.window(window),
            input_im.window(window),
            alpha,
            re,
            im,
        ) && crate::layout::written(
            re_before.data@,
            re_after.data@,
            BatchSignalLayout::of(re_before, window),
            re,
        ) && crate::layout::written(
            im_before.data@,
            im_after.data@,
            BatchSignalLayout::of(im_before, window),
            im,
        )
}

/// What a kernel needs of the tensors to shift a window: single elements, and one shape.
pub open spec fn shiftable<F>(
    input_re: Tensor<F>,
    input_im: Tensor<F>,
    output_re: Tensor<F>,
    output_im: Tensor<F>,
) -> bool {
    &&& input_re.wf()
    &&& input_im.wf()
    &&& input_re.line_size == 1
    &&& input_im.line_size == 1
    &&& crate::layout::writable(output_re)
    &&& crate::layout::writable(output_im)
    &&& input_im.shape@ == input_re.shape@
    &&& output_re.shape@ == input_re.shape@
    &&& output_im.shape@ == input_re.shape@
}

/// Applies the effect to one window, bin by bin.
pub fn phase_shift_kernel_one_window<F: Float>(
    input_re: &Tensor<F>,
    input_im: &Tensor<F>,
    output_re: &mut Tensor<F>,
    output_im: &mut Tensor<F>,
    window_index: usize,
    alpha: F,
)
    requires
        shiftable(*input_re, *input_im, *old(output_re), *old(output_im)),
        window_index < input_re.windows(),
    ensures
        final(output_re).same_layout(*old(output_re)),
        final(output_im).same_layout(*old(output_im)),
        stores_shifted(
            *input_re,
            *input_im,
            alpha,
            window_index as int,
            *old(output_re),
            *old(output_im),
            *final(output_re),
            *final(output_im),
        ),
{
    let num_freq_bins: usize = input_re.shape[2];
    let re_layout = BatchSignalLayout::new(input_re, window_index);
    let im_layout = BatchSignalLayout::new(input_im, window_index);
    let output_re_layout = BatchSignalLayout::new(output_re, window_index);
    let output_im_layout = BatchSignalLayout::new(output_im, window_index);
    let ghost bins_re = input_re.window(window_index as int);
    let ghost bins_im = input_im.window(window_index as int);

    let mut re: Vec<F> = Vec::new();
    let mut im: Vec<F> = Vec::new();
    for k in 0..num_freq_bins
        invariant
            num_freq_bins == re_layout.len == im_layout.len,
            bins_re == input_re.window(window_index as int),
            bins_im == input_im.window(window_index as int),
            bins_re.len() == num_freq_bins == bins_im.len(),
            re_layout.fits(input_re.data@.len() as int),
            im_layout.fits(input_im.data@.len() as int),
            forall|i: int|
                re_layout.spec_position(i) == #[trigger] input_re.position(window_index as int, i),
            forall|i: int|
                im_layout.spec_position(i) == #[trigger] input_im.position(window_index as int, i),
            re@.len() == k == im@.len(),
            forall|i: int|
                0 <= i < k ==> is_shifted(
                    bins_re[i],
                    bins_im[i],
                    alpha,
                    i as usize,
                    #[trigger] re@[i],
                    im@[i],
                ),
    {
        let ghost w = window_index as int;
        assert(re_layout.spec_position(k as int) == input_re.position(w, k as int));
        assert(im_layout.spec_position(k as int) == input_im.position(w, k as int));
        let bin_re = read(&input_re.data, &re_layout, k);
        let bin_im = read(&input_im.data, &im_layout, k);
        let (out_re, out_im) = shift_bin(bin_re, bin_im, alpha, k);
        re.push(out_re);
        im.push(out_im);
    }
    assert(shifted_spectrum(bins_re, bins_im, alpha, re@, im@));
    write_window(&mut output_re.data, &output_re_layout, &re);
    write_window(&mut output_im.data, &output_im_layout, &im);
}

/// What the unit at a position does: it stores the shifted spectrum of the window with that index,
/// and nothing where there is no such window.
pub open spec fn phase_shift_unit<F: Float>(
    input_re: Tensor<F>,
    input_im: Tensor<F>,
    alpha: F,
    absolute_pos: int,
    re_before: Tensor<F>,
    im_before: Tensor<F>,
    re_after: Tensor<F>,
    im_after: Tensor<F>,
) -> bool {
    &&& re_after.same_layout(re_before)
    &&& im_after.same_layout(im_before)
    &&& absolute_pos < input_re.windows() ==> stores_shifted(
        input_re,
        input_im,
        alpha,
        absolute_pos,
        re_before,
        im_before,
        re_after,
        im_after,
    )
    &&& absolute_pos >= input_re.windows() ==> re_after == re_before && im_after == im_before
}

/// The kernel of one unit: the unit applies the effect to the window of its position, and a unit
/// past the last window returns before it writes anything. No write is lost by that: every element
/// of its window is out of bounds of contiguous outputs, and a checked launch drops such writes.
pub fn phase_shift_kernel<F: Float>(
    input_re: &Tensor<F>,
    input_im: &Tensor<F>,
    output_re: &mut Tensor<F>,
    output_im: &mut Tensor<F>,
    absolute_pos: usize,
    alpha: F,
)
    requires
        shiftable(*input_re, *input_im, *old(output_re), *old(output_im)),
        absolute_pos < input_re.windows() || (old(output_re).contiguous() && old(
            output_im,
        ).contiguous()),
    ensures
        phase_shift_unit(
            *input_re,
            *input_im,
            alpha,
            absolute_pos as int,
            *old(output_re),
            *old(output_im),
            *final(output_re),
            *final(output_im),
        ),
{
    let num_windows: usize = input_re.shape[0] * input_re.shape[1];
    if absolute_pos >= num_windows {
        return;
    }
    phase_shift_kernel_one_window(input_re, input_im, output_re, output_im, absolute_pos, alpha);
}

/// The tensors that hold shifted spectra, real parts first: they have the shape of the real parts
/// of the input.
pub fn phase_shift(
    input_re_shape: &Vec<usize>,
    dtype: FloatKind,
) -> (output: (Allocation, Allocation))
    requires
        crate::shape::allocatable(input_re_shape@, dtype),
    ensures
        output.0.is_for(input_re_shape@, dtype),
        output.1.is_for(input_re_shape@, dtype),
{
    let output_re = contiguous_allocation(input_re_shape.clone(), dtype);
    let output_im = contiguous_allocation(input_re_shape.clone(), dtype);
    (output_re, output_im)
}

/// How the kernel of the effect is launched.
#[derive(Clone, Copy, Debug, PartialEq, Eq, Structural)]
pub struct PhaseShiftLaunch {
    pub cube_dim: CubeDim,
    pub cube_count: CubeCount,
    /// The line size of all tensors.
    pub vectorization: usize,
}

/// Chooses the cubes of a launch for spectra of the given shape.
pub fn phase_shift_launch(
    hw: &HardwareProperties,
    input_re_shape: &Vec<usize>,
) -> (launch: PhaseShiftLaunch)
    requires
        crate::cube::launchable(*hw, input_re_shape@, false),
    ensures
        (launch.cube_dim, launch.cube_count, false) == crate::cube::selection(
            *hw,
            (input_re_shape@[0] * input_re_shape@[1]) as usize,
            false,
        ),
        launch.vectorization == 1,
{
    let num_iter: usize = input_re_shape[0] * input_re_shape[1];
    let (cube_dim, cube_count, _) = cube_selection(hw, num_iter, false);
    PhaseShiftLaunch { cube_dim, cube_count, vectorization: 1 }
}

/// A launch shifts every window: in whatever order its units run, in the end each window of the
/// outputs holds the shifted spectrum of that window of the inputs.
///
/// `re` and `im` are the outputs before the first unit and after each unit.
pub proof fn law_phase_shift_shifts_every_window<F: Float>(
    hw: HardwareProperties,
    input_re: Tensor<F>,
    input_im: Tensor<F>,
    alpha: F,
    order: Seq<int>,
    re: Seq<Tensor<F>>,
    im: Seq<Tensor<F>>,
)
    requires
        input_re.windows() <= u32::MAX,
        crate::cube::selectable(hw, input_re.windows() as usize, false),
        crate::units::runs_all_units(hw, input_re.windows() as usize, false, order),
        forall|t: int| 0 <= t < order.len() ==> #[trigger] order[t] >= 0,
        re.len() == order.len() + 1,
        im.len() == order.len() + 1,
        re[0].contiguous(),
        im[0].contiguous(),
        input_im.shape@ == input_re.shape@,
        re[0].shape@ == input_re.shape@,
        im[0].shape@ == input_re.shape@,
        forall|t: int|
            0 <= t < order.len() ==> phase_shift_unit(
                input_re,
                input_im,
                alpha,
                #[trigger] order[t],
                re[t],
                im[t],
                re[t + 1],
                im[t + 1],
            ),
    ensures
        forall|w: int|
            0 <= w < input_re.windows() ==> shifted_spectrum(
                input_re.window(w),
                input_im.window(w),
                alpha,
                #[trigger] re.last().window(w),
                im.last().window(w),
            ),
{
    let windows = input_re.windows();
    let content = |t: int, w: int| (re[t].window(w), im[t].window(w));
    let settled = |w: int, c: (Seq<F>, Seq<F>)|
        shifted_spectrum(input_re.window(w), input_im.window(w), alpha, c.0, c.1);
    assert forall|t: int| 0 <= t < order.len() implies (#[trigger] re[t + 1]).same_layout(re[t]) by {
        let p = order[t];
    }
    assert forall|t: int| 0 <= t < order.len() implies (#[trigger] im[t + 1]).same_layout(im[t]) by {
        let p = order[t];
    }
    crate::units::lemma_layout_is_kept(re, order.len() as int);
    crate::units::lemma_layout_is_kept(im, order.len() as int);
    assert forall|t: int, w: int|
        #![trigger content(t + 1, w)]
        0 <= t < order.len() && 0 <= w < windows implies if w == order[t] {
        settled(w, content(t + 1, w))
    } else {
        content(t + 1, w) == content(t, w)
    } by {
        let p = order[t];
        assert(re[t].contiguous() && im[t].contiguous());
        if p < windows {
            let (sre, sim) = choose|sre: Seq<F>, sim: Seq<F>|
                #[trigger] shifted_spectrum(
                    input_re.window(p),
                    input_im.window(p),
                    alpha,
                    sre,
                    sim,
                ) && crate::layout::written(
                    re[t].data@,
                    re[t + 1].data@,
                    BatchSignalLayout::of(re[t], p),
                    sre,
                ) && crate::layout::written(
                    im[t].data@,
                    im[t + 1].data@,
                    BatchSignalLayout::of(im[t], p),
                    sim,
                );
            crate::layout::law_window_write_is_local(re[t], re[t + 1], p, sre);
            crate::layout::law_window_write_is_local(im[t], im[t + 1], p, sim);
            assert(sre.take(re[t].window_len()) =~= sre);
            assert(sim.take(im[t].window_len()) =~= sim);
            assert(re[t + 1].window(w) == if w == p { sre } else { re[t].window(w) });
            assert(im[t + 1].window(w) == if w == p { sim } else { im[t].window(w) });
        }
    }
    crate::units::lemma_units_settle_windows(order, windows, content, settled, order.len() as int);
    crate::cube::law_selection_covers_iterations(hw, windows as usize, false);
    assert forall|w: int| 0 <= w < windows implies shifted_spectrum(
        input_re.window(w),
        input_im.window(w),
        alpha,
        #[trigger] re.last().window(w),
        im.last().window(w),
    ) by {
        assert(order.contains(w));
        assert(order.take(order.len() as int) =~= order);
        assert(settled(w, content(order.len() as int, w)));
    }
}

/// Both outputs have the shape of the input, and take the bytes of an allocation of that shape.
pub proof fn law_shifting_keeps_the_shape(
    input_re_shape: Vec<usize>,
    dtype: FloatKind,
    output_re: Allocation,
    output_im: Allocation,
    allocation: Allocation,
)
    requires
        call_ensures(phase_shift, (&input_re_shape, dtype), (output_re, output_im)),
        call_ensures(contiguous_allocation, (input_re_shape, dtype), allocation),
    ensures
        output_re.shape@ == input_re_shape@,
        output_im.shape@ == input_re_shape@,
        output_re.num_bytes == allocation.num_bytes,
        output_im.num_bytes == allocation.num_bytes,
{
}

/// Shifted spectra fit into what is allocated for them: the bytes are those of the data of every
/// contiguous tensor of the input's shape.
pub proof fn law_shifted_spectra_fit_their_allocation<F>(
    input_re_shape: Vec<usize>,
    dtype: FloatKind,
    output_re: Allocation,
    output_im: Allocation,
    tensor: Tensor<F>,
)
    requires
        call_ensures(phase_shift, (&input_re_shape, dtype), (output_re, output_im)),
        tensor.contiguous(),
        tensor.shape@ == input_re_shape@,
    ensures
        output_re.num_bytes == tensor.data@.len() * dtype.bytes(),
        output_im.num_bytes == tensor.data@.len() * dtype.bytes(),
{
    crate::layout::law_allocation_holds_data(tensor);
}

/// A launch has a unit for each window of the input. All tensors are read and written one element
/// at a time.
pub proof fn law_phase_shift_launch_counts_windows(
    hw: HardwareProperties,
    input_re_shape: Vec<usize>,
    windows: usize,
    launch: PhaseShiftLaunch,
    selected: (CubeDim, CubeCount, bool),
)
    requires
        windows == input_re_shape@[0] * input_re_shape@[1],
        call_ensures(phase_shift_launch, (&hw, &input_re_shape), launch),
        call_ensures(cube_selection, (&hw, windows, false), selected),
    ensures
        launch.cube_dim == selected.0,
        launch.cube_count == selected.1,
        launch.vectorization == 1,
{
}

/// The kernel changes nothing but the elements of its window, and nothing at all where there is no
/// such window.
pub proof fn law_phase_shift_keeps_other_elements<F: Float>(
    input_re: Tensor<F>,
    input_im: Tensor<F>,
    alpha: F,
    w: usize,
    re_before: Tensor<F>,
    im_before: Tensor<F>,
    re_after: Tensor<F>,
    im_after: Tensor<F>,
    p: int,
)
    requires
        w < input_re.shape@[0] * input_re.shape@[1] ==> 0 <= re_before.offset(w as int) <= usize::MAX,
        w < input_re.shape@[0] * input_re.shape@[1] ==> 0 <= im_before.offset(w as int) <= usize::MAX,
        exists|re: &mut Tensor<F>, im: &mut Tensor<F>|
            {
                &&& *re == re_before
                &&& *im == im_before
                &&& *final(re) == re_after
                &&& *final(im) == im_after
                &&& #[trigger] call_ensures(
                    crate::phase_shift::phase_shift_kernel::<F>,
                    (&input_re, &input_im, re, im, w, alpha),
                    (),
                )
            },
    ensures
        re_after.shape@ == re_before.shape@ && re_after.strides@ == re_before.strides@,
        im_after.shape@ == im_before.shape@ && im_after.strides@ == im_before.strides@,
        re_after.line_size == re_before.line_size && im_after.line_size == im_before.line_size,
        re_after.data@.len() == re_before.data@.len(),
        im_after.data@.len() == im_before.data@.len(),
        w >= input_re.shape@[0] * input_re.shape@[1] ==> re_after == re_before && im_after
            == im_before,
        0 <= p < re_before.data@.len() && (forall|k: int|
            0 <= k < re_before.shape@[2] ==> p != #[trigger] re_before.position(w as int, k))
            ==> re_after.data@[p] == re_before.data@[p],
        0 <= p < im_before.data@.len() && (forall|k: int|
            0 <= k < im_before.shape@[2] ==> p != #[trigger] im_before.position(w as int, k))
            ==> im_after.data@[p] == im_before.data@[p],
{
    if w < input_re.windows() {
        crate::layout::lemma_covers_positions(re_before, w as int, p);
        crate::layout::lemma_covers_positions(im_before, w as int, p);
    }
}

} // verus!
