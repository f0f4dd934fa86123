//! What the operations compute in real numbers, where the arithmetic of elements is exact.

use vstd::prelude::*;

use crate::fft::FftMode;
use crate::layout::{BatchSignalLayout, Tensor};
use crate::scalar::Float;

verus! {

/// Whether elements stand for real numbers, one each, with which their operations calculate.
/// `cosine` and `sine` are the functions that the elements' cosine and sine stand for.
pub open spec fn is_exact<F: Float>(
    value: spec_fn(F) -> real,
    cosine: spec_fn(real) -> real,
    sine: spec_fn(real) -> real,
) -> bool {
    &&& forall|x: F, y: F| #![trigger value(x), value(y)] value(x) == value(y) ==> x == y
    &&& forall|n: usize, x: F| #[trigger]
        call_ensures(F::cast_from, (n,), x) ==> value(x) == n as real
    &&& forall|x: F, y: F, z: F| #[trigger]
        call_ensures(F::plus, (x, y), z) ==> value(z) == value(x) + value(y)
    &&& forall|x: F, y: F, z: F| #[trigger]
        call_ensures(F::minus, (x, y), z) ==> value(z) == value(x) - value(y)
    &&& forall|x: F, y: F, z: F| #[trigger]
        call_ensures(F::times, (x, y), z) ==> value(z) == value(x) * value(y)
    &&& forall|x: F, y: F, z: F| #[trigger]
        call_ensures(F::over, (x, y), z) && value(y) != 0real ==> value(z) * value(y) == value(x)
    &&& forall|x: F, y: F| #[trigger] call_ensures(F::negated, (x,), y) ==> value(y) == -value(x)
    &&& forall|x: F, y: F| #[trigger]
        call_ensures(F::cos, (x,), y) ==> value(y) == cosine(value(x))
    &&& forall|x: F, y: F| #[trigger] call_ensures(F::sin, (x,), y) ==> value(y) == sine(value(x))
}

/// A bin is turned by `alpha` times its index: as a complex number it is multiplied by the one on
/// the unit circle at that angle.
#[verifier::spinoff_prover]
pub proof fn law_bin_is_turned_by_its_angle<F: Float>(
    value: spec_fn(F) -> real,
    cosine: spec_fn(real) -> real,
    sine: spec_fn(real) -> real,
    re: F,
    im: F,
    alpha: F,
    bin: usize,
    out: (F, F),
)
    requires
        is_exact(value, cosine, sine),
        call_ensures(crate::phase_shift::shift_bin::<F>, (re, im, alpha, bin), out),
    ensures
        ({
            let angle = bin as real * value(alpha);
            &&& value(out.0) == value(re) * cosine(angle) - value(im) * sine(angle)
            &&& value(out.1) == value(re) * sine(angle) + value(im) * cosine(angle)
        }),
{
    lemma_shifted(value, cosine, sine, re, im, alpha, bin, out.0, out.1);
}

#[verifier::spinoff_prover]
proof fn lemma_shifted<F: Float>(
    value: spec_fn(F) -> real,
    cosine: spec_fn(real) -> real,
    sine: spec_fn(real) -> real,
    re: F,
    im: F,
    alpha: F,
    bin: usize,
    out_re: F,
    out_im: F,
)
    requires
        is_exact(value, cosine, sine),
        crate::phase_shift::is_shifted(re, im, alpha, bin, out_re, out_im),
    ensures
        ({
            let angle = bin as real * value(alpha);
            &&& value(out_re) == value(re) * cosine(angle) - value(im) * sine(angle)
            &&& value(out_im) == value(re) * sine(angle) + value(im) * cosine(angle)
        }),
{
    let theta = choose|theta: F|
        crate::phase_shift::is_angle(alpha, bin, theta) && #[trigger] crate::phase_shift::is_turned(
            re,
            im,
            theta,
            out_re,
            out_im,
        );
    let index = choose|index: F|
        call_ensures(F::cast_from, (bin,), index) && #[trigger] call_ensures(
            F::times,
            (alpha, index),
            theta,
        );
    let a = value(alpha);
    let k = bin as real;
    assert(value(theta) == a * k);
    assert(a * k == k * a) by (nonlinear_arith);
}

/// The angle grows by `alpha` from each bin to the next: turning a number in one bin and then once
/// more as in the first bin is turning it in the next bin.
#[verifier::spinoff_prover]
pub proof fn law_angle_grows_from_bin_to_bin<F: Float>(
    value: spec_fn(F) -> real,
    cosine: spec_fn(real) -> real,
    sine: spec_fn(real) -> real,
    re: F,
    im: F,
    alpha: F,
    bin: usize,
    next: usize,
    turned: (F, F),
    turned_on: (F, F),
    out: (F, F),
)
    requires
        is_exact(value, cosine, sine),
        forall|x: real, y: real, z: real|
            #![trigger cosine(x), cosine(y), cosine(z)]
            z == x + y ==> cosine(z) == cosine(x) * cosine(y) - sine(x) * sine(y),
        forall|x: real, y: real, z: real|
            #![trigger sine(x), sine(y), sine(z)]
            z == x + y ==> sine(z) == sine(x) * cosine(y) + cosine(x) * sine(y),
        next == bin + 1,
        call_ensures(crate::phase_shift::shift_bin::<F>, (re, im, alpha, bin), turned),
        call_ensures(
            crate::phase_shift::shift_bin::<F>,
            (turned.0, turned.1, alpha, 1usize),
            turned_on,
        ),
        call_ensures(crate::phase_shift::shift_bin::<F>, (re, im, alpha, next), out),
    ensures
        out == turned_on,
{
    law_bin_is_turned_by_its_angle(value, cosine, sine, re, im, alpha, bin, turned);
    law_bin_is_turned_by_its_angle(
        value,
        cosine,
        sine,
        turned.0,
        turned.1,
        alpha,
        1usize,
        turned_on,
    );
    law_bin_is_turned_by_its_angle(value, cosine, sine, re, im, alpha, next, out);
    let a = value(alpha);
    let x = bin as real * a;
    assert(next as real == bin as real + 1real);
    lemma_times_sum(bin as real, 1real, a);
    lemma_one_times(a);
    assert(1usize as real == 1real);
    assert(next as real * a == x + a);
    assert(cosine(x + a) == cosine(x) * cosine(a) - sine(x) * sine(a));
    assert(sine(x + a) == sine(x) * cosine(a) + cosine(x) * sine(a));
    lemma_turns_compose(
        value(re),
        value(im),
        (cosine(x), sine(x)),
        (cosine(a), sine(a)),
        (value(turned.0), value(turned.1)),
        (value(turned_on.0), value(turned_on.1)),
        (value(out.0), value(out.1)),
    );
    assert(value(out.0) == value(turned_on.0));
    assert(value(out.1) == value(turned_on.1));
}

/// Turns by two angles, one after the other, make one turn by their sum. Angles are given by their
/// points on the unit circle.
#[verifier::spinoff_prover]
proof fn lemma_turns_compose(
    re: real,
    im: real,
    first: (real, real),
    second: (real, real),
    turned: (real, real),
    turned_on: (real, real),
    out: (real, real),
)
    requires
        turned.0 == re * first.0 - im * first.1,
        turned.1 == re * first.1 + im * first.0,
        turned_on.0 == turned.0 * second.0 - turned.1 * second.1,
        turned_on.1 == turned.0 * second.1 + turned.1 * second.0,
        out.0 == re * (first.0 * second.0 - first.1 * second.1) - im * (first.1 * second.0 + first.0
            * second.1),
        out.1 == re * (first.1 * second.0 + first.0 * second.1) + im * (first.0 * second.0 - first.1
            * second.1),
    ensures
        out == turned_on,
{
    lemma_turns_add(re, im, first.0, first.1, second.0, second.1);
}

#[verifier::spinoff_prover]
proof fn lemma_turns_add(re: real, im: real, c: real, s: real, d: real, t: real)
    ensures
        (re * c - im * s) * d - (re * s + im * c) * t == re * (c * d - s * t) - im * (s * d + c
            * t),
        (re * c - im * s) * t + (re * s + im * c) * d == re * (s * d + c * t) + im * (c * d - s
            * t),
{
    lemma_times_sum(re * c, -(im * s), d);
    lemma_times_sum(re * s, im * c, t);
    lemma_times_sum(re * c, -(im * s), t);
    lemma_times_sum(re * s, im * c, d);
    lemma_times_opposite(im * s, d);
    lemma_times_opposite(im * s, t);
    lemma_times_groups(re, c, d);
    lemma_times_groups(re, c, t);
    lemma_times_groups(re, s, d);
    lemma_times_groups(re, s, t);
    lemma_times_groups(im, c, d);
    lemma_times_groups(im, c, t);
    lemma_times_groups(im, s, d);
    lemma_times_groups(im, s, t);
    lemma_sum_times(re, c * d, -(s * t));
    lemma_sum_times(re, s * d, c * t);
    lemma_sum_times(im, c * d, -(s * t));
    lemma_sum_times(im, s * d, c * t);
    lemma_opposite_times(re, s * t);
    lemma_opposite_times(im, s * t);
}

proof fn lemma_times_sum(x: real, y: real, z: real)
    ensures
        (x + y) * z == x * z + y * z,
{
    assert((x + y) * z == x * z + y * z) by (nonlinear_arith);
}

proof fn lemma_sum_times(x: real, y: real, z: real)
    ensures
        x * (y + z) == x * y + x * z,
{
    assert(x * (y + z) == x * y + x * z) by (nonlinear_arith);
}

proof fn lemma_times_opposite(x: real, y: real)
    ensures
        (-x) * y == -(x * y),
{
    assert((-x) * y == -(x * y)) by (nonlinear_arith);
}

proof fn lemma_opposite_times(x: real, y: real)
    ensures
        x * (-y) == -(x * y),
{
    assert(x * (-y) == -(x * y)) by (nonlinear_arith);
}

proof fn lemma_times_groups(x: real, y: real, z: real)
    ensures
        (x * y) * z == x * (y * z),
{
    assert((x * y) * z == x * (y * z)) by (nonlinear_arith);
}

proof fn lemma_times_swaps(x: real, y: real)
    ensures
        x * y == y * x,
{
    assert(x * y == y * x) by (nonlinear_arith);
}

proof fn lemma_one_times(x: real)
    ensures
        1real * x == x,
{
    assert(1real * x == x) by (nonlinear_arith);
}

#[verifier::spinoff_prover]
proof fn lemma_turning_back(a: real, b: real, c: real, s: real)
    requires
        c * c + s * s == 1real,
    ensures
        (a * c - b * s) * c + (a * s + b * c) * s == a,
        (a * s + b * c) * c - (a * c - b * s) * s == b,
{
    lemma_times_sum(a * c, -(b * s), c);
    lemma_times_sum(a * s, b * c, s);
    lemma_times_sum(a * c, -(b * s), s);
    lemma_times_sum(a * s, b * c, c);
    lemma_times_opposite(b * s, c);
    lemma_times_opposite(b * s, s);
    lemma_times_groups(a, c, c);
    lemma_times_groups(a, s, s);
    lemma_times_groups(a, c, s);
    lemma_times_groups(a, s, c);
    lemma_times_groups(b, c, c);
    lemma_times_groups(b, s, s);
    lemma_times_groups(b, c, s);
    lemma_times_groups(b, s, c);
    lemma_times_swaps(c, s);
    lemma_sum_times(a, c * c, s * s);
    lemma_sum_times(b, c * c, s * s);
    assert(a * 1real == a) by (nonlinear_arith);
    assert(b * 1real == b) by (nonlinear_arith);
}

/// Turning a bin keeps its magnitude.
#[verifier::spinoff_prover]
pub proof fn law_turning_keeps_the_magnitude<F: Float>(
    value: spec_fn(F) -> real,
    cosine: spec_fn(real) -> real,
    sine: spec_fn(real) -> real,
    re: F,
    im: F,
    alpha: F,
    bin: usize,
    out: (F, F),
)
    requires
        is_exact(value, cosine, sine),
        forall|x: real| #[trigger] cosine(x) * cosine(x) + sine(x) * sine(x) == 1real,
        call_ensures(crate::phase_shift::shift_bin::<F>, (re, im, alpha, bin), out),
    ensures
        value(out.0) * value(out.0) + value(out.1) * value(out.1) == value(re) * value(re) + value(
            im,
        ) * value(im),
{
    law_bin_is_turned_by_its_angle(value, cosine, sine, re, im, alpha, bin, out);
    let angle = bin as real * value(alpha);
    let c = cosine(angle);
    let s = sine(angle);
    let a = value(re);
    let b = value(im);
    assert(c * c + s * s == 1real);
    lemma_magnitude(a, b, c, s);
}

#[verifier::spinoff_prover]
proof fn lemma_magnitude(a: real, b: real, c: real, s: real)
    requires
        c * c + s * s == 1real,
    ensures
        (a * c - b * s) * (a * c - b * s) + (a * s + b * c) * (a * s + b * c) == a * a + b * b,
{
    let p = a * c - b * s;
    let q = a * s + b * c;
    lemma_turning_back(a, b, c, s);
    lemma_sum_times(p, a * c, -(b * s));
    lemma_sum_times(q, a * s, b * c);
    lemma_opposite_times(p, b * s);
    lemma_times_swaps(p, a * c);
    lemma_times_swaps(p, b * s);
    lemma_times_swaps(q, a * s);
    lemma_times_swaps(q, b * c);
    lemma_times_groups(a, c, p);
    lemma_times_groups(b, s, p);
    lemma_times_groups(a, s, q);
    lemma_times_groups(b, c, q);
    lemma_times_swaps(c, p);
    lemma_times_swaps(s, p);
    lemma_times_swaps(s, q);
    lemma_times_swaps(c, q);
    lemma_sum_times(a, p * c, q * s);
    lemma_sum_times(b, q * c, -(p * s));
    lemma_opposite_times(b, p * s);
}

/// The bin of frequency zero is left as it is, whatever `alpha` is.
#[verifier::spinoff_prover]
pub proof fn law_bin_of_frequency_zero_is_kept<F: Float>(
    value: spec_fn(F) -> real,
    cosine: spec_fn(real) -> real,
    sine: spec_fn(real) -> real,
    re: F,
    im: F,
    alpha: F,
    out: (F, F),
)
    requires
        is_exact(value, cosine, sine),
        cosine(0real) == 1real,
        sine(0real) == 0real,
        call_ensures(crate::phase_shift::shift_bin::<F>, (re, im, alpha, 0usize), out),
    ensures
        out == (re, im),
{
    law_bin_is_turned_by_its_angle(value, cosine, sine, re, im, alpha, 0usize, out);
    let a = value(alpha);
    let x = value(re);
    let y = value(im);
    assert(0usize as real == 0real);
    assert(0real * a == 0real && x * 0real == 0real && y * 0real == 0real) by (nonlinear_arith);
    lemma_one_times(x);
    lemma_one_times(y);
    lemma_times_swaps(x, 1real);
    lemma_times_swaps(y, 1real);
    assert(value(out.0) == value(re));
    assert(value(out.1) == value(im));
}

/// Turning by the opposite angle takes a bin back to what it was.
#[verifier::spinoff_prover]
pub proof fn law_opposite_shift_takes_back<F: Float>(
    value: spec_fn(F) -> real,
    cosine: spec_fn(real) -> real,
    sine: spec_fn(real) -> real,
    re: F,
    im: F,
    alpha: F,
    opposite: F,
    bin: usize,
    turned: (F, F),
    back: (F, F),
)
    requires
        is_exact(value, cosine, sine),
        forall|x: real| #[trigger] cosine(x) * cosine(x) + sine(x) * sine(x) == 1real,
        forall|x: real, y: real|
            #![trigger cosine(x), cosine(y)]
            y == -x ==> cosine(y) == cosine(x),
        forall|x: real, y: real| #![trigger sine(x), sine(y)] y == -x ==> sine(y) == -sine(x),
        value(opposite) == -value(alpha),
        call_ensures(crate::phase_shift::shift_bin::<F>, (re, im, alpha, bin), turned),
        call_ensures(
            crate::phase_shift::shift_bin::<F>,
            (turned.0, turned.1, opposite, bin),
            back,
        ),
    ensures
        back == (re, im),
{
    law_bin_is_turned_by_its_angle(value, cosine, sine, re, im, alpha, bin, turned);
    law_bin_is_turned_by_its_angle(
        value,
        cosine,
        sine,
        turned.0,
        turned.1,
        opposite,
        bin,
        back,
    );
    let angle = bin as real * value(alpha);
    let k = bin as real;
    let o = value(opposite);
    lemma_opposite_times(k, value(alpha));
    assert(k * o == -angle);
    let c = cosine(angle);
    let s = sine(angle);
    let a = value(re);
    let b = value(im);
    assert(c * c + s * s == 1real);
    lemma_turning_back(a, b, c, s);
    lemma_opposite_times(a * s + b * c, s);
    lemma_opposite_times(a * c - b * s, s);
    assert(value(back.0) == value(re));
    assert(value(back.1) == value(im));
}

/// The kernel turns every bin `k` of its window by `k` times `alpha`, and stores real parts in the
/// one output and imaginary parts in the other, where these have the window.
pub proof fn law_phase_shift_turns_every_bin<F: Float>(
    value: spec_fn(F) -> real,
    cosine: spec_fn(real) -> real,
    sine: spec_fn(real) -> real,
    input_re: Tensor<F>,
    input_im: Tensor<F>,
    alpha: F,
    w: usize,
    re_before: Tensor<F>,
    im_before: Tensor<F>,
    re_after: Tensor<F>,
    im_after: Tensor<F>,
)
    requires
        is_exact(value, cosine, sine),
        w < input_re.shape@[0] * input_re.shape@[1],
        input_im.shape@[2] == input_re.shape@[2],
        re_before.shape@[2] == input_re.shape@[2],
        im_before.shape@[2] == input_re.shape@[2],
        0 <= re_before.offset(w as int) <= usize::MAX,
        0 <= im_before.offset(w as int) <= usize::MAX,
        (exists|re: &mut Tensor<F>, im: &mut Tensor<F>|
            {
                &&& *re == re_before
                &&& *im == im_before
                &&& *final(re) == re_after
                &&& *final(im) == im_after
                &&& #[trigger] call_ensures(
                    crate::phase_shift::phase_shift_kernel::<F>,
                    (&input_re, &input_im, re, im, w, alpha),
                    (),
                )
            }) || (exists|re: &mut Tensor<F>, im: &mut Tensor<F>|
            {
                &&& *re == re_before
                &&& *im == im_before
                &&& *final(re) == re_after
                &&& *final(im) == im_after
                &&& #[trigger] call_ensures(
                    crate::phase_shift::phase_shift_kernel_one_window::<F>,
                    (&input_re, &input_im, re, im, w, alpha),
                    (),
                )
            }),
    ensures
        forall|k: int|
            0 <= k < input_re.shape@[2] ==> value(
                re_after.data@[#[trigger] re_before.position(w as int, k)],
            ) == value(input_re.window(w as int)[k]) * cosine(k as real * value(alpha)) - value(
                input_im.window(w as int)[k],
            ) * sine(k as real * value(alpha)),
        forall|k: int|
            0 <= k < input_re.shape@[2] ==> value(
                im_after.data@[#[trigger] im_before.position(w as int, k)],
            ) == value(input_re.window(w as int)[k]) * sine(k as real * value(alpha)) + value(
                input_im.window(w as int)[k],
            ) * cosine(k as real * value(alpha)),
{
    let v = w as int;
    let (re, im) = choose|re: Seq<F>, im: Seq<F>|
        #[trigger] crate::phase_shift::shifted_spectrum(
            input_re.window(v),
            input_im.window(v),
            alpha,
            re,
            im,
        ) && crate::layout::written(
            re_before.data@,
            re_after.data@,
            BatchSignalLayout::of(re_before, v),
            re,
        ) && crate::layout::written(
            im_before.data@,
            im_after.data@,
            BatchSignalLayout::of(im_before, v),
            im,
        );
    assert forall|k: int| 0 <= k < input_re.shape@[2] implies value(
        re_after.data@[#[trigger] re_before.position(v, k)],
    ) == value(input_re.window(v)[k]) * cosine(k as real * value(alpha)) - value(
        input_im.window(v)[k],
    ) * sine(k as real * value(alpha)) by {
        assert(BatchSignalLayout::of(re_before, v).spec_position(k) == re_before.position(v, k));
        assert(re_after.data@[re_before.position(v, k)] == re[k]);
        assert(k as usize as real == k as real);
        lemma_shifted(
            value,
            cosine,
            sine,
            input_re.window(v)[k],
            input_im.window(v)[k],
            alpha,
            k as usize,
            re[k],
            im[k],
        );
    }
    assert forall|k: int| 0 <= k < input_re.shape@[2] implies value(
        im_after.data@[#[trigger] im_before.position(v, k)],
    ) == value(input_re.window(v)[k]) * sine(k as real * value(alpha)) + value(
        input_im.window(v)[k],
    ) * cosine(k as real * value(alpha)) by {
        assert(BatchSignalLayout::of(im_before, v).spec_position(k) == im_before.position(v, k));
        assert(im_after.data@[im_before.position(v, k)] == im[k]);
        assert(crate::phase_shift::is_shifted(
            input_re.window(v)[k],
            input_im.window(v)[k],
            alpha,
            k as usize,
            re[k],
            im[k],
        ));
        assert(k as usize as real == k as real);
        lemma_shifted(
            value,
            cosine,
            sine,
            input_re.window(v)[k],
            input_im.window(v)[k],
            alpha,
            k as usize,
            re[k],
            im[k],
        );
    }
}

/// Normalizing divides by the number of samples: as many times each result as there are samples is
/// what was normalized.
pub proof fn law_normalizing_divides_by_the_length<F: Float>(
    value: spec_fn(F) -> real,
    cosine: spec_fn(real) -> real,
    sine: spec_fn(real) -> real,
    spectrum_re: Vec<F>,
    samples: Vec<F>,
    i: int,
)
    requires
        is_exact(value, cosine, sine),
        call_ensures(crate::irfft::normalize::<F>, (&spectrum_re,), samples),
        0 <= i < spectrum_re@.len(),
    ensures
        samples@.len() == spectrum_re@.len(),
        value(samples@[i]) * (spectrum_re@.len() as real) == value(spectrum_re@[i]),
{
    assert(spectrum_re@.len() == spectrum_re.len());
    lemma_normalized(
        value,
        cosine,
        sine,
        spectrum_re@[i],
        spectrum_re@.len() as usize,
        samples@[i],
    );
}

proof fn lemma_normalized<F: Float>(
    value: spec_fn(F) -> real,
    cosine: spec_fn(real) -> real,
    sine: spec_fn(real) -> real,
    x: F,
    num_samples: usize,
    out: F,
)
    requires
        is_exact(value, cosine, sine),
        num_samples > 0,
        crate::irfft::normalized(x, num_samples, out),
    ensures
        value(out) * (num_samples as real) == value(x),
{
    let count = choose|count: F|
        call_ensures(F::cast_from, (num_samples,), count) && #[trigger] call_ensures(
            F::over,
            (x, count),
            out,
        );
    assert(value(count) == num_samples as real);
    assert(num_samples as real != 0real);
}

/// Loading the bins of a window gives the whole spectrum of real samples: the bins, and behind them
/// the complex conjugates of all but the first and the last, in reverse.
pub proof fn law_loaded_spectrum_is_conjugate_symmetric<F: Float>(
    value: spec_fn(F) -> real,
    cosine: spec_fn(real) -> real,
    sine: spec_fn(real) -> real,
    spectrums_re: Tensor<F>,
    spectrums_im: Tensor<F>,
    w: usize,
    num_samples: usize,
    loaded: (Vec<F>, Vec<F>),
    k: int,
)
    requires
        is_exact(value, cosine, sine),
        spectrums_re.shape@[2] >= 2,
        call_ensures(
            crate::irfft::load_spectrum::<F>,
            (&spectrums_re, &spectrums_im, w, num_samples),
            loaded,
        ),
        0 <= k < spectrums_re.shape@[2],
    ensures
        loaded.0@.len() + 2 == 2 * spectrums_re.shape@[2],
        loaded.1@.len() == loaded.0@.len(),
        loaded.0@[k] == spectrums_re.window(w as int)[k],
        loaded.1@[k] == spectrums_im.window(w as int)[k],
        1 <= k < spectrums_re.shape@[2] - 1 ==> loaded.0@[loaded.0@.len() - k] == loaded.0@[k],
        1 <= k < spectrums_re.shape@[2] - 1 ==> value(loaded.1@[loaded.1@.len() - k]) == -value(
            loaded.1@[k],
        ),
{
    let bins_re = spectrums_re.window(w as int);
    let bins_im = spectrums_im.window(w as int);
    crate::irfft::law_completion_mirrors_bins(bins_re, bins_im, loaded.0@, loaded.1@);
    assert(loaded.0@[k] == bins_re[k]);
    assert(loaded.1@[k] == bins_im[k]);
}

/// Loading the samples of a window gives the samples, in order, as real parts and zeros as
/// imaginary parts, whatever the size of a line.
pub proof fn law_loaded_samples_are_real<F: Float>(
    value: spec_fn(F) -> real,
    cosine: spec_fn(real) -> real,
    sine: spec_fn(real) -> real,
    signal: Tensor<F>,
    w: usize,
    num_samples: usize,
    loaded: (Vec<F>, Vec<F>),
    i: int,
)
    requires
        is_exact(value, cosine, sine),
        call_ensures(crate::rfft::load_samples::<F>, (&signal, w, num_samples), loaded),
        num_samples == signal.shape@[2],
        0 <= i < signal.shape@[2],
    ensures
        loaded.0@.len() == signal.shape@[2],
        loaded.1@.len() == signal.shape@[2],
        loaded.0@[i] == signal.data@[signal.position(w as int, i)],
        value(loaded.1@[i]) == 0real,
{
    assert(call_ensures(F::cast_from, (0usize,), loaded.1@[i]));
    assert(0usize as real == 0real);
}

/// The kernel stores the inverse transform of the whole spectrum, divided by the number of samples:
/// whatever symmetric spectrum has the bins of the window as its first ones, as many times each
/// stored sample as there are samples is the real part that the inverse transform gives.
pub proof fn law_irfft_inverts_the_whole_spectrum<
    F: Float,
    T: Fn(Vec<F>, Vec<F>, FftMode) -> (Vec<F>, Vec<F>),
>(
    value: spec_fn(F) -> real,
    cosine: spec_fn(real) -> real,
    sine: spec_fn(real) -> real,
    fft: T,
    real_part: spec_fn(Seq<F>, Seq<F>) -> Seq<F>,
    spectrums_re: Tensor<F>,
    spectrums_im: Tensor<F>,
    whole_re: Seq<F>,
    whole_im: Seq<F>,
    w: usize,
    num_samples: usize,
    before: Tensor<F>,
    after: Tensor<F>,
)
    requires
        is_exact(value, cosine, sine),
        forall|a: Vec<F>, b: Vec<F>, out: (Vec<F>, Vec<F>)| #[trigger]
            call_ensures(fft, (a, b, FftMode::Inverse), out) ==> out.0@ == real_part(a@, b@),
        w < before.shape@[0] * before.shape@[1],
        0 <= before.offset(w as int) <= usize::MAX,
        spectrums_re.shape@[2] >= 2,
        spectrums_im.shape@[2] == spectrums_re.shape@[2],
        before.shape@[2] + 2 == 2 * spectrums_re.shape@[2],
        whole_re.len() == before.shape@[2],
        whole_im.len() == before.shape@[2],
        whole_re.take(spectrums_re.shape@[2] as int) == spectrums_re.window(w as int),
        whole_im.take(spectrums_im.shape@[2] as int) == spectrums_im.window(w as int),
        forall|k: int|
            1 <= k < spectrums_re.shape@[2] - 1 ==> whole_re[whole_re.len() - k]
                == #[trigger] whole_re[k],
        forall|k: int|
            1 <= k < spectrums_re.shape@[2] - 1 ==> value(whole_im[whole_im.len() - k]) == -value(
                #[trigger] whole_im[k],
            ),
        (exists|signal: &mut Tensor<F>|
            {
                &&& *signal == before
                &&& *final(signal) == after
                &&& #[trigger] call_ensures(
                    crate::irfft::irfft_kernel::<F, T>,
                    (&spectrums_re, &spectrums_im, signal, w, num_samples, &fft),
                    (),
                )
            }) || (exists|signal: &mut Tensor<F>|
            {
                &&& *signal == before
                &&& *final(signal) == after
                &&& #[trigger] call_ensures(
                    crate::irfft::irfft_kernel_one_batch::<F, T>,
                    (&spectrums_re, &spectrums_im, signal, w, num_samples, &fft),
                    (),
                )
            }),
    ensures
        forall|i: int|
            0 <= i < before.shape@[2] ==> value(
                after.data@[#[trigger] before.position(w as int, i)],
            ) * (before.shape@[2] as real) == value(real_part(whole_re, whole_im)[i]),
{
    let v = w as int;
    let bins_re = spectrums_re.window(v);
    let bins_im = spectrums_im.window(v);
    let samples = choose|samples: Seq<F>|
        #[trigger] crate::irfft::samples_of(fft, bins_re, bins_im, samples) && samples.len()
            == before.window_len() && crate::layout::written(
            before.data@,
            after.data@,
            BatchSignalLayout::of(before, v),
            samples,
        );
    let (re, im) = choose|re: Seq<F>, im: Seq<F>|
        crate::irfft::completes(bins_re, bins_im, re, im) && #[trigger] crate::irfft::inverse_of(
            fft,
            re,
            im,
            samples,
        );
    lemma_completion_is_whole(value, cosine, sine, bins_re, bins_im, re, im, whole_re, whole_im);
    let (out, _) = choose|out_re: Seq<F>, out_im: Seq<F>|
        {
            &&& #[trigger] crate::fft::transformed(fft, FftMode::Inverse, re, im, out_re, out_im)
            &&& out_re.len() == samples.len() == re.len()
            &&& forall|i: int|
                0 <= i < samples.len() ==> crate::irfft::normalized(
                    out_re[i],
                    samples.len() as usize,
                    #[trigger] samples[i],
                )
        };
    assert(out == real_part(whole_re, whole_im));
    assert forall|i: int| 0 <= i < before.shape@[2] implies value(
        after.data@[#[trigger] before.position(v, i)],
    ) * (before.shape@[2] as real) == value(real_part(whole_re, whole_im)[i]) by {
        assert(BatchSignalLayout::of(before, v).spec_position(i) == before.position(v, i));
        assert(after.data@[before.position(v, i)] == samples[i]);
        lemma_normalized(value, cosine, sine, out[i], before.shape@[2], samples[i]);
    }
}

proof fn lemma_completion_is_whole<F: Float>(
    value: spec_fn(F) -> real,
    cosine: spec_fn(real) -> real,
    sine: spec_fn(real) -> real,
    bins_re: Seq<F>,
    bins_im: Seq<F>,
    re: Seq<F>,
    im: Seq<F>,
    whole_re: Seq<F>,
    whole_im: Seq<F>,
)
    requires
        is_exact(value, cosine, sine),
        bins_re.len() >= 2,
        crate::irfft::completes(bins_re, bins_im, re, im),
        whole_re.len() == 2 * (bins_re.len() - 1),
        whole_im.len() == 2 * (bins_re.len() - 1),
        whole_re.take(bins_re.len() as int) == bins_re,
        whole_im.take(bins_re.len() as int) == bins_im,
        forall|k: int|
            1 <= k < bins_re.len() - 1 ==> whole_re[whole_re.len() - k] == #[trigger] whole_re[k],
        forall|k: int|
            1 <= k < bins_re.len() - 1 ==> value(whole_im[whole_im.len() - k]) == -value(
                #[trigger] whole_im[k],
            ),
    ensures
        re == whole_re,
        im == whole_im,
{
    let n = whole_re.len();
    let bins = bins_re.len();
    assert forall|i: int| 0 <= i < n implies re[i] == whole_re[i] && im[i] == whole_im[i] by {
        if i < bins {
            assert(whole_re.take(bins as int)[i] == whole_re[i]);
            assert(whole_im.take(bins as int)[i] == whole_im[i]);
            assert(re[i] == bins_re[i]);
        } else {
            let k = n - i;
            assert(whole_re.take(bins as int)[k] == whole_re[k]);
            assert(whole_im.take(bins as int)[k] == whole_im[k]);
            assert(re[i] == bins_re[k]);
            assert(call_ensures(F::negated, (bins_im[k],), im[i]));
            assert(whole_re[n - k] == whole_re[k]);
            assert(value(whole_im[n - k]) == -value(whole_im[k]));
            assert(value(im[i]) == value(whole_im[i]));
        }
    }
    assert(re =~= whole_re);
    assert(im =~= whole_im);
}

/// The inverse transform undoes the transform. Of the complex transform this asks that the spectra
/// of real samples are symmetric, and that its inverse takes them to as many times the samples as
/// there are samples. Then the kernels, one after the other, restore the samples of a window.
pub proof fn law_kernels_restore_samples<
    F: Float,
    T: Fn(Vec<F>, Vec<F>, FftMode) -> (Vec<F>, Vec<F>),
>(
    value: spec_fn(F) -> real,
    cosine: spec_fn(real) -> real,
    sine: spec_fn(real) -> real,
    fft: T,
    signal: Tensor<F>,
    w: usize,
    num_samples: usize,
    re_before: Tensor<F>,
    im_before: Tensor<F>,
    re: Tensor<F>,
    im: Tensor<F>,
    back_before: Tensor<F>,
    back: Tensor<F>,
)
    requires
        is_exact(value, cosine, sine),
        forall|s: Vec<F>, z: Vec<F>, f: (Vec<F>, Vec<F>)|
            s@.len() == num_samples && z@.len() == num_samples && (forall|i: int|
                0 <= i < num_samples ==> value(#[trigger] z@[i]) == 0real) && #[trigger]
                call_ensures(fft, (s, z, FftMode::Forward), f) ==> {
                &&& f.0@.len() == num_samples
                &&& f.1@.len() == num_samples
                &&& forall|k: int|
                    1 <= k < num_samples ==> f.0@[num_samples - k] == #[trigger] f.0@[k]
                &&& forall|k: int|
                    1 <= k < num_samples ==> value(f.1@[num_samples - k]) == -value(
                        #[trigger] f.1@[k],
                    )
            },
        forall|
            s: Vec<F>,
            z: Vec<F>,
            f: (Vec<F>, Vec<F>),
            a: Vec<F>,
            b: Vec<F>,
            g: (Vec<F>, Vec<F>),
            i: int,
        |
            #![trigger
                call_ensures(fft, (s, z, FftMode::Forward), f),
                call_ensures(fft, (a, b, FftMode::Inverse), g),
                s@[i]
            ]
            s@.len() == num_samples && z@.len() == num_samples && (forall|j: int|
                0 <= j < num_samples ==> value(#[trigger] z@[j]) == 0real) && call_ensures(
                fft,
                (s, z, FftMode::Forward),
                f,
            ) && a@ == f.0@ && b@ == f.1@ && call_ensures(fft, (a, b, FftMode::Inverse), g) && 0
                <= i < num_samples ==> value(g.0@[i]) == value(s@[i]) * (num_samples as real),
        num_samples == signal.shape@[2],
        num_samples >= 2,
        num_samples % 2 == 0,
        2 * re_before.shape@[2] == num_samples + 2,
        im_before.shape@[2] == re_before.shape@[2],
        back_before.shape@[2] == num_samples,
        w < signal.shape@[0] * signal.shape@[1],
        w < back_before.shape@[0] * back_before.shape@[1],
        0 <= re_before.offset(w as int) <= usize::MAX,
        0 <= im_before.offset(w as int) <= usize::MAX,
        0 <= back_before.offset(w as int) <= usize::MAX,
        exists|out_re: &mut Tensor<F>, out_im: &mut Tensor<F>|
            {
                &&& *out_re == re_before
                &&& *out_im == im_before
                &&& *final(out_re) == re
                &&& *final(out_im) == im
                &&& #[trigger] call_ensures(
                    crate::rfft::rfft_kernel::<F, T>,
                    (&signal, out_re, out_im, w, num_samples, &fft),
                    (),
                )
            },
        exists|out: &mut Tensor<F>|
            {
                &&& *out == back_before
                &&& *final(out) == back
                &&& #[trigger] call_ensures(
                    crate::irfft::irfft_kernel::<F, T>,
                    (&re, &im, out, w, num_samples, &fft),
                    (),
                )
            },
    ensures
        forall|i: int|
            0 <= i < num_samples ==> back.data@[#[trigger] back_before.position(w as int, i)]
                == signal.window(w as int)[i],
{
    let v = w as int;
    let n = num_samples as int;
    let window = signal.window(v);
    let bins = re_before.shape@[2] as int;
    let (spectrum_re, spectrum_im) = choose|re1: Seq<F>, im1: Seq<F>|
        #[trigger] crate::rfft::spectrum_of(fft, window, re1, im1) && re1.len() == window.len()
            && im1.len() == window.len() && crate::layout::written(
            re_before.data@,
            re.data@,
            BatchSignalLayout::of(re_before, v),
            re1,
        ) && crate::layout::written(
            im_before.data@,
            im.data@,
            BatchSignalLayout::of(im_before, v),
            im1,
        );
    let zero = choose|zero: Seq<F>|
        zero.len() == window.len() && crate::rfft::zeros(zero)
            && #[trigger] crate::fft::transformed(
            fft,
            FftMode::Forward,
            window,
            zero,
            spectrum_re,
            spectrum_im,
        );
    let (s, z, f) = choose|s: Vec<F>, z: Vec<F>, f: (Vec<F>, Vec<F>)|
        s@ == window && z@ == zero && f.0@ == spectrum_re && f.1@ == spectrum_im
            && #[trigger] call_ensures(fft, (s, z, FftMode::Forward), f);
    assert(0usize as real == 0real);
    assert forall|i: int| 0 <= i < n implies value(#[trigger] z@[i]) == 0real by {
        assert(call_ensures(F::cast_from, (0usize,), zero[i]));
    }
    lemma_window_is_stored(re_before, re, v, spectrum_re);
    lemma_window_is_stored(im_before, im, v, spectrum_im);
    let bins_re = re.window(v);
    let bins_im = im.window(v);
    let samples = choose|samples: Seq<F>|
        #[trigger] crate::irfft::samples_of(fft, bins_re, bins_im, samples) && samples.len()
            == back_before.window_len() && crate::layout::written(
            back_before.data@,
            back.data@,
            BatchSignalLayout::of(back_before, v),
            samples,
        );
    let (whole_re, whole_im) = choose|re1: Seq<F>, im1: Seq<F>|
        crate::irfft::completes(bins_re, bins_im, re1, im1) && #[trigger] crate::irfft::inverse_of(
            fft,
            re1,
            im1,
            samples,
        );
    assert forall|k: int| 1 <= k < bins_re.len() - 1 implies spectrum_re[n - k]
        == #[trigger] spectrum_re[k] by {
        assert(f.0@[n - k] == f.0@[k]);
    }
    assert forall|k: int| 1 <= k < bins_re.len() - 1 implies value(spectrum_im[n - k]) == -value(
        #[trigger] spectrum_im[k],
    ) by {
        assert(value(f.1@[n - k]) == -value(f.1@[k]));
    }
    lemma_completion_is_whole(
        value,
        cosine,
        sine,
        bins_re,
        bins_im,
        whole_re,
        whole_im,
        spectrum_re,
        spectrum_im,
    );
    let (out, out_im) = choose|out_re: Seq<F>, out_im: Seq<F>|
        {
            &&& #[trigger] crate::fft::transformed(
                fft,
                FftMode::Inverse,
                whole_re,
                whole_im,
                out_re,
                out_im,
            )
            &&& out_re.len() == samples.len() == whole_re.len()
            &&& forall|i: int|
                0 <= i < samples.len() ==> crate::irfft::normalized(
                    out_re[i],
                    samples.len() as usize,
                    #[trigger] samples[i],
                )
        };
    let (a, b, g) = choose|a: Vec<F>, b: Vec<F>, g: (Vec<F>, Vec<F>)|
        a@ == whole_re && b@ == whole_im && g.0@ == out && g.1@ == out_im && #[trigger]
            call_ensures(fft, (a, b, FftMode::Inverse), g);
    assert forall|i: int| 0 <= i < n implies back.data@[#[trigger] back_before.position(v, i)]
        == window[i] by {
        assert(BatchSignalLayout::of(back_before, v).spec_position(i) == back_before.position(
            v,
            i,
        ));
        assert(back.data@[back_before.position(v, i)] == samples[i]);
        lemma_normalized(value, cosine, sine, out[i], num_samples, samples[i]);
        assert(s@[i] == window[i]);
        assert(value(g.0@[i]) == value(s@[i]) * (num_samples as real));
        lemma_factor_cancels(value(samples[i]), value(window[i]), num_samples as real);
        assert(value(samples[i]) == value(window[i]));
    }
}

/// What is stored in a window is read from it.
proof fn lemma_window_is_stored<F>(before: Tensor<F>, after: Tensor<F>, w: int, values: Seq<F>)
    requires
        after.same_layout(before),
        0 <= before.offset(w) <= usize::MAX,
        before.window_len() <= values.len(),
        crate::layout::written(
            before.data@,
            after.data@,
            BatchSignalLayout::of(before, w),
            values,
        ),
    ensures
        after.window(w) == values.take(before.window_len()),
{
    assert forall|k: int| 0 <= k < before.window_len() implies after.window(w)[k] == values[k] by {
        assert(BatchSignalLayout::of(before, w).spec_position(k) == before.position(w, k));
        assert(after.position(w, k) == before.position(w, k));
    }
    assert(after.window(w) =~= values.take(before.window_len()));
}

proof fn lemma_factor_cancels(x: real, y: real, z: real)
    requires
        x * z == y * z,
        z != 0real,
    ensures
        x == y,
{
    lemma_times_sum(x, -y, z);
    lemma_times_opposite(y, z);
    let d = x + -y;
    assert(d * z == 0real);
    assert(d == 0real) by (nonlinear_arith)
        requires
            d * z == 0real,
            z != 0real,
    ;
}

/// The transform undoes its inverse. Of the complex transform this asks that, forward, it takes to
/// a symmetric spectrum the samples that are as many times smaller than its inverse transform as
/// there are samples. Then the kernels, one after the other, restore the bins of a window whose
/// first and last bin are real.
pub proof fn law_kernels_restore_bins<
    F: Float,
    T: Fn(Vec<F>, Vec<F>, FftMode) -> (Vec<F>, Vec<F>),
>(
    value: spec_fn(F) -> real,
    cosine: spec_fn(real) -> real,
    sine: spec_fn(real) -> real,
    fft: T,
    re: Tensor<F>,
    im: Tensor<F>,
    w: usize,
    num_samples: usize,
    signal_before: Tensor<F>,
    signal: Tensor<F>,
    re_before: Tensor<F>,
    im_before: Tensor<F>,
    back_re: Tensor<F>,
    back_im: Tensor<F>,
)
    requires
        is_exact(value, cosine, sine),
        forall|
            a: Vec<F>,
            b: Vec<F>,
            g: (Vec<F>, Vec<F>),
            s: Vec<F>,
            z: Vec<F>,
            f: (Vec<F>, Vec<F>),
        |
            #![trigger
                call_ensures(fft, (a, b, FftMode::Inverse), g),
                call_ensures(fft, (s, z, FftMode::Forward), f)
            ]
            {
                &&& a@.len() == num_samples && b@.len() == num_samples
                &&& s@.len() == num_samples && z@.len() == num_samples
                &&& value(b@[0]) == 0real
                &&& forall|k: int|
                    1 <= k < num_samples ==> a@[num_samples - k] == #[trigger] a@[k]
                &&& forall|k: int|
                    1 <= k < num_samples ==> value(b@[num_samples - k]) == -value(
                        #[trigger] b@[k],
                    )
                &&& call_ensures(fft, (a, b, FftMode::Inverse), g)
                &&& forall|i: int|
                    0 <= i < num_samples ==> value(#[trigger] s@[i]) * (num_samples as real)
                        == value(g.0@[i])
                &&& forall|i: int| 0 <= i < num_samples ==> value(#[trigger] z@[i]) == 0real
                &&& call_ensures(fft, (s, z, FftMode::Forward), f)
            } ==> f.0@ == a@ && f.1@ == b@,
        num_samples == signal_before.shape@[2],
        re.shape@[2] >= 2,
        2 * re.shape@[2] == num_samples + 2,
        im.shape@[2] == re.shape@[2],
        re_before.shape@[2] == re.shape@[2],
        im_before.shape@[2] == re.shape@[2],
        value(im.window(w as int)[0]) == 0real,
        value(im.window(w as int)[im.shape@[2] - 1]) == 0real,
        w < signal_before.shape@[0] * signal_before.shape@[1],
        0 <= re_before.offset(w as int) <= usize::MAX,
        0 <= im_before.offset(w as int) <= usize::MAX,
        0 <= signal_before.offset(w as int) <= usize::MAX,
        exists|out: &mut Tensor<F>|
            {
                &&& *out == signal_before
                &&& *final(out) == signal
                &&& #[trigger] call_ensures(
                    crate::irfft::irfft_kernel::<F, T>,
                    (&re, &im, out, w, num_samples, &fft),
                    (),
                )
            },
        exists|out_re: &mut Tensor<F>, out_im: &mut Tensor<F>|
            {
                &&& *out_re == re_before
                &&& *out_im == im_before
                &&& *final(out_re) == back_re
                &&& *final(out_im) == back_im
                &&& #[trigger] call_ensures(
                    crate::rfft::rfft_kernel::<F, T>,
                    (&signal, out_re, out_im, w, num_samples, &fft),
                    (),
                )
            },
    ensures
        back_re.window(w as int) == re.window(w as int),
        back_im.window(w as int) == im.window(w as int),
{
    let v = w as int;
    let n = num_samples as int;
    let bins_re = re.window(v);
    let bins_im = im.window(v);
    let bins = bins_re.len() as int;
    let samples = choose|samples: Seq<F>|
        #[trigger] crate::irfft::samples_of(fft, bins_re, bins_im, samples) && samples.len()
            == signal_before.window_len() && crate::layout::written(
            signal_before.data@,
            signal.data@,
            BatchSignalLayout::of(signal_before, v),
            samples,
        );
    let (whole_re, whole_im) = choose|re1: Seq<F>, im1: Seq<F>|
        crate::irfft::completes(bins_re, bins_im, re1, im1) && #[trigger] crate::irfft::inverse_of(
            fft,
            re1,
            im1,
            samples,
        );
    let (out, out_im) = choose|out_re: Seq<F>, out_im: Seq<F>|
        {
            &&& #[trigger] crate::fft::transformed(
                fft,
                FftMode::Inverse,
                whole_re,
                whole_im,
                out_re,
                out_im,
            )
            &&& out_re.len() == samples.len() == whole_re.len()
            &&& forall|i: int|
                0 <= i < samples.len() ==> crate::irfft::normalized(
                    out_re[i],
                    samples.len() as usize,
                    #[trigger] samples[i],
                )
        };
    let (a, b, g) = choose|a: Vec<F>, b: Vec<F>, g: (Vec<F>, Vec<F>)|
        a@ == whole_re && b@ == whole_im && g.0@ == out && g.1@ == out_im && #[trigger]
            call_ensures(fft, (a, b, FftMode::Inverse), g);
    lemma_window_is_stored(signal_before, signal, v, samples);
    assert(samples.take(n) =~= samples);
    let (spectrum_re, spectrum_im) = choose|re1: Seq<F>, im1: Seq<F>|
        #[trigger] crate::rfft::spectrum_of(fft, samples, re1, im1) && re1.len() == samples.len()
            && im1.len() == samples.len() && crate::layout::written(
            re_before.data@,
            back_re.data@,
            BatchSignalLayout::of(re_before, v),
            re1,
        ) && crate::layout::written(
            im_before.data@,
            back_im.data@,
            BatchSignalLayout::of(im_before, v),
            im1,
        );
    let zero = choose|zero: Seq<F>|
        zero.len() == samples.len() && crate::rfft::zeros(zero)
            && #[trigger] crate::fft::transformed(
            fft,
            FftMode::Forward,
            samples,
            zero,
            spectrum_re,
            spectrum_im,
        );
    let (s, z, f) = choose|s: Vec<F>, z: Vec<F>, f: (Vec<F>, Vec<F>)|
        s@ == samples && z@ == zero && f.0@ == spectrum_re && f.1@ == spectrum_im
            && #[trigger] call_ensures(fft, (s, z, FftMode::Forward), f);
    assert(0usize as real == 0real);
    assert forall|i: int| 0 <= i < n implies value(#[trigger] z@[i]) == 0real by {
        assert(call_ensures(F::cast_from, (0usize,), zero[i]));
    }
    assert forall|i: int| 0 <= i < n implies value(#[trigger] s@[i]) * (num_samples as real)
        == value(g.0@[i]) by {
        lemma_normalized(value, cosine, sine, out[i], num_samples, samples[i]);
    }
    lemma_completion_is_symmetric(
        value,
        cosine,
        sine,
        bins_re,
        bins_im,
        whole_re,
        whole_im,
    );
    assert(value(b@[0]) == 0real) by {
        assert(whole_im[0] == bins_im[0]);
    }
    assert forall|k: int| 1 <= k < n implies a@[n - k] == #[trigger] a@[k] by {
        assert(whole_re[n - k] == whole_re[k]);
    }
    assert forall|k: int| 1 <= k < n implies value(b@[n - k]) == -value(#[trigger] b@[k]) by {
        assert(value(whole_im[n - k]) == -value(whole_im[k]));
    }
    assert(f.0@ == a@ && f.1@ == b@);
    lemma_window_is_stored(re_before, back_re, v, spectrum_re);
    lemma_window_is_stored(im_before, back_im, v, spectrum_im);
    crate::irfft::law_completion_mirrors_bins(bins_re, bins_im, whole_re, whole_im);
}

proof fn lemma_completion_is_symmetric<F: Float>(
    value: spec_fn(F) -> real,
    cosine: spec_fn(real) -> real,
    sine: spec_fn(real) -> real,
    bins_re: Seq<F>,
    bins_im: Seq<F>,
    re: Seq<F>,
    im: Seq<F>,
)
    requires
        is_exact(value, cosine, sine),
        bins_re.len() >= 2,
        value(bins_im[bins_im.len() - 1]) == 0real,
        crate::irfft::completes(bins_re, bins_im, re, im),
    ensures
        forall|k: int| 1 <= k < re.len() ==> re[re.len() - k] == #[trigger] re[k],
        forall|k: int| 1 <= k < im.len() ==> value(im[im.len() - k]) == -value(#[trigger] im[k]),
{
    let n = re.len() as int;
    let bins = bins_re.len() as int;
    assert forall|k: int| 1 <= k < n implies re[n - k] == #[trigger] re[k] && value(im[n - k])
        == -value(im[k]) by {
        if k < bins - 1 {
            assert(re[n - k] == bins_re[k]);
            assert(call_ensures(F::negated, (bins_im[k],), im[n - k]));
        } else if k == bins - 1 {
            assert(im[k] == bins_im[k]);
        } else {
            assert(re[k] == bins_re[n - k]);
            assert(call_ensures(F::negated, (bins_im[n - k],), im[k]));
            assert(re[n - k] == bins_re[n - k]);
        }
    }
    assert forall|k: int| 1 <= k < im.len() implies value(im[im.len() - k]) == -value(
        #[trigger] im[k],
    ) by {
        assert(re[n - k] == re[k]);
    }
}

} // verus!
