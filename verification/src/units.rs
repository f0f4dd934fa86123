//! Runs of all units of a launch, one behind the other in any order.

use vstd::prelude::*;

use crate::cube::HardwareProperties;
use crate::layout::Tensor;

verus! {

/// Whether `order` is an order of the units of the launch that is selected for `num_iter`
/// iterations: each of their positions occurs.
pub open spec fn runs_all_units(
    hw: HardwareProperties,
    num_iter: usize,
    force_no_cube_dim_gpu: bool,
    order: Seq<int>,
) -> bool {
    let (dim, count, _) = crate::cube::selection(hw, num_iter, force_no_cube_dim_gpu);
    forall|p: int| 0 <= p < crate::cube::launched_units(dim, count) ==> #[trigger] order.contains(p)
}

/// Where every unit settles the window of its position and keeps the others, all windows are
/// settled at the end. `content` is what a window holds after a number of units.
pub(crate) proof fn lemma_units_settle_windows<C>(
    order: Seq<int>,
    windows: int,
    content: spec_fn(int, int) -> C,
    settled: spec_fn(int, C) -> bool,
    steps: int,
)
    requires
        0 <= steps <= order.len(),
        forall|t: int, w: int|
            #![trigger content(t + 1, w)]
            0 <= t < order.len() && 0 <= w < windows ==> if w == order[t] {
                settled(w, content(t + 1, w))
            } else {
                content(t + 1, w) == content(t, w)
            },
    ensures
        forall|w: int|
            0 <= w < windows && order.take(steps).contains(w) ==> settled(
                w,
                #[trigger] content(steps, w),
            ),
    decreases steps,
{
    if steps > 0 {
        lemma_units_settle_windows(order, windows, content, settled, steps - 1);
        assert forall|w: int| 0 <= w < windows && order.take(steps).contains(w) implies settled(
            w,
            #[trigger] content(steps, w),
        ) by {
            let t = steps - 1;
            assert(content(t + 1, w) == content(steps, w));
            if w != order[t] {
                let i = choose|i: int| 0 <= i < steps && order.take(steps)[i] == w;
                assert(order.take(steps - 1)[i] == w);
                assert(settled(w, content(t, w)));
            }
        }
    }
}

/// Where no unit changes the layout of a tensor, it is the same at all times.
pub(crate) proof fn lemma_layout_is_kept<F>(tensors: Seq<Tensor<F>>, steps: int)
    requires
        0 <= steps < tensors.len(),
        forall|t: int|
            0 <= t < tensors.len() - 1 ==> (#[trigger] tensors[t + 1]).same_layout(tensors[t]),
    ensures
        forall|t: int| 0 <= t <= steps ==> (#[trigger] tensors[t]).same_layout(tensors[0]),
    decreases steps,
{
    if steps > 0 {
        lemma_layout_is_kept(tensors, steps - 1);
        assert(tensors[(steps - 1) + 1].same_layout(tensors[steps - 1]));
    }
}

} // verus!
