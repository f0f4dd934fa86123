//! Batched tensors, and the windows that a kernel sees of them.

use vstd::prelude::*;

verus! {

/// A tensor of windows: its dimensions are the batches, the channels of a batch, and the elements
/// of a window.
#[derive(Debug)]
pub struct Tensor<F> {
    /// The three dimensions.
    pub shape: Vec<usize>,
    /// The distance in `data` between neighbours along each dimension.
    pub strides: Vec<usize>,
    /// How many elements one read of the device takes.
    pub line_size: usize,
    /// The elements.
    pub data: Vec<F>,
}

impl<F> Tensor<F> {
    /// The number of windows.
    pub open spec fn windows(self) -> int {
        self.shape@[0] * self.shape@[1]
    }

    /// The number of elements of a window.
    pub open spec fn window_len(self) -> int {
        self.shape@[2] as int
    }

    /// Where the window starts: the last of the outer dimensions varies fastest.
    pub open spec fn offset(self, window: int) -> int {
        (window / self.shape@[1] as int) * self.strides@[0] + (window % self.shape@[1] as int)
            * self.strides@[1]
    }

    /// Where the `i`-th element of a window lies.
    pub open spec fn position(self, window: int, i: int) -> int {
        self.offset(window) + i * self.strides@[2]
    }

    /// The elements of a window.
    pub open spec fn window(self, window: int) -> Seq<F> {
        Seq::new(self.window_len() as nat, |i: int| self.data@[self.position(window, i)])
    }

    /// Whether every element of every window lies in the data.
    pub open spec fn wf(self) -> bool {
        &&& self.shape@.len() == 3
        &&& self.strides@.len() == 3
        &&& self.line_size > 0
        &&& self.windows() <= usize::MAX
        &&& forall|w: int| 0 <= w < self.windows() ==> #[trigger] self.offset(w) <= usize::MAX
        &&& forall|w: int, i: int|
            0 <= w < self.windows() && 0 <= i < self.window_len() ==> #[trigger] self.position(w, i)
                < self.data@.len()
    }

    /// Whether the windows lie in the data one behind the other, without gaps.
    pub open spec fn contiguous(self) -> bool {
        &&& self.shape@.len() == 3
        &&& self.strides@ == seq![
            (self.shape@[1] * self.shape@[2]) as usize,
            self.shape@[2],
            1usize,
        ]
        &&& self.data@.len() == self.windows() * self.window_len()
        &&& self.shape@[1] * self.shape@[2] <= usize::MAX
        &&& self.windows() <= usize::MAX
        &&& self.line_size > 0
    }

    /// Whether two tensors differ at most in their elements.
    pub open spec fn same_layout(self, other: Self) -> bool {
        &&& self.shape@ == other.shape@
        &&& self.strides@ == other.strides@
        &&& self.line_size == other.line_size
        &&& self.data@.len() == other.data@.len()
    }
}

/// One window of a tensor: it makes a kernel see a tensor of one dimension.
#[derive(Clone, Copy, Debug, PartialEq, Eq, Structural)]
pub struct BatchSignalLayout {
    /// Where the window starts.
    pub offset: usize,
    /// The distance between neighbours.
    pub stride: usize,
    /// The number of elements.
    pub len: usize,
}

impl BatchSignalLayout {
    /// Where the `i`-th element of the window lies.
    pub open spec fn spec_position(self, i: int) -> int {
        self.offset + i * self.stride
    }

    /// Whether the window has an element at `p`.
    pub open spec fn covers(self, p: int) -> bool {
        exists|i: int| 0 <= i < self.len && p == #[trigger] self.spec_position(i)
    }

    /// Whether all elements of the window lie in data of the given length.
    pub open spec fn fits(self, data_len: int) -> bool {
        forall|i: int| 0 <= i < self.len ==> #[trigger] self.spec_position(i) < data_len
    }

    /// The layout of a window of a tensor.
    pub open spec fn of<F>(tensor: Tensor<F>, window: int) -> Self {
        BatchSignalLayout {
            offset: tensor.offset(window) as usize,
            stride: tensor.strides@[2],
            len: tensor.shape@[2],
        }
    }

    /// The layout of the window with the given index.
    pub fn new<F>(tensor: &Tensor<F>, window_index: usize) -> (layout: Self)
        requires
            tensor.wf(),
            window_index < tensor.windows(),
        ensures
            layout == Self::of(*tensor, window_index as int),
            layout.fits(tensor.data@.len() as int),
            forall|i: int|
                layout.spec_position(i) == #[trigger] tensor.position(window_index as int, i),
    {
        let ghost w: int = window_index as int;
        proof {
            lemma_window_has_channel(*tensor);
        }
        assert(tensor.offset(w) <= usize::MAX);
        let channels: usize = tensor.shape[1];
        let batch: usize = window_index / channels;
        let channel: usize = window_index % channels;
        assert(0 <= batch * tensor.strides@[0]) by (nonlinear_arith);
        assert(0 <= channel * tensor.strides@[1]) by (nonlinear_arith);
        let offset: usize = batch * tensor.strides[0] + channel * tensor.strides[1];
        let layout = BatchSignalLayout { offset, stride: tensor.strides[2], len: tensor.shape[2] };
        assert forall|i: int| 0 <= i < layout.len implies #[trigger] layout.spec_position(i)
            < tensor.data@.len() by {
            assert(layout.spec_position(i) == tensor.position(w, i));
        }
        layout
    }

    /// The position of the `i`-th element of the window.
    pub fn position(&self, i: usize) -> (p: usize)
        requires
            self.spec_position(i as int) <= usize::MAX,
        ensures
            p == self.spec_position(i as int),
    {
        assert(0 <= i * self.stride) by (nonlinear_arith);
        self.offset + i * self.stride
    }
}

/// Whether data was changed in a window alone, whose `i`-th element then is the `i`-th value.
pub open spec fn written<F>(
    before: Seq<F>,
    after: Seq<F>,
    layout: BatchSignalLayout,
    values: Seq<F>,
) -> bool {
    &&& after.len() == before.len()
    &&& forall|i: int|
        0 <= i < layout.len ==> after[#[trigger] layout.spec_position(i)] == values[i]
    &&& forall|p: int| 0 <= p < before.len() && !layout.covers(p) ==> after[p] == #[trigger] before[p]
}

/// What a kernel needs of a tensor that it writes element by element.
pub open spec fn writable<F>(tensor: Tensor<F>) -> bool {
    &&& tensor.wf()
    &&& tensor.line_size == 1
    &&& tensor.strides@[2] > 0
}

/// Reads the `i`-th element of a window.
pub(crate) fn read<F: Copy>(data: &Vec<F>, layout: &BatchSignalLayout, i: usize) -> (value: F)
    requires
        layout.spec_position(i as int) < data@.len(),
    ensures
        value == data@[layout.spec_position(i as int)],
{
    assert(data@.len() == data.len());
    data[layout.position(i)]
}

proof fn lemma_positions_differ(layout: BatchSignalLayout, i: int, j: int)
    requires
        layout.stride > 0,
        i != j,
    ensures
        layout.spec_position(i) != layout.spec_position(j),
{
    let stride = layout.stride as int;
    if i < j {
        assert(i * stride < j * stride) by (nonlinear_arith)
            requires
                i < j,
                stride > 0,
        ;
    } else {
        assert(j * stride < i * stride) by (nonlinear_arith)
            requires
                j < i,
                stride > 0,
        ;
    }
}

/// Writes the elements of a window, one value each.
pub(crate) fn write_window<F: Copy>(
    data: &mut Vec<F>,
    layout: &BatchSignalLayout,
    values: &Vec<F>,
)
    requires
        layout.stride > 0,
        layout.fits(old(data)@.len() as int),
        layout.len <= values@.len(),
    ensures
        written(old(data)@, final(data)@, *layout, values@),
{
    for i in 0..layout.len
        invariant
            layout.stride > 0,
            layout.fits(old(data)@.len() as int),
            layout.len <= values@.len(),
            data@.len() == old(data)@.len(),
            forall|j: int|
                0 <= j < i ==> data@[#[trigger] layout.spec_position(j)] == values@[j],
            forall|p: int|
                0 <= p < data@.len() && !layout.covers(p) ==> data@[p] == #[trigger] old(data)@[p],
    {
        let ghost before = data@;
        assert(data@.len() == data.len());
        assert(layout.spec_position(i as int) < data@.len());
        let p: usize = layout.position(i);
        let value = values[i];
        data.set(p, value);
        assert forall|j: int| 0 <= j < i + 1 implies data@[#[trigger] layout.spec_position(j)]
            == values@[j] by {
            if j < i {
                lemma_positions_differ(*layout, j, i as int);
                assert(before[layout.spec_position(j)] == values@[j]);
                assert(0 <= j * layout.stride) by (nonlinear_arith)
                    requires
                        j >= 0,
                ;
            }
        }
        assert(layout.covers(p as int));
    }
}

/// Writing the same values to a window of the same data gives the same data.
pub(crate) proof fn lemma_written_is_determined<F>(
    before: Seq<F>,
    after: Seq<F>,
    other: Seq<F>,
    layout: BatchSignalLayout,
    values: Seq<F>,
)
    requires
        written(before, after, layout, values),
        written(before, other, layout, values),
    ensures
        after == other,
{
    assert forall|p: int| 0 <= p < before.len() implies after[p] == other[p] by {
        if layout.covers(p) {
            let i = choose|i: int| 0 <= i < layout.len && p == layout.spec_position(i);
            assert(after[layout.spec_position(i)] == values[i]);
            assert(other[layout.spec_position(i)] == values[i]);
        } else {
            assert(after[p] == before[p]);
            assert(other[p] == before[p]);
        }
    }
    assert(after =~= other);
}

proof fn lemma_window_has_channel<F>(tensor: Tensor<F>)
    requires
        tensor.windows() > 0,
    ensures
        tensor.shape@[1] > 0,
{
    assert(tensor.shape@[1] > 0) by (nonlinear_arith)
        requires
            tensor.shape@[0] * tensor.shape@[1] > 0,
            tensor.shape@[1] >= 0,
    ;
}

proof fn lemma_contiguous_position<F>(tensor: Tensor<F>, w: int, i: int)
    requires
        tensor.contiguous(),
        tensor.shape@[1] > 0,
    ensures
        tensor.offset(w) == w * tensor.window_len(),
        tensor.position(w, i) == w * tensor.window_len() + i,
{
    let channels = tensor.shape@[1] as int;
    let len = tensor.window_len();
    assert((w / channels) * (channels * len) + (w % channels) * len == w * len)
        by (nonlinear_arith)
        requires
            channels > 0,
    {
        assert(w == channels * (w / channels) + w % channels);
        assert((channels * (w / channels)) * len == (w / channels) * (channels * len));
    }
    assert(tensor.strides@[2] == 1);
    assert(i * tensor.strides@[2] == i) by (nonlinear_arith)
        requires
            tensor.strides@[2] == 1,
    ;
}

/// A contiguous tensor has all its windows in its data: window `w` starts at `w` times the length
/// of a window.
pub proof fn law_contiguous_is_wf<F>(tensor: Tensor<F>)
    requires
        tensor.contiguous(),
    ensures
        tensor.wf(),
        forall|w: int, i: int|
            0 <= w < tensor.windows() ==> #[trigger] tensor.position(w, i) == w * tensor.window_len()
                + i,
{
    let len = tensor.window_len();
    if tensor.windows() > 0 {
        lemma_window_has_channel(tensor);
    }
    assert forall|w: int, i: int| 0 <= w < tensor.windows() implies #[trigger] tensor.position(w, i)
        == w * tensor.window_len() + i by {
        lemma_contiguous_position(tensor, w, i);
    }
    assert forall|w: int| 0 <= w < tensor.windows() implies #[trigger] tensor.offset(w)
        <= usize::MAX by {
        lemma_contiguous_position(tensor, w, 0);
        assert(tensor.data@.len() == tensor.data.len());
        assert(w * len <= tensor.windows() * len) by (nonlinear_arith)
            requires
                w < tensor.windows(),
                len >= 0,
        ;
    }
    assert forall|w: int, i: int|
        0 <= w < tensor.windows() && 0 <= i < len implies #[trigger] tensor.position(w, i)
        < tensor.data@.len() by {
        assert(w * len + len <= tensor.windows() * len) by (nonlinear_arith)
            requires
                w + 1 <= tensor.windows(),
                len >= 0,
        ;
    }
}

/// The windows of a contiguous tensor tile its data: every position belongs to an element of a
/// window, and to no other element of any window.
pub proof fn law_contiguous_windows_tile<F>(tensor: Tensor<F>, p: int)
    requires
        tensor.contiguous(),
        0 <= p < tensor.data@.len(),
    ensures
        exists|w: int, i: int|
            0 <= w < tensor.windows() && 0 <= i < tensor.window_len() && #[trigger] tensor.position(
                w,
                i,
            ) == p,
        forall|v: int, j: int, w: int, i: int|
            #![trigger tensor.position(v, j), tensor.position(w, i)]
            0 <= v < tensor.windows() && 0 <= j < tensor.window_len() && 0 <= w < tensor.windows()
                && 0 <= i < tensor.window_len() && tensor.position(v, j) == p && tensor.position(
                w,
                i,
            ) == p ==> v == w && j == i,
{
    let len = tensor.window_len();
    assert(len > 0) by (nonlinear_arith)
        requires
            tensor.windows() * len > 0,
            len >= 0,
    ;
    let w0 = p / len;
    let i0 = p % len;
    assert(0 <= w0 < tensor.windows()) by (nonlinear_arith)
        requires
            len > 0,
            0 <= p < tensor.windows() * len,
            w0 == p / len,
    ;
    lemma_window_has_channel(tensor);
    lemma_contiguous_position(tensor, w0, i0);
    assert(w0 * len + i0 == p) by (nonlinear_arith)
        requires
            len > 0,
            w0 == p / len,
            i0 == p % len,
    ;
    assert(tensor.position(w0, i0) == p);
    assert forall|v: int, j: int|
        0 <= v < tensor.windows() && 0 <= j < len && #[trigger] tensor.position(v, j)
            == p implies v == w0 && j == i0 by {
        lemma_contiguous_position(tensor, v, j);
        assert(v == p / len && j == p % len) by (nonlinear_arith)
            requires
                v * len + j == p,
                0 <= j < len,
        ;
    }
}

/// Writing one window of a contiguous tensor leaves all others as they were, and a later read of
/// the window gives back as many values as it holds.
pub proof fn law_window_write_is_local<F>(
    before: Tensor<F>,
    after: Tensor<F>,
    w: int,
    values: Seq<F>,
)
    requires
        before.contiguous(),
        after.same_layout(before),
        0 <= w < before.windows(),
        values.len() >= before.window_len(),
        written(before.data@, after.data@, BatchSignalLayout::of(before, w), values),
    ensures
        after.window(w) == values.take(before.window_len()),
        forall|v: int|
            0 <= v < before.windows() && v != w ==> #[trigger] after.window(v) == before.window(v),
{
    let layout = BatchSignalLayout::of(before, w);
    law_contiguous_is_wf(before);
    assert(before.offset(w) <= usize::MAX);
    lemma_window_has_channel(before);
    lemma_contiguous_position(before, w, 0);
    assert(0 <= w * before.window_len()) by (nonlinear_arith)
        requires
            w >= 0,
            before.window_len() >= 0,
    ;
    assert forall|i: int| 0 <= i < before.window_len() implies after.window(w)[i] == values[i] by {
        assert(layout.spec_position(i) == before.position(w, i));
        assert(after.position(w, i) == before.position(w, i));
    }
    assert(after.window(w) =~= values.take(before.window_len()));
    assert forall|v: int| 0 <= v < before.windows() && v != w implies #[trigger] after.window(v)
        == before.window(v) by {
        assert forall|j: int| 0 <= j < before.window_len() implies after.window(v)[j]
            == before.window(v)[j] by {
            let p = before.position(v, j);
            lemma_contiguous_position(before, v, j);
            assert(0 <= v * before.window_len()) by (nonlinear_arith)
                requires
                    v >= 0,
                    before.window_len() >= 0,
            ;
            assert(p < before.data@.len());
            law_contiguous_windows_tile(before, p);
            if layout.covers(p) {
                let i = choose|i: int| 0 <= i < layout.len && p == layout.spec_position(i);
                assert(before.position(w, i) == p);
            }
            assert(after.position(v, j) == p);
            assert(after.data@[p] == before.data@[p]);
        }
        assert(after.window(v) =~= before.window(v));
    }
}

/// An index past the last window of a contiguous tensor leads to no element: the window would lie
/// behind the end of the data.
pub proof fn law_past_last_window_is_out_of_bounds<F>(tensor: Tensor<F>, w: int, i: int)
    requires
        tensor.contiguous(),
        tensor.shape@[1] > 0,
        w >= tensor.windows(),
        i >= 0,
    ensures
        tensor.position(w, i) >= tensor.data@.len(),
{
    lemma_contiguous_position(tensor, w, i);
    assert(w * tensor.window_len() >= tensor.windows() * tensor.window_len()) by (nonlinear_arith)
        requires
            w >= tensor.windows(),
            tensor.window_len() >= 0,
    ;
}

/// The data of a contiguous tensor holds as many elements as an allocation of its shape counts.
pub proof fn law_allocation_holds_data<F>(tensor: Tensor<F>)
    requires
        tensor.contiguous(),
    ensures
        crate::shape::elements(tensor.shape@) == tensor.data@.len(),
{
    let shape = tensor.shape@;
    let outer = shape.drop_last();
    let first = outer.drop_last();
    reveal_with_fuel(crate::shape::elements, 4);
    assert(first.drop_last() =~= Seq::empty());
    assert(crate::shape::elements(first) == shape[0]);
    assert(crate::shape::elements(outer) == shape[0] * shape[1]);
}

/// Where the elements of a window lie follows from the strides alone: windows count through the
/// channels of a batch before they go on to the next batch.
pub proof fn law_strides_place_elements<F>(tensor: Tensor<F>, w: int, i: int)
    requires
        tensor.shape@.len() == 3,
        tensor.strides@.len() == 3,
        0 <= i < tensor.shape@[2],
    ensures
        tensor.windows() == tensor.shape@[0] * tensor.shape@[1],
        tensor.window(w).len() == tensor.shape@[2],
        tensor.window(w)[i] == tensor.data@[tensor.position(w, i)],
        tensor.position(w, i) == (w / tensor.shape@[1] as int) * tensor.strides@[0] + (w
            % tensor.shape@[1] as int) * tensor.strides@[1] + i * tensor.strides@[2],
{
}

/// The layout of a window has the length and the stride of the last dimension, and that of the
/// first window starts at zero.
pub proof fn law_layout_follows_last_dimension<F>(
    tensor: Tensor<F>,
    w: usize,
    layout: BatchSignalLayout,
)
    requires
        tensor.shape@[1] > 0,
        call_ensures(BatchSignalLayout::new::<F>, (&tensor, w), layout),
    ensures
        layout.len == tensor.shape@[2],
        layout.stride == tensor.strides@[2],
        w == 0 ==> layout.offset == 0,
{
    let c = tensor.shape@[1] as int;
    let s0 = tensor.strides@[0] as int;
    let s1 = tensor.strides@[1] as int;
    assert((0int / c) * s0 + (0int % c) * s1 == 0) by (nonlinear_arith)
        requires
            c > 0,
    {
        assert(0int / c == 0);
        assert(0int % c == 0);
    }
    assert(w == 0 ==> tensor.offset(w as int) == 0);
}

/// The layout of a window starts one stride of the channels behind that of the channel before it,
/// and one stride of the batches behind that of the same channel in the batch before it.
pub proof fn law_layouts_step_by_strides<F>(
    tensor: Tensor<F>,
    w: usize,
    next: usize,
    layout: BatchSignalLayout,
    next_layout: BatchSignalLayout,
)
    requires
        tensor.wf(),
        w < next < tensor.shape@[0] * tensor.shape@[1],
        call_ensures(BatchSignalLayout::new::<F>, (&tensor, w), layout),
        call_ensures(BatchSignalLayout::new::<F>, (&tensor, next), next_layout),
    ensures
        next == w + 1 && next % tensor.shape@[1] != 0 ==> next_layout.offset == layout.offset
            + tensor.strides@[1],
        next == w + tensor.shape@[1] ==> next_layout.offset == layout.offset + tensor.strides@[0],
{
    lemma_window_has_channel(tensor);
    let c = tensor.shape@[1] as int;
    let s0 = tensor.strides@[0] as int;
    let s1 = tensor.strides@[1] as int;
    let v = w as int;
    let b = v / c;
    let r = v % c;
    assert(tensor.offset(v) <= usize::MAX);
    assert(tensor.offset(next as int) <= usize::MAX);
    assert(b >= 0 && 0 <= r < c && v == c * b + r) by (nonlinear_arith)
        requires
            c > 0,
            v >= 0,
            b == v / c,
            r == v % c,
    ;
    assert(b * s0 + r * s1 >= 0) by (nonlinear_arith)
        requires
            b >= 0,
            r >= 0,
            s0 >= 0,
            s1 >= 0,
    ;
    if next == w + 1 && next % tensor.shape@[1] != 0 {
        assert(r + 1 < c) by (nonlinear_arith)
            requires
                (v + 1) % c != 0,
                v == c * b + r,
                0 <= r < c,
        {
            if r + 1 == c {
                assert(v + 1 == c * (b + 1));
                vstd::arithmetic::div_mod::lemma_mod_multiples_basic(b + 1, c);
            }
        }
        vstd::arithmetic::div_mod::lemma_fundamental_div_mod_converse(v + 1, c, b, r + 1);
        assert((r + 1) * s1 == r * s1 + s1) by (nonlinear_arith);
        assert(tensor.offset(v + 1) == tensor.offset(v) + s1);
    }
    if next == w + tensor.shape@[1] {
        assert(v + c == (b + 1) * c + r) by (nonlinear_arith)
            requires
                v == c * b + r,
        ;
        vstd::arithmetic::div_mod::lemma_fundamental_div_mod_converse(v + c, c, b + 1, r);
        assert((b + 1) * s0 == b * s0 + s0) by (nonlinear_arith);
        assert(tensor.offset(v + c) == tensor.offset(v) + s0);
    }
}

/// Neighbours in a window lie one stride apart, and the first element lies at the start.
pub proof fn law_neighbours_are_a_stride_apart(
    layout: BatchSignalLayout,
    i: usize,
    next: usize,
    p: usize,
    next_p: usize,
)
    requires
        next == i + 1,
        call_ensures(BatchSignalLayout::position, (&layout, i), p),
        call_ensures(BatchSignalLayout::position, (&layout, next), next_p),
    ensures
        next_p == p + layout.stride,
        i == 0 ==> p == layout.offset,
{
    let stride = layout.stride as int;
    assert((i + 1) * stride == i * stride + stride) by (nonlinear_arith);
    assert(0 * stride == 0) by (nonlinear_arith);
}

/// A tensor that is laid out row by row, with an element for each of its places, is contiguous, and
/// its windows can be read and written.
pub proof fn law_rows_are_contiguous<F>(tensor: Tensor<F>)
    requires
        tensor.shape@.len() == 3,
        tensor.strides@.len() == 3,
        tensor.strides@[2] == 1,
        tensor.strides@[1] == tensor.shape@[2],
        tensor.strides@[0] == tensor.shape@[1] * tensor.shape@[2],
        tensor.data@.len() == tensor.shape@[0] * tensor.shape@[1] * tensor.shape@[2],
        tensor.shape@[0] * tensor.shape@[1] <= usize::MAX,
        tensor.line_size == 1,
    ensures
        tensor.contiguous(),
        tensor.wf(),
        writable(tensor),
{
    assert(tensor.strides@ =~= seq![
        (tensor.shape@[1] * tensor.shape@[2]) as usize,
        tensor.shape@[2],
        1usize,
    ]);
    law_contiguous_is_wf(tensor);
}

/// An allocation holds the tensor that it is for: its bytes are those of the data of every
/// contiguous tensor of its shape.
pub proof fn law_allocation_holds_tensor<F>(
    shape: Vec<usize>,
    dtype: crate::shape::FloatKind,
    allocation: crate::shape::Allocation,
    tensor: Tensor<F>,
)
    requires
        call_ensures(crate::shape::contiguous_allocation, (shape, dtype), allocation),
        tensor.contiguous(),
        tensor.shape@ == allocation.shape@,
    ensures
        allocation.num_bytes == tensor.data@.len() * dtype.bytes(),
        tensor.data@.len() == shape@[0] * shape@[1] * shape@[2],
{
    law_allocation_holds_data(tensor);
}

/// The layout of a window covers its positions and no other.
pub(crate) proof fn lemma_covers_positions<F>(tensor: Tensor<F>, w: int, p: int)
    requires
        0 <= tensor.offset(w) <= usize::MAX,
    ensures
        BatchSignalLayout::of(tensor, w).covers(p) ==> exists|k: int|
            0 <= k < tensor.shape@[2] && p == #[trigger] tensor.position(w, k),
{
    let layout = BatchSignalLayout::of(tensor, w);
    if layout.covers(p) {
        let k = choose|k: int| 0 <= k < layout.len && p == #[trigger] layout.spec_position(k);
        assert(tensor.position(w, k) == p);
    }
}

} // verus!
