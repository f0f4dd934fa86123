//! Shapes of tensors and the memory they take.

use vstd::prelude::*;

verus! {

/// The kinds of floating-point numbers that a tensor can store.
#[derive(Clone, Copy, Debug, PartialEq, Eq, Structural)]
pub enum FloatKind {
    /// 4 bits, 2 of them for the exponent.
    E2M1,
    /// 6 bits, 2 of them for the exponent, stored in a byte.
    E2M3,
    /// 6 bits, 3 of them for the exponent, stored in a byte.
    E3M2,
    /// 8 bits, 4 of them for the exponent.
    E4M3,
    /// 8 bits, 5 of them for the exponent.
    E5M2,
    /// 8 bits, all of them for the exponent.
    UE8M0,
    F16,
    BF16,
    Flex32,
    F32,
    TF32,
    F64,
}

impl FloatKind {
    /// The number of bytes that one element takes.
    pub open spec fn bytes(self) -> int {
        match self {
            FloatKind::F16 | FloatKind::BF16 => 2,
            FloatKind::Flex32 | FloatKind::F32 | FloatKind::TF32 => 4,
            FloatKind::F64 => 8,
            _ => 1,
        }
    }
}

/// `StorageType::size` of `cubecl` on a scalar float: the bytes of one element, where a number of
/// less than eight bits takes a whole byte.
#[verifier::external_body]
fn storage_size(dtype: FloatKind) -> (size: usize)
    ensures
        size == dtype.bytes(),
{
    let kind = match dtype {
        FloatKind::E2M1 => cubecl::ir::FloatKind::E2M1,
        FloatKind::E2M3 => cubecl::ir::FloatKind::E2M3,
        FloatKind::E3M2 => cubecl::ir::FloatKind::E3M2,
        FloatKind::E4M3 => cubecl::ir::FloatKind::E4M3,
        FloatKind::E5M2 => cubecl::ir::FloatKind::E5M2,
        FloatKind::UE8M0 => cubecl::ir::FloatKind::UE8M0,
        FloatKind::F16 => cubecl::ir::FloatKind::F16, FloatKind::BF16 => cubecl::ir::FloatKind::BF16,
        FloatKind::Flex32 => cubecl::ir::FloatKind::Flex32,
        FloatKind::F32 => cubecl::ir::FloatKind::F32, FloatKind::TF32 => cubecl::ir::FloatKind::TF32,
        FloatKind::F64 => cubecl::ir::FloatKind::F64,
    };
    cubecl::ir::StorageType::Scalar(cubecl::ir::ElemType::Float(kind)).size()
}

/// The number of elements of a tensor: the product of its dimensions.
pub open spec fn elements(shape: Seq<usize>) -> int
    decreases shape.len(),
{
    if shape.len() == 0 {
        1
    } else {
        elements(shape.drop_last()) * shape.last()
    }
}

/// Whether the dimensions can be multiplied up, from first to last, in a `usize`.
pub open spec fn countable(shape: Seq<usize>) -> bool {
    forall|k: int| 0 <= k <= shape.len() ==> elements(#[trigger] shape.take(k)) <= usize::MAX
}

/// A tensor to be allocated.
#[derive(Debug)]
pub struct Allocation {
    /// The dimensions of the tensor.
    pub shape: Vec<usize>,
    /// The bytes that its elements take.
    pub num_bytes: usize,
}

impl Allocation {
    /// Whether this is the allocation of a contiguous tensor of the given shape and kind.
    pub open spec fn is_for(self, shape: Seq<usize>, dtype: FloatKind) -> bool {
        &&& self.shape@ == shape
        &&& self.num_bytes == elements(shape) * dtype.bytes()
    }
}

/// Whether the size in bytes of a tensor can be counted in a `usize`.
pub open spec fn allocatable(shape: Seq<usize>, dtype: FloatKind) -> bool {
    countable(shape) && elements(shape) * dtype.bytes() <= usize::MAX
}

/// The number of elements of a tensor of the given shape.
pub fn num_elements(shape: &Vec<usize>) -> (count: usize)
    requires
        countable(shape@),
    ensures
        count == elements(shape@),
{
    let mut count: usize = 1;
    assert(shape@.take(0) =~= Seq::empty());
    for i in 0..shape.len()
        invariant
            countable(shape@),
            count == elements(shape@.take(i as int)),
    {
        assert(shape@.take(i + 1).drop_last() =~= shape@.take(i as int));
        assert(elements(shape@.take(i + 1)) == count * shape@[i as int]);
        count = count * shape[i];
    }
    assert(shape@.take(shape@.len() as int) =~= shape@);
    count
}

/// Whether the size in bytes of a tensor can be counted.
pub fn is_allocatable(shape: &Vec<usize>, dtype: FloatKind) -> (ok: bool)
    ensures
        ok == allocatable(shape@, dtype),
{
    let mut count: usize = 1;
    assert(shape@.take(0) =~= Seq::empty());
    for i in 0..shape.len()
        invariant
            count == elements(shape@.take(i as int)),
            forall|k: int| 0 <= k <= i ==> elements(#[trigger] shape@.take(k)) <= usize::MAX,
    {
        assert(shape@.take(i + 1).drop_last() =~= shape@.take(i as int));
        assert(elements(shape@.take(i + 1)) == count * shape@[i as int]);
        match count.checked_mul(shape[i]) {
            Some(product) => {
                count = product;
            },
            None => {
                return false;
            },
        }
    }
    assert(shape@.take(shape@.len() as int) =~= shape@);
    count.checked_mul(storage_size(dtype)).is_some()
}

/// The allocation of a contiguous tensor.
pub fn contiguous_allocation(shape: Vec<usize>, dtype: FloatKind) -> (allocation: Allocation)
    requires
        allocatable(shape@, dtype),
    ensures
        allocation.is_for(shape@, dtype),
{
    let num_bytes: usize = num_elements(&shape) * storage_size(dtype);
    Allocation { shape, num_bytes }
}

/// Whether two shapes have the same dimensions.
pub(crate) fn same_shape(a: &Vec<usize>, b: &Vec<usize>) -> (same: bool)
    ensures
        same == (a@ == b@),
{
    if a.len() != b.len() {
        return false;
    }
    for i in 0..a.len()
        invariant
            a@.len() == b@.len(),
            forall|j: int| 0 <= j < i ==> a@[j] == b@[j],
    {
        if a[i] != b[i] {
            return false;
        }
    }
    assert(a@ =~= b@);
    true
}

/// A copy of a shape with another last dimension.
pub(crate) fn with_last(shape: &Vec<usize>, last: usize) -> (changed: Vec<usize>)
    requires
        shape@.len() > 0,
    ensures
        changed@ == shape@.update(shape@.len() - 1, last),
{
    let mut changed: Vec<usize> = Vec::new();
    for i in 0..shape.len()
        invariant
            changed@ == shape@.take(i as int),
    {
        changed.push(shape[i]);
    }
    assert(changed@ =~= shape@);
    let dim: usize = shape.len() - 1;
    changed.set(dim, last);
    changed
}

/// A tensor with one dimension more has that many times as many elements, and one without
/// dimensions a single element.
pub proof fn law_dimensions_multiply(
    shape: Vec<usize>,
    longer: Vec<usize>,
    dim: usize,
    count: usize,
    longer_count: usize,
)
    requires
        longer@ == shape@.push(dim),
        call_ensures(num_elements, (&shape,), count),
        call_ensures(num_elements, (&longer,), longer_count),
    ensures
        longer_count == count * dim,
        shape@.len() == 0 ==> count == 1,
{
    assert(longer@.drop_last() =~= shape@);
}

/// What is allocated has the shape that was asked for, and the bytes of one element for each
/// element.
pub proof fn law_allocation_takes_all_elements(
    shape: Vec<usize>,
    dtype: FloatKind,
    count: usize,
    allocation: Allocation,
)
    requires
        call_ensures(num_elements, (&shape,), count),
        call_ensures(contiguous_allocation, (shape, dtype), allocation),
    ensures
        allocation.shape@ == shape@,
        allocation.num_bytes == count * dtype.bytes(),
{
}

/// A dimension more multiplies the bytes of an allocation, and the allocation without dimensions
/// takes the bytes of one element.
pub proof fn law_allocation_grows_with_dimensions(
    shape: Vec<usize>,
    longer: Vec<usize>,
    dim: usize,
    dtype: FloatKind,
    allocation: Allocation,
    longer_allocation: Allocation,
)
    requires
        longer@ == shape@.push(dim),
        call_ensures(contiguous_allocation, (shape, dtype), allocation),
        call_ensures(contiguous_allocation, (longer, dtype), longer_allocation),
    ensures
        longer_allocation.num_bytes == allocation.num_bytes * dim,
        shape@.len() == 0 ==> allocation.num_bytes == dtype.bytes(),
{
    assert(longer@.drop_last() =~= shape@);
    let count = elements(shape@);
    let bytes = dtype.bytes();
    assert((count * dim) * bytes == (count * bytes) * dim) by (nonlinear_arith);
}

/// The same shape takes twice the bytes in numbers of twice the width: the widest numbers take
/// eight times the bytes of the narrowest, which take one byte per element.
pub proof fn law_bytes_follow_width(
    shape: Vec<usize>,
    count: usize,
    narrow: FloatKind,
    half: FloatKind,
    full: FloatKind,
    in_narrow: Allocation,
    in_half: Allocation,
    in_full: Allocation,
    in_double: Allocation,
)
    requires
        narrow is E2M1 || narrow is E2M3 || narrow is E3M2 || narrow is E4M3 || narrow is E5M2
            || narrow is UE8M0,
        half is F16 || half is BF16,
        full is F32 || full is TF32 || full is Flex32,
        call_ensures(num_elements, (&shape,), count),
        call_ensures(contiguous_allocation, (shape, narrow), in_narrow),
        call_ensures(contiguous_allocation, (shape, half), in_half),
        call_ensures(contiguous_allocation, (shape, full), in_full),
        call_ensures(contiguous_allocation, (shape, FloatKind::F64), in_double),
    ensures
        in_narrow.num_bytes == count,
        in_half.num_bytes == 2 * in_narrow.num_bytes,
        in_full.num_bytes == 2 * in_half.num_bytes,
        in_double.num_bytes == 2 * in_full.num_bytes,
{
}

/// A tensor can be allocated as long as its elements can be counted, dimension by dimension, and
/// its bytes too. One without dimensions always can.
pub proof fn law_allocation_is_refused_where_it_overflows(
    shape: Vec<usize>,
    longer: Vec<usize>,
    dim: usize,
    dtype: FloatKind,
    count: usize,
    countable: bool,
    ok: bool,
    longer_ok: bool,
)
    requires
        longer@ == shape@.push(dim),
        call_ensures(num_elements, (&shape,), count),
        call_ensures(is_allocatable, (&shape, FloatKind::E4M3), countable),
        call_ensures(is_allocatable, (&shape, dtype), ok),
        call_ensures(is_allocatable, (&longer, dtype), longer_ok),
    ensures
        longer_ok <==> countable && (count * dim) * dtype.bytes() <= usize::MAX,
        ok <==> countable && count * dtype.bytes() <= usize::MAX,
        shape@.len() == 0 ==> ok,
        ok ==> call_requires(contiguous_allocation, (shape, dtype)),
{
    assert(longer@.drop_last() =~= shape@);
    let n = shape@.len() as int;
    assert(longer@.take(n + 1) =~= longer@);
    assert(longer@.take(n) =~= shape@);
    assert(shape@.take(n) =~= shape@);
    assert(elements(longer@) == count * dim);
    assert(elements(longer@.take(n)) == count);
    assert(FloatKind::E4M3.bytes() == 1);
    let bytes = dtype.bytes();
    assert(count * dim <= (count * dim) * bytes) by (nonlinear_arith)
        requires
            bytes >= 1,
            count * dim >= 0,
    ;
    assert(count * dim >= 0) by (nonlinear_arith);
    if self::countable(shape@) {
        assert forall|k: int| 0 <= k <= n + 1 && (count * dim) * bytes
            <= usize::MAX implies elements(#[trigger] longer@.take(k)) <= usize::MAX by {
            if k <= n {
                assert(longer@.take(k) =~= shape@.take(k));
            }
        }
    }
    if self::countable(longer@) {
        assert forall|k: int| 0 <= k <= n implies elements(#[trigger] shape@.take(k))
            <= usize::MAX by {
            assert(longer@.take(k) =~= shape@.take(k));
        }
    }
}

/// No dimension mends an overflow: where a tensor is too large even in the narrowest numbers, so is
/// every tensor with one dimension more.
pub proof fn law_overflow_stays(
    shape: Vec<usize>,
    longer: Vec<usize>,
    dim: usize,
    dtype: FloatKind,
    ok: bool,
    longer_ok: bool,
)
    requires
        longer@ == shape@.push(dim),
        call_ensures(is_allocatable, (&shape, FloatKind::E4M3), ok),
        call_ensures(is_allocatable, (&longer, dtype), longer_ok),
    ensures
        !ok ==> !longer_ok,
{
    let n = shape@.len() as int;
    assert(shape@.take(n) =~= shape@);
    if longer_ok {
        assert forall|k: int| 0 <= k <= n implies elements(#[trigger] shape@.take(k))
            <= usize::MAX by {
            assert(longer@.take(k) =~= shape@.take(k));
        }
        assert(elements(shape@.take(n)) <= usize::MAX);
    }
}

} // verus!
