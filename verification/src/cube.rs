//! How many units a kernel is launched with, and how they are grouped into cubes.

use vstd::prelude::*;

verus! {

/// What the choice of a launch geometry reads of the hardware.
#[derive(Clone, Copy, Debug, PartialEq, Eq, Structural)]
pub struct HardwareProperties {
    /// The smallest number of units that run in lockstep.
    pub plane_size_min: u32,
    /// The number of parallel cpu units, where the device is a cpu.
    pub num_cpu_cores: Option<u32>,
}

/// The number of units of a cube along each axis.
#[derive(Clone, Copy, Debug, PartialEq, Eq, Structural)]
pub struct CubeDim {
    pub x: u32,
    pub y: u32,
    pub z: u32,
}

/// The number of cubes of a launch.
#[derive(Clone, Copy, Debug, PartialEq, Eq, Structural)]
pub enum CubeCount {
    /// The number of cubes along each axis.
    Static(u32, u32, u32),
    /// The device reads the number of cubes from one of its buffers.
    Dynamic,
}

impl CubeDim {
    /// The number of units of one cube.
    pub open spec fn units(self) -> int {
        self.x * self.y * self.z
    }
}

impl CubeCount {
    /// The number of cubes, where it is known before the launch.
    pub open spec fn cubes(self) -> int {
        match self {
            CubeCount::Static(x, y, z) => x * y * z,
            CubeCount::Dynamic => 0,
        }
    }
}

/// The number of units that a launch of `count` cubes of `dim` units starts.
pub open spec fn launched_units(dim: CubeDim, count: CubeCount) -> int {
    dim.units() * count.cubes()
}

/// `CubeDim::new_single` of `cubecl`: one unit along each axis.
#[verifier::external_body]
fn cube_dim_single() -> (dim: CubeDim)
    ensures
        dim == (CubeDim { x: 1, y: 1, z: 1 }),
{
    let dim = cubecl::CubeDim::new_single();
    CubeDim { x: dim.x, y: dim.y, z: dim.z }
}

/// `CubeDim::new_2d` of `cubecl`: the given units along the first two axes, one along the third.
#[verifier::external_body]
fn cube_dim_2d(x: u32, y: u32) -> (dim: CubeDim)
    ensures
        dim == (CubeDim { x, y, z: 1 }),
{
    let dim = cubecl::CubeDim::new_2d(x, y);
    CubeDim { x: dim.x, y: dim.y, z: dim.z }
}

/// `CubeDim::num_elems` of `cubecl`: the product of the three axes, taken from left to right in
/// 32 bits.
#[verifier::external_body]
fn cube_dim_num_elems(dim: CubeDim) -> (units: u32)
    requires
        dim.x * dim.y <= u32::MAX,
        dim.units() <= u32::MAX,
    ensures
        units == dim.units(),
{
    cubecl::CubeDim { x: dim.x, y: dim.y, z: dim.z }.num_elems()
}

/// `CubeCount::new_1d` of `cubecl`: a static count with the given cubes along the first axis and
/// one along the others.
#[verifier::external_body]
fn cube_count_1d(x: u32) -> (count: CubeCount)
    ensures
        count == CubeCount::Static(x, 1, 1),
{
    match cubecl::CubeCount::new_1d(x) {
        cubecl::CubeCount::Static(x, y, z) => CubeCount::Static(x, y, z),
        cubecl::CubeCount::Dynamic(_) => CubeCount::Dynamic,
    }
}

/// The number of iterations that a launch sees: counts on the device have 32 bits, and a larger
/// number wraps around.
pub open spec fn device_iterations(num_iter: usize) -> int {
    num_iter as int % 0x1_0000_0000
}

/// Whether every cube is to hold a single unit.
pub open spec fn single_unit_cubes(hw: HardwareProperties, force_no_cube_dim_gpu: bool) -> bool {
    hw.num_cpu_cores is None && force_no_cube_dim_gpu
}

/// The number of planes of a cube: as many as there are cores, but no more than there are full
/// planes of iterations, and at least one.
pub open spec fn planes_per_cube(hw: HardwareProperties, num_iter: usize) -> int {
    let cores = match hw.num_cpu_cores {
        Some(num_cores) => num_cores as int,
        None => 1,
    };
    let full_planes = device_iterations(num_iter) / hw.plane_size_min as int;
    let planes = if cores <= full_planes { cores } else { full_planes };
    if planes >= 1 { planes } else { 1 }
}

/// The number of cubes of whole planes: those that the iterations fill, and one more.
pub open spec fn plane_cubes(hw: HardwareProperties, num_iter: usize) -> int {
    device_iterations(num_iter) / (hw.plane_size_min * planes_per_cube(hw, num_iter)) + 1
}

/// Whether a geometry for `num_iter` iterations exists: cubes of whole planes need planes of at
/// least one unit, and a number of cubes that fits in 32 bits.
pub open spec fn selectable(
    hw: HardwareProperties,
    num_iter: usize,
    force_no_cube_dim_gpu: bool,
) -> bool {
    single_unit_cubes(hw, force_no_cube_dim_gpu) || (hw.plane_size_min > 0 && plane_cubes(
        hw,
        num_iter,
    ) <= u32::MAX)
}

/// The geometry that `cube_selection` picks.
pub open spec fn selection(
    hw: HardwareProperties,
    num_iter: usize,
    force_no_cube_dim_gpu: bool,
) -> (CubeDim, CubeCount, bool) {
    if single_unit_cubes(hw, force_no_cube_dim_gpu) {
        (
            CubeDim { x: 1, y: 1, z: 1 },
            CubeCount::Static(device_iterations(num_iter) as u32, 1, 1),
            true,
        )
    } else {
        (
            CubeDim { x: hw.plane_size_min, y: planes_per_cube(hw, num_iter) as u32, z: 1 },
            CubeCount::Static(plane_cubes(hw, num_iter) as u32, 1, 1),
            false,
        )
    }
}

proof fn lemma_planes_fit(hw: HardwareProperties, num_iter: usize)
    requires
        hw.plane_size_min > 0,
    ensures
        1 <= planes_per_cube(hw, num_iter) <= u32::MAX,
        hw.plane_size_min <= hw.plane_size_min * planes_per_cube(hw, num_iter) <= u32::MAX,
{
    let plane = hw.plane_size_min as int;
    let n = device_iterations(num_iter);
    let planes = planes_per_cube(hw, num_iter);
    assert(0 <= n <= u32::MAX);
    assert(plane * (n / plane) <= n) by (nonlinear_arith)
        requires
            plane > 0,
            n >= 0,
    ;
    assert(n / plane <= n) by (nonlinear_arith)
        requires
            plane > 0,
            n >= 0,
    ;
    if planes > 1 {
        assert(plane * planes <= plane * (n / plane)) by (nonlinear_arith)
            requires
                plane > 0,
                planes <= n / plane,
        ;
    } else {
        assert(plane * planes == plane) by (nonlinear_arith)
            requires
                planes == 1,
        ;
    }
    assert(plane <= plane * planes) by (nonlinear_arith)
        requires
            plane > 0,
            planes >= 1,
    ;
}

/// The number of iterations that a launch sees.
fn wrapped_iterations(num_iter: usize) -> (iterations: u32)
    ensures
        iterations == device_iterations(num_iter),
{
    assert(num_iter as u32 == num_iter as u64 % 0x1_0000_0000) by (bit_vector);
    #[verifier::truncate]
    (num_iter as u32)
}

/// The number of planes of a cube.
fn planes(hw: &HardwareProperties, num_iter: usize) -> (planes: u32)
    requires
        hw.plane_size_min > 0,
    ensures
        planes == planes_per_cube(*hw, num_iter),
{
    let cores: u32 = match hw.num_cpu_cores {
        Some(num_cores) => num_cores,
        None => 1,
    };
    let full_planes: u32 = wrapped_iterations(num_iter) / hw.plane_size_min;
    let planes: u32 = if cores <= full_planes { cores } else { full_planes };
    if planes >= 1 { planes } else { 1 }
}

/// Whether a geometry for `num_iter` iterations exists.
pub fn is_selectable(
    hw: &HardwareProperties,
    num_iter: usize,
    force_no_cube_dim_gpu: bool,
) -> (ok: bool)
    ensures
        ok == selectable(*hw, num_iter, force_no_cube_dim_gpu),
{
    if hw.num_cpu_cores.is_none() && force_no_cube_dim_gpu {
        return true;
    }
    if hw.plane_size_min == 0 {
        return false;
    }
    let iterations: u32 = wrapped_iterations(num_iter);
    let planes: u32 = planes(hw, num_iter);
    proof {
        lemma_planes_fit(*hw, num_iter);
    }
    iterations / (hw.plane_size_min * planes) < u32::MAX
}

/// Whether a kernel can be launched with one unit per window of a tensor: the first two dimensions
/// count the windows.
pub open spec fn launchable(
    hw: HardwareProperties,
    shape: Seq<usize>,
    force_no_cube_dim_gpu: bool,
) -> bool {
    &&& shape.len() >= 2
    &&& shape[0] * shape[1] <= usize::MAX
    &&& selectable(hw, (shape[0] * shape[1]) as usize, force_no_cube_dim_gpu)
}

/// Whether a kernel can be launched with one unit per window of a tensor.
pub fn is_launchable(
    hw: &HardwareProperties,
    shape: &Vec<usize>,
    force_no_cube_dim_gpu: bool,
) -> (ok: bool)
    ensures
        ok == launchable(*hw, shape@, force_no_cube_dim_gpu),
{
    if shape.len() < 2 {
        return false;
    }
    match shape[0].checked_mul(shape[1]) {
        Some(num_iter) => is_selectable(hw, num_iter, force_no_cube_dim_gpu),
        None => false,
    }
}

/// Chooses the cubes that cover `num_iter` iterations, one unit each.
///
/// On a cpu a cube takes up to one plane per core, elsewhere one plane; one cube more than the
/// iterations fill is launched. Where `force_no_cube_dim_gpu` is set and the device is no cpu,
/// every cube holds one unit and there is one cube per iteration. The last component says that
/// this is so.
pub fn cube_selection(
    hw: &HardwareProperties,
    num_iter: usize,
    force_no_cube_dim_gpu: bool,
) -> (selected: (CubeDim, CubeCount, bool))
    requires
        selectable(*hw, num_iter, force_no_cube_dim_gpu),
    ensures
        selected == selection(*hw, num_iter, force_no_cube_dim_gpu),
{
    let iterations: u32 = wrapped_iterations(num_iter);
    if hw.num_cpu_cores.is_none() && force_no_cube_dim_gpu {
        return (cube_dim_single(), cube_count_1d(iterations), force_no_cube_dim_gpu);
    }
    let planes: u32 = planes(hw, num_iter);
    proof {
        lemma_planes_fit(*hw, num_iter);
    }
    let cube_dim = cube_dim_2d(hw.plane_size_min, planes);
    let cubes: u32 = iterations / cube_dim_num_elems(cube_dim);
    (cube_dim, cube_count_1d(cubes + 1), false)
}

/// Every iteration has its unit: as long as the number of iterations fits in 32 bits, a launch
/// starts at least one unit per iteration, and exactly one where every cube holds one unit.
pub proof fn law_selection_covers_iterations(
    hw: HardwareProperties,
    num_iter: usize,
    force_no_cube_dim_gpu: bool,
)
    requires
        selectable(hw, num_iter, force_no_cube_dim_gpu),
        num_iter <= u32::MAX,
    ensures
        ({
            let (dim, count, single) = selection(hw, num_iter, force_no_cube_dim_gpu);
            &&& num_iter <= launched_units(dim, count)
            &&& single ==> num_iter == launched_units(dim, count)
        }),
{
    let (dim, count, single) = selection(hw, num_iter, force_no_cube_dim_gpu);
    let n = num_iter as int;
    if single {
        assert(dim.units() == 1) by (nonlinear_arith)
            requires
                dim.x == 1 && dim.y == 1 && dim.z == 1,
        ;
        assert(dim.units() * count.cubes() == n) by (nonlinear_arith)
            requires
                dim.units() == 1,
                count.cubes() == n,
        ;
    } else {
        lemma_planes_fit(hw, num_iter);
        let units = hw.plane_size_min * planes_per_cube(hw, num_iter);
        assert(dim.units() == units);
        assert(count.cubes() == n / units + 1);
        assert(n < units * (n / units + 1)) by (nonlinear_arith)
            requires
                units > 0,
                n >= 0,
        ;
    }
}

/// Cubes are forced to a single unit only on request and never on a cpu; all other cubes consist
/// of whole planes, of which a cpu gives each core at most one.
pub proof fn law_selection_shape(
    hw: HardwareProperties,
    num_iter: usize,
    force_no_cube_dim_gpu: bool,
)
    requires
        selectable(hw, num_iter, force_no_cube_dim_gpu),
    ensures
        ({
            let (dim, count, single) = selection(hw, num_iter, force_no_cube_dim_gpu);
            &&& single <==> force_no_cube_dim_gpu && hw.num_cpu_cores is None
            &&& single ==> dim.units() == 1
            &&& !single ==> dim.x == hw.plane_size_min && dim.y >= 1 && dim.z == 1
            &&& !single && dim.y > 1 ==> hw.num_cpu_cores is Some && dim.y
                <= hw.num_cpu_cores->Some_0
        }),
{
    let dim = selection(hw, num_iter, force_no_cube_dim_gpu).0;
    if single_unit_cubes(hw, force_no_cube_dim_gpu) {
        assert(dim.units() == 1) by (nonlinear_arith)
            requires
                dim.x == 1 && dim.y == 1 && dim.z == 1,
        ;
    } else {
        lemma_planes_fit(hw, num_iter);
    }
}

/// A cube is as large as cores and iterations allow. Where cubes consist of planes, one plane more
/// would exceed the cores or the iterations, and no plane but the first does. Off a cpu a cube has
/// one plane.
pub proof fn law_cubes_use_all_cores(
    hw: HardwareProperties,
    num_iter: usize,
    force_no_cube_dim_gpu: bool,
    dim: CubeDim,
    count: CubeCount,
    single: bool,
)
    requires
        num_iter <= u32::MAX,
        hw.plane_size_min > 0,
        !(hw.num_cpu_cores is None && force_no_cube_dim_gpu),
        call_ensures(
            cube_selection,
            (&hw, num_iter, force_no_cube_dim_gpu),
            (dim, count, single),
        ),
    ensures
        !single,
        dim.x == hw.plane_size_min,
        dim.z == 1,
        dim.y >= 1,
        dim.y > 1 ==> hw.plane_size_min * dim.y <= num_iter,
        hw.num_cpu_cores is None ==> dim.y == 1,
        hw.num_cpu_cores matches Some(cores) ==> {
            &&& dim.y == 1 || dim.y <= cores
            &&& dim.y < cores ==> hw.plane_size_min * (dim.y + 1) > num_iter
        },
{
    let plane = hw.plane_size_min as int;
    let n = num_iter as int;
    let y = dim.y as int;
    lemma_planes_fit(hw, num_iter);
    assert(device_iterations(num_iter) == n);
    if y > 1 {
        assert(plane * y <= n) by (nonlinear_arith)
            requires
                plane > 0,
                n >= 0,
                y <= n / plane,
        ;
    }
    if hw.num_cpu_cores is Some && y < hw.num_cpu_cores->Some_0 {
        assert(plane * (y + 1) > n) by (nonlinear_arith)
            requires
                plane > 0,
                n >= 0,
                y >= n / plane,
        ;
    }
}

/// No cube is launched in vain but the last: cubes lie along one axis, the iterations go beyond all
/// but one of them, and not beyond all of them.
pub proof fn law_cubes_are_few(
    hw: HardwareProperties,
    num_iter: usize,
    force_no_cube_dim_gpu: bool,
    dim: CubeDim,
    x: u32,
    y: u32,
    z: u32,
    single: bool,
)
    requires
        num_iter <= u32::MAX,
        single || hw.plane_size_min > 0,
        single || num_iter < u32::MAX || dim.x * dim.y > 1,
        call_ensures(
            cube_selection,
            (&hw, num_iter, force_no_cube_dim_gpu),
            (dim, CubeCount::Static(x, y, z), single),
        ),
    ensures
        y == 1,
        z == 1,
        single ==> dim.x == 1 && dim.y == 1 && dim.z == 1 && x == num_iter,
        !single ==> (dim.x * dim.y) * (x - 1) <= num_iter < (dim.x * dim.y) * x,
{
    if !single {
        lemma_planes_fit(hw, num_iter);
        let n = num_iter as int;
        let units = hw.plane_size_min * planes_per_cube(hw, num_iter);
        assert(device_iterations(num_iter) == n);
        assert(n / units <= n) by (nonlinear_arith)
            requires
                units > 0,
                n >= 0,
        ;
        if units > 1 {
            assert(n / units <= n / 2) by (nonlinear_arith)
                requires
                    units > 1,
                    n >= 0,
            ;
        }
        assert(units * (n / units) <= n < units * (n / units + 1)) by (nonlinear_arith)
            requires
                units > 0,
                n >= 0,
        ;
    }
}

/// The number of cubes is always known before the launch.
pub proof fn law_cube_count_is_static(
    hw: HardwareProperties,
    num_iter: usize,
    force_no_cube_dim_gpu: bool,
    selected: (CubeDim, CubeCount, bool),
)
    requires
        call_ensures(cube_selection, (&hw, num_iter, force_no_cube_dim_gpu), selected),
    ensures
        selected.1 is Static,
        selected.2 <==> force_no_cube_dim_gpu && hw.num_cpu_cores is None,
{
}

/// Counts on the device have 32 bits: numbers of iterations that agree in these are launched alike.
pub proof fn law_iterations_wrap(
    hw: HardwareProperties,
    num_iter: usize,
    other: usize,
    force_no_cube_dim_gpu: bool,
    selected: (CubeDim, CubeCount, bool),
    other_selected: (CubeDim, CubeCount, bool),
)
    requires
        other == num_iter + 0x1_0000_0000,
        call_ensures(cube_selection, (&hw, num_iter, force_no_cube_dim_gpu), selected),
        call_ensures(cube_selection, (&hw, other, force_no_cube_dim_gpu), other_selected),
    ensures
        selected == other_selected,
{
    assert(device_iterations(num_iter) == device_iterations(other));
}

/// Numbers of iterations that agree in their 32 bits are refused alike.
pub proof fn law_refusals_wrap(
    hw: HardwareProperties,
    num_iter: usize,
    other: usize,
    force_no_cube_dim_gpu: bool,
    ok: bool,
    other_ok: bool,
)
    requires
        other == num_iter + 0x1_0000_0000,
        call_ensures(is_selectable, (&hw, num_iter, force_no_cube_dim_gpu), ok),
        call_ensures(is_selectable, (&hw, other, force_no_cube_dim_gpu), other_ok),
    ensures
        ok == other_ok,
{
    assert(device_iterations(num_iter) == device_iterations(other));
}

/// A geometry is refused only where planes have no units, or where the number of cubes is one too
/// many for 32 bits: that takes all 32-bit iterations and cubes of a single unit.
pub proof fn law_selection_is_refused_rarely(
    hw: HardwareProperties,
    num_iter: usize,
    force_no_cube_dim_gpu: bool,
    ok: bool,
)
    requires
        num_iter <= u32::MAX,
        call_ensures(is_selectable, (&hw, num_iter, force_no_cube_dim_gpu), ok),
    ensures
        hw.num_cpu_cores is None && force_no_cube_dim_gpu ==> ok,
        !(hw.num_cpu_cores is None && force_no_cube_dim_gpu) ==> (!ok <==> hw.plane_size_min == 0
            || (num_iter == u32::MAX && hw.plane_size_min == 1 && (hw.num_cpu_cores matches Some(
            cores,
        ) ==> cores <= 1))),
        ok ==> call_requires(cube_selection, (&hw, num_iter, force_no_cube_dim_gpu)),
{
    if hw.plane_size_min > 0 {
        lemma_planes_fit(hw, num_iter);
        let n = num_iter as int;
        let plane = hw.plane_size_min as int;
        let planes = planes_per_cube(hw, num_iter);
        let units = plane * planes;
        assert(device_iterations(num_iter) == n);
        if plane == 1 && planes == 1 {
            assert(units == 1) by (nonlinear_arith)
                requires
                    units == plane * planes,
                    plane == 1,
                    planes == 1,
            ;
            assert(n / 1 == n);
        } else {
            assert(units >= 2) by (nonlinear_arith)
                requires
                    units == plane * planes,
                    plane >= 1,
                    planes >= 1,
                    plane > 1 || planes > 1,
            ;
            assert(n / units <= n / 2) by (nonlinear_arith)
                requires
                    units >= 2,
                    n >= 0,
            ;
        }
        if plane == 1 {
            assert(n / plane == n);
        }
    }
}

/// A tensor can be launched on where its first two dimensions are there, their product can be
/// counted, and that many iterations can be launched. Other dimensions play no part.
pub proof fn law_launch_counts_windows(
    hw: HardwareProperties,
    shape: Vec<usize>,
    force_no_cube_dim_gpu: bool,
    windows: usize,
    ok: bool,
    windows_ok: bool,
)
    requires
        call_ensures(is_launchable, (&hw, &shape, force_no_cube_dim_gpu), ok),
        call_ensures(is_selectable, (&hw, windows, force_no_cube_dim_gpu), windows_ok),
    ensures
        shape@.len() < 2 ==> !ok,
        shape@.len() >= 2 && shape@[0] * shape@[1] > usize::MAX ==> !ok,
        shape@.len() >= 2 && shape@[0] * shape@[1] == windows ==> ok == windows_ok,
{
}

} // verus!
