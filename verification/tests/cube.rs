use cubefx_engine::cube::{cube_selection, is_selectable, CubeCount, CubeDim, HardwareProperties};

fn gpu(plane_size_min: u32) -> HardwareProperties {
    HardwareProperties { plane_size_min, num_cpu_cores: None }
}

fn cpu(plane_size_min: u32, cores: u32) -> HardwareProperties {
    HardwareProperties { plane_size_min, num_cpu_cores: Some(cores) }
}

fn units(dim: CubeDim, count: CubeCount) -> u64 {
    match count {
        CubeCount::Static(x, y, z) => {
            dim.x as u64 * dim.y as u64 * dim.z as u64 * x as u64 * y as u64 * z as u64
        }
        CubeCount::Dynamic => panic!("the count is known"),
    }
}

#[test]
fn gpu_takes_one_plane_per_cube() {
    let selected = cube_selection(&gpu(32), 100, false);
    assert_eq!(selected, (CubeDim { x: 32, y: 1, z: 1 }, CubeCount::Static(4, 1, 1), false));
}

#[test]
fn gpu_forced_takes_one_unit_per_cube() {
    let selected = cube_selection(&gpu(32), 100, true);
    assert_eq!(selected, (CubeDim { x: 1, y: 1, z: 1 }, CubeCount::Static(100, 1, 1), true));
}

#[test]
fn forced_single_units_need_no_plane_size() {
    let selected = cube_selection(&gpu(0), 7, true);
    assert_eq!(selected, (CubeDim { x: 1, y: 1, z: 1 }, CubeCount::Static(7, 1, 1), true));
}

#[test]
fn cpu_takes_one_plane_per_core() {
    let selected = cube_selection(&cpu(4, 8), 100, true);
    assert_eq!(selected, (CubeDim { x: 4, y: 8, z: 1 }, CubeCount::Static(4, 1, 1), false));
    assert_eq!(cube_selection(&cpu(4, 8), 100, false), selected);
}

#[test]
fn cpu_takes_no_more_planes_than_are_full() {
    let selected = cube_selection(&cpu(4, 8), 13, false);
    assert_eq!(selected, (CubeDim { x: 4, y: 3, z: 1 }, CubeCount::Static(2, 1, 1), false));
}

#[test]
fn a_cube_has_at_least_one_plane() {
    let selected = cube_selection(&cpu(16, 8), 3, false);
    assert_eq!(selected, (CubeDim { x: 16, y: 1, z: 1 }, CubeCount::Static(1, 1, 1), false));
    let selected = cube_selection(&cpu(16, 0), 64, false);
    assert_eq!(selected, (CubeDim { x: 16, y: 1, z: 1 }, CubeCount::Static(5, 1, 1), false));
    let selected = cube_selection(&gpu(16), 0, false);
    assert_eq!(selected, (CubeDim { x: 16, y: 1, z: 1 }, CubeCount::Static(1, 1, 1), false));
}

#[test]
fn a_full_last_cube_is_followed_by_one_more() {
    let selected = cube_selection(&gpu(32), 64, false);
    assert_eq!(selected.1, CubeCount::Static(3, 1, 1));
}

#[test]
fn iterations_wrap_at_32_bits() {
    let num_iter = (1usize << 32) + 5;
    assert_eq!(cube_selection(&gpu(32), num_iter, true).1, CubeCount::Static(5, 1, 1));
    assert_eq!(cube_selection(&gpu(2), num_iter, false).1, CubeCount::Static(3, 1, 1));
}

#[test]
fn every_iteration_has_its_unit() {
    for n in 0..200usize {
        for hw in [gpu(1), gpu(7), gpu(32), cpu(1, 4), cpu(4, 3), cpu(8, 64)] {
            let (dim, count, single) = cube_selection(&hw, n, false);
            assert!(!single);
            assert!(units(dim, count) >= n as u64);
            let (dim, count, single) = cube_selection(&hw, n, true);
            assert_eq!(single, hw.num_cpu_cores.is_none());
            assert!(units(dim, count) >= n as u64);
            if single {
                assert_eq!(units(dim, count), n as u64);
                assert_eq!(dim, CubeDim { x: 1, y: 1, z: 1 });
            }
        }
    }
}

#[test]
fn selectable_geometries() {
    assert!(is_selectable(&gpu(32), 100, false));
    assert!(is_selectable(&gpu(0), 100, true));
    assert!(!is_selectable(&gpu(0), 100, false));
    assert!(!is_selectable(&cpu(0, 4), 100, true));
    let all = u32::MAX as usize;
    assert!(is_selectable(&gpu(1), all - 1, false));
    assert!(!is_selectable(&gpu(1), all, false));
    assert!(is_selectable(&gpu(1), all, true));
    assert!(is_selectable(&gpu(1), all + 1, false));
    assert!(is_selectable(&gpu(2), all, false));
    assert!(!is_selectable(&cpu(1, 1), all, false));
    assert!(!is_selectable(&cpu(1, 0), all, false));
    assert!(is_selectable(&cpu(1, 2), all, false));
}
