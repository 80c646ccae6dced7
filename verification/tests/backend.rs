//! Element types, failures, launch geometry, meters and the metadata cache.

use mamba3::backend::{
    cpu_cube_dim, cube_count_for, ensure_dtype, launch_error, line_size_for, supports_dtype,
    Capabilities, DType, Failure, Meters, Usage, MAX_GROUPS, WORK_PER_CPU_UNIT,
};
use mamba3::meta_cache::{MetaCache, META_CACHE_LIMIT};

fn full() -> Usage {
    Usage { buffer: true, arithmetic: true, conversion: true }
}

fn runtime(half: Usage, brain: Usage) -> Capabilities {
    Capabilities { name: String::from("wgpu"), half, brain }
}

#[test]
fn element_sizes_and_names() {
    assert_eq!((DType::F32.size(), DType::F32.name()), (4, "f32"));
    assert_eq!((DType::F16.size(), DType::F16.name()), (2, "f16"));
    assert_eq!((DType::BF16.size(), DType::BF16.name()), (2, "bf16"));
}

#[test]
fn every_use_is_needed() {
    let none = Usage { buffer: false, arithmetic: false, conversion: false };
    assert!(supports_dtype(&runtime(none, none), DType::F32));
    assert!(supports_dtype(&runtime(full(), none), DType::F16));
    assert!(!supports_dtype(&runtime(full(), none), DType::BF16));
    let part = Usage { conversion: false, ..full() };
    assert!(!supports_dtype(&runtime(part, none), DType::F16));
}

#[test]
fn an_unsupported_type_says_what_to_use() {
    let none = Usage { buffer: false, arithmetic: false, conversion: false };
    let e = ensure_dtype(&runtime(full(), none), DType::BF16).unwrap_err();
    assert_eq!(
        e.message(),
        "unsupported: the wgpu backend cannot store or compute bf16 elements; use f32 or f16, \
         or build for a backend that supports them (the cpu runtime does)"
    );
    let e = ensure_dtype(&runtime(none, none), DType::F16).unwrap_err();
    assert_eq!(
        e.message(),
        "unsupported: the wgpu backend cannot store or compute f16 elements; use f32, \
         or build for a backend that supports them (the cpu runtime does)"
    );
    assert!(ensure_dtype(&runtime(none, none), DType::F32).is_ok());
}

#[test]
fn repeated_failures_are_counted() {
    let f = Failure::Several(vec![
        Failure::Compilation(String::from("no bf16")),
        Failure::Other(String::from("lost device")),
        Failure::Compilation(String::from("no bf16")),
    ]);
    assert_eq!(
        launch_error(&f),
        "kernel compilation failed: no bf16 (reported by 2 launches); lost device"
    );
    assert_eq!(launch_error(&Failure::Several(vec![])), "");
    assert_eq!(
        launch_error(&Failure::Several(vec![Failure::Several(vec![Failure::Other(
            String::from("x")
        )])])),
        "x"
    );
}

#[test]
fn grids_cover_and_fold() {
    assert_eq!(cube_count_for(0, 64), (1, 1, 1));
    assert_eq!(cube_count_for(65, 64), (2, 1, 1));
    assert_eq!(cube_count_for(64 * MAX_GROUPS as usize, 64), (MAX_GROUPS, 1, 1));
    let (x, y, z) = cube_count_for(64 * MAX_GROUPS as usize + 1, 64);
    assert_eq!((x, y, z), (MAX_GROUPS, 2, 1));
}

#[test]
fn threads_are_worth_their_work() {
    assert_eq!(cpu_cube_dim(Some(8), 10, 1), 1);
    assert_eq!(cpu_cube_dim(Some(8), WORK_PER_CPU_UNIT * 3, 1), 3);
    assert_eq!(cpu_cube_dim(Some(8), WORK_PER_CPU_UNIT * 100, 1), 8);
    assert_eq!(cpu_cube_dim(Some(1000), WORK_PER_CPU_UNIT * 1000, 1), 64);
    assert_eq!(cpu_cube_dim(None, WORK_PER_CPU_UNIT * 100, 1), 1);
    assert_eq!(cpu_cube_dim(Some(8), usize::MAX, 2), 8);
}

#[test]
fn vectors_divide_the_buffer() {
    let widths = vec![8, 4, 2];
    assert_eq!(line_size_for(&widths, 24), 8);
    assert_eq!(line_size_for(&widths, 12), 4);
    assert_eq!(line_size_for(&widths, 7), 1);
    assert_eq!(line_size_for(&widths, 0), 1);
}

#[test]
fn meters_count_and_tally() {
    let mut m = Meters::new();
    m.count_launch("a");
    assert_eq!(m.launch_count(), 1);
    assert!(m.launch_tally().is_empty());
    m.start_launch_tally();
    for site in ["b", "a", "c", "a", "b"] {
        m.count_launch(site);
    }
    m.stop_launch_tally();
    m.count_launch("c");
    let rows: Vec<(String, usize)> =
        m.launch_tally().into_iter().map(|s| (s.name, s.count)).collect();
    assert_eq!(
        rows,
        vec![(String::from("a"), 2), (String::from("b"), 2), (String::from("c"), 1)]
    );
    assert_eq!(m.launch_count(), 7);
    m.reset_launch_count();
    assert_eq!(m.launch_count(), 0);
    m.reset_launch_tally();
    assert!(m.launch_tally().is_empty());
    m.count_read();
    assert_eq!(m.read_count(), 1);
    m.reset_read_count();
    assert_eq!(m.read_count(), 0);
}

#[test]
fn kept_metadata_is_found_on_its_device_only() {
    let mut c = MetaCache::new(true);
    c.keep(1, vec![4, 5], 70);
    assert_eq!(c.find(1, &vec![4, 5]), Some(70));
    assert_eq!(c.find(2, &vec![4, 5]), None);
    assert_eq!(c.find(1, &vec![4]), None);
    c.keep(1, vec![4, 5], 71);
    assert_eq!(c.find(1, &vec![4, 5]), Some(70));
    c.set_meta_cache(false);
    assert_eq!(c.find(1, &vec![4, 5]), None);
    c.keep(1, vec![4, 5], 72);
    c.set_meta_cache(true);
    assert_eq!(c.find(1, &vec![4, 5]), None);
}

#[test]
fn a_full_device_starts_over() {
    let mut c = MetaCache::new(true);
    c.keep(9, vec![0], 1);
    for i in 0..META_CACHE_LIMIT as u32 {
        c.keep(1, vec![i], i as u64);
    }
    assert_eq!(c.find(1, &vec![0]), Some(0));
    c.keep(1, vec![u32::MAX], 5);
    assert_eq!(c.find(1, &vec![0]), None);
    assert_eq!(c.find(1, &vec![u32::MAX]), Some(5));
    assert_eq!(c.find(9, &vec![0]), Some(1));
    c.clear_meta_cache();
    assert_eq!(c.find(9, &vec![0]), None);
}
