use scematica::probe::{blocks_arg, scan_ranges, scan_start, CHUNK, DEFAULT_BLOCKS};

fn args(v: &[&str]) -> Vec<String> {
    v.iter().map(|s| s.to_string()).collect()
}

#[test]
fn the_window_starts_blocks_before_the_head() {
    assert_eq!(scan_start(10_000, 5_000), 5_000);
    assert_eq!(scan_start(100, 5_000), 0);
}

#[test]
fn ranges_tile_the_window_in_chunks() {
    assert_eq!(scan_ranges(0, 1_200), vec![(0, 500), (500, 1_000), (1_000, 1_200)]);
    assert_eq!(scan_ranges(100, 600), vec![(100, 600)]);
    assert!(scan_ranges(700, 700).is_empty());
    assert!(scan_ranges(800, 700).is_empty());
    let r = scan_ranges(u64::MAX - 700, u64::MAX);
    assert_eq!(r, vec![(u64::MAX - 700, u64::MAX - 200), (u64::MAX - 200, u64::MAX)]);
    assert!(r.iter().all(|(a, b)| b - a <= CHUNK));
}

#[test]
fn the_blocks_flag_is_read_or_defaulted() {
    assert_eq!(blocks_arg(&args(&["probe", "--blocks", "2000"])), 2_000);
    assert_eq!(blocks_arg(&args(&["probe"])), DEFAULT_BLOCKS);
    assert_eq!(blocks_arg(&args(&["probe", "--blocks"])), DEFAULT_BLOCKS);
    assert_eq!(blocks_arg(&args(&["probe", "--blocks", "lots"])), DEFAULT_BLOCKS);
    assert_eq!(blocks_arg(&args(&["probe", "--blocks", "7", "--blocks", "9"])), 7);
}
