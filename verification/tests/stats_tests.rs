use memscan::stats::{
    format_bytes, get_memory_stats, get_tracked_memory, track_allocation, track_deallocation,
    MemoryUsage, ObjectPool,
};
use memscan::sysinfo::system_checks;

#[test]
fn usage_tracker_adds_and_clamps() {
    let mut u = MemoryUsage::new();
    assert_eq!(get_tracked_memory(&u), 0);
    track_allocation(&mut u, 100);
    track_allocation(&mut u, 50);
    assert_eq!(get_tracked_memory(&u), 150);
    track_deallocation(&mut u, 60);
    assert_eq!(get_tracked_memory(&u), 90);
    track_deallocation(&mut u, 500);
    assert_eq!(get_tracked_memory(&u), 0, "over-release clamps at zero");
}

#[test]
fn memory_stats_pairs_both_counters() {
    let mut u = MemoryUsage::new();
    track_allocation(&mut u, 42);
    assert_eq!(get_memory_stats(1000, &u), (1000, 42));
}

#[test]
fn format_bytes_exact_text() {
    assert_eq!(format_bytes(0), b"0 B".to_vec());
    assert_eq!(format_bytes(500), b"500 B".to_vec());
    assert_eq!(format_bytes(1023), b"1023 B".to_vec());
    assert_eq!(format_bytes(1024), b"1.0 KB".to_vec());
    assert_eq!(format_bytes(1536), b"1.5 KB".to_vec());
    assert_eq!(format_bytes(10 * 1024), b"10.0 KB".to_vec());
    assert_eq!(format_bytes(1024 * 1024), b"1.0 MB".to_vec());
    assert_eq!(format_bytes(1024 * 1024 + 512 * 1024), b"1.5 MB".to_vec());
    assert_eq!(format_bytes(25 * 1024 * 1024), b"25.0 MB".to_vec());
    // just below 1 MiB stays in the KiB scale and rounds to 1024.0
    assert_eq!(format_bytes(1024 * 1024 - 1), b"1024.0 KB".to_vec());
}

fn make_buffer() -> Vec<u8> {
    Vec::with_capacity(16)
}

#[test]
fn object_pool_prefills_hands_out_and_caps() {
    let mut pool: ObjectPool<Vec<u8>, fn() -> Vec<u8>> = ObjectPool::new(2, make_buffer);
    assert_eq!(pool.objects.len(), 2);
    let a = pool.get();
    let b = pool.get();
    assert_eq!(pool.objects.len(), 0);
    let c = pool.get(); // empty pool: made fresh
    pool.put(a);
    pool.put(b);
    pool.put(c); // beyond capacity: dropped
    assert_eq!(pool.objects.len(), 2);
}

#[test]
fn system_report_keeps_ptrace_scope_only_on_linux() {
    let linux = system_checks(String::from("Linux"), true, true, Some(1)).unwrap();
    assert_eq!(linux.os, "Linux");
    assert!(linux.has_sudo);
    assert!(linux.can_read_proc);
    assert_eq!(linux.ptrace_scope, Some(1));

    let mac = system_checks(String::from("macOS"), false, true, Some(1)).unwrap();
    assert_eq!(mac.os, "macOS");
    assert!(!mac.has_sudo);
    assert_eq!(mac.ptrace_scope, None);
}
