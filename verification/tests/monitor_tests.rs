use memscan::codec::{decode_i32, decode_string_text, encode_i32, DataType};
use memscan::monitor::{
    MemoryMonitor, MonitorError, MAX_CHANGES_HISTORY,
};

fn i32_bytes(v: i32) -> Vec<u8> {
    encode_i32(v)
}

/// One poll-cycle step with two identical (stable) reads.
fn stable_read(m: &mut MemoryMonitor, addr: usize, bytes: &[u8], now: u64) -> Option<memscan::monitor::MonitorChange> {
    m.apply_reads(addr, Some(bytes.to_vec()), Some(bytes.to_vec()), now)
}

#[test]
fn first_read_seeds_without_change_second_differing_read_changes() {
    let mut m = MemoryMonitor::new(200);
    m.add_target(0x1000, DataType::I32, String::from("health"));

    let r1 = stable_read(&mut m, 0x1000, &i32_bytes(100), 1);
    assert!(r1.is_none(), "the first successful read must not produce a change");
    assert!(m.changes.is_empty());

    let r2 = stable_read(&mut m, 0x1000, &i32_bytes(50), 2);
    let change = r2.expect("a second, differing, stable read must produce a change");
    assert_eq!(change.address, 0x1000);
    assert_eq!(m.changes.len(), 1);
}

#[test]
fn end_to_end_one_change_recorded_exactly() {
    let mut m = MemoryMonitor::new(100);
    m.add_target(0x1000, DataType::I32, String::from("health"));

    // capability yields bytes for 100 twice: stable, seeds the value
    assert!(m.apply_reads(0x1000, Some(i32_bytes(100)), Some(i32_bytes(100)), 10).is_none());
    // later yields bytes for 50 twice: stable, differs
    let c = m
        .apply_reads(0x1000, Some(i32_bytes(50)), Some(i32_bytes(50)), 20)
        .expect("one change expected");

    assert_eq!(c.address, 0x1000);
    assert_eq!(c.name, "health");
    assert_eq!(decode_i32(&c.old_value), 100);
    assert_eq!(decode_i32(&c.new_value), 50);
    assert_eq!(m.changes.len(), 1);
    let logged = &m.changes[0];
    assert_eq!(decode_i32(&logged.old_value), 100);
    assert_eq!(decode_i32(&logged.new_value), 50);
    assert_eq!(logged.name, "health");
    let status = m.get_targets_status();
    assert_eq!(status.len(), 1);
    assert_eq!(status[0].0, 0x1000);
    assert_eq!(status[0].2, 1, "exactly one change counted");
    assert_eq!(status[0].3, Some(20));
}

#[test]
fn disagreeing_reads_leave_the_stored_value_untouched() {
    let mut m = MemoryMonitor::new(200);
    m.add_target(0x2000, DataType::I32, String::from("x"));
    assert!(stable_read(&mut m, 0x2000, &i32_bytes(1), 1).is_none());

    // a stub capability returning different bytes on two successive calls
    let r = m.apply_reads(0x2000, Some(i32_bytes(2)), Some(i32_bytes(3)), 2);
    assert!(r.is_none(), "an unstable read must not produce a change");
    assert!(m.changes.is_empty());
    assert_eq!(
        m.targets[0].last_value.as_ref().unwrap(),
        &i32_bytes(1),
        "the stored value must remain whatever it was before the cycle"
    );

    // a later stable differing read still works
    assert!(stable_read(&mut m, 0x2000, &i32_bytes(3), 3).is_some());
}

#[test]
fn failed_reads_skip_the_cycle() {
    let mut m = MemoryMonitor::new(200);
    m.add_target(0x3000, DataType::I32, String::from("y"));
    assert!(m.apply_reads(0x3000, None, Some(i32_bytes(5)), 1).is_none());
    assert!(m.apply_reads(0x3000, Some(i32_bytes(5)), None, 1).is_none());
    assert!(m.apply_reads(0x3000, None, None, 1).is_none());
    assert!(m.targets[0].last_value.is_none());
    // target stays registered after failed reads
    assert_eq!(m.get_targets_status().len(), 1);
}

#[test]
fn reads_for_unknown_addresses_do_nothing() {
    let mut m = MemoryMonitor::new(200);
    m.add_target(0x1000, DataType::I32, String::from("a"));
    assert!(stable_read(&mut m, 0x9999, &i32_bytes(1), 1).is_none());
    assert!(m.changes.is_empty());
    assert!(m.targets[0].last_value.is_none());
}

#[test]
fn wrong_width_samples_are_rejected() {
    let mut m = MemoryMonitor::new(200);
    m.add_target(0x1000, DataType::I32, String::from("a"));
    let short = vec![1u8, 2];
    assert!(m.apply_reads(0x1000, Some(short.clone()), Some(short), 1).is_none());
    assert!(m.targets[0].last_value.is_none());
}

#[test]
fn over_long_string_samples_are_rejected() {
    let mut m = MemoryMonitor::new(200);
    m.add_target(0x100, DataType::String(4), String::from("s"));
    let long = b"toolong".to_vec();
    assert!(m.apply_reads(0x100, Some(long.clone()), Some(long), 1).is_none());
    assert!(m.targets[0].last_value.is_none());
}

#[test]
fn string_equality_ignores_bytes_after_first_zero() {
    let mut m = MemoryMonitor::new(200);
    m.add_target(0x5000, DataType::String(8), String::from("tag"));

    assert!(stable_read(&mut m, 0x5000, b"cat\0\0\0", 1).is_none());
    // trailing garbage past the terminator is not a change
    let r = stable_read(&mut m, 0x5000, b"cat\0xx\0", 2);
    assert!(r.is_none(), "bytes after the first zero byte must not count");
    assert!(m.changes.is_empty());

    // a real content change is one change, displayed as cat -> dog
    m.add_target(0x6000, DataType::String(8), String::from("word"));
    assert!(stable_read(&mut m, 0x6000, b"cat\0", 3).is_none());
    let c = stable_read(&mut m, 0x6000, b"dog\0", 4).expect("content changed");
    assert_eq!(decode_string_text(&c.old_value), b"cat".to_vec());
    assert_eq!(decode_string_text(&c.new_value), b"dog".to_vec());
    assert_eq!(m.changes.len(), 1);
}

#[test]
fn torn_string_reads_with_stale_tails_are_stable() {
    let mut m = MemoryMonitor::new(200);
    m.add_target(0x5000, DataType::String(8), String::from("tag"));
    // the two samples differ only past their terminators: accepted
    assert!(m.apply_reads(0x5000, Some(b"cat\0aa\0".to_vec()), Some(b"cat\0bb\0".to_vec()), 1).is_none());
    assert!(m.targets[0].last_value.is_some());
}

#[test]
fn change_log_is_bounded_and_evicts_oldest_first() {
    let mut m = MemoryMonitor::new(50);
    m.add_target(0x7000, DataType::I32, String::from("counter"));
    assert!(stable_read(&mut m, 0x7000, &i32_bytes(-1), 0).is_none());
    let total = MAX_CHANGES_HISTORY + 5;
    for k in 0..total {
        let c = stable_read(&mut m, 0x7000, &i32_bytes(k as i32), k as u64 + 1);
        assert!(c.is_some());
        assert!(m.changes.len() <= MAX_CHANGES_HISTORY, "log exceeded its capacity");
    }
    assert_eq!(m.changes.len(), MAX_CHANGES_HISTORY);
    // the 5 oldest changes (new values 0..=4) were evicted
    assert_eq!(decode_i32(&m.changes[0].new_value), 5);
    assert_eq!(decode_i32(&m.changes[MAX_CHANGES_HISTORY - 1].new_value), (total - 1) as i32);
    assert_eq!(m.targets[0].change_count, total as u64);
    // the truncation of the history is surfaced, not treated as an error
    assert_eq!(m.total_changes, total as u64);
    assert!(m.history_is_partial());
}

#[test]
fn history_is_full_until_eviction() {
    let mut m = MemoryMonitor::new(200);
    m.add_target(0x1, DataType::I32, String::from("v"));
    assert!(!m.history_is_partial());
    assert!(stable_read(&mut m, 0x1, &i32_bytes(0), 0).is_none());
    assert!(stable_read(&mut m, 0x1, &i32_bytes(1), 1).is_some());
    assert_eq!(m.total_changes, 1);
    assert!(!m.history_is_partial());
}

#[test]
fn stability_delay_is_configurable() {
    let m = MemoryMonitor::new(200);
    assert_eq!(m.stability_delay_ms, 1);
    let m2 = MemoryMonitor::with_timing(100, 5);
    assert_eq!(m2.update_interval_ms, 100);
    assert_eq!(m2.stability_delay_ms, 5);
    assert!(!m2.is_running());
}

#[test]
fn re_adding_a_target_resets_its_state_but_keeps_logged_changes() {
    let mut m = MemoryMonitor::new(200);
    m.add_target(0x8000, DataType::I32, String::from("old"));
    assert!(stable_read(&mut m, 0x8000, &i32_bytes(1), 1).is_none());
    assert!(stable_read(&mut m, 0x8000, &i32_bytes(2), 2).is_some());
    assert_eq!(m.changes.len(), 1);

    m.add_target(0x8000, DataType::I64, String::from("new"));
    assert_eq!(m.targets.len(), 1, "re-adding replaces, never duplicates");
    assert!(m.targets[0].last_value.is_none(), "observed-value state reset");
    assert_eq!(m.targets[0].change_count, 0);
    assert_eq!(m.targets[0].last_changed, None);
    assert_eq!(m.targets[0].name, "new");
    assert_eq!(m.changes.len(), 1, "earlier logged changes stay untouched");

    // the next successful read seeds again, with no change event
    let eight = vec![9u8, 0, 0, 0, 0, 0, 0, 0];
    assert!(m.apply_reads(0x8000, Some(eight.clone()), Some(eight), 3).is_none());
    assert_eq!(m.changes.len(), 1);
}

#[test]
fn remove_target_deletes_and_is_noop_when_absent() {
    let mut m = MemoryMonitor::new(200);
    m.add_target(0x1, DataType::I32, String::from("a"));
    m.add_target(0x2, DataType::I32, String::from("b"));
    m.remove_target(0x1);
    assert_eq!(m.get_targets_status().len(), 1);
    m.remove_target(0x77);
    assert_eq!(m.get_targets_status().len(), 1);
    assert_eq!(m.get_targets_status()[0].0, 0x2);
}

#[test]
fn start_stop_lifecycle() {
    let mut m = MemoryMonitor::new(200);
    assert!(!m.is_running());
    assert!(m.start_monitoring().is_ok());
    assert!(m.is_running());
    assert_eq!(m.start_monitoring(), Err(MonitorError::AlreadyRunning));
    assert!(m.is_running(), "a rejected start changes no state");
    m.stop_monitoring();
    assert!(!m.is_running());
    m.stop_monitoring(); // stopping while stopped is a no-op
    assert!(!m.is_running());
}

#[test]
fn stop_leaves_live_notifications_unchanged() {
    let mut m = MemoryMonitor::new(200);
    assert!(!m.is_live_mode());
    m.enable_live_notifications();
    assert!(m.is_live_mode());
    assert!(m.start_monitoring().is_ok());
    m.stop_monitoring();
    assert!(m.is_live_mode(), "stop sets only the cancellation flag");
    // the toggle is independent and settable regardless of the running state
    m.disable_live_notifications();
    assert!(!m.is_live_mode());
    m.enable_live_notifications();
    assert!(m.is_live_mode());
    m.stop_monitoring(); // stop while stopped: a no-op
    assert!(!m.is_running());
    assert!(m.is_live_mode());
}

#[test]
fn recent_changes_returns_the_last_n_chronologically() {
    let mut m = MemoryMonitor::new(200);
    m.add_target(0x1, DataType::I32, String::from("v"));
    assert!(stable_read(&mut m, 0x1, &i32_bytes(0), 0).is_none());
    for k in 1..=5 {
        stable_read(&mut m, 0x1, &i32_bytes(k), k as u64).unwrap();
    }
    let recent = m.get_recent_changes(3);
    assert_eq!(recent.len(), 3);
    assert_eq!(decode_i32(&recent[0].new_value), 3);
    assert_eq!(decode_i32(&recent[1].new_value), 4);
    assert_eq!(decode_i32(&recent[2].new_value), 5);
    assert_eq!(m.get_recent_changes(100).len(), 5);
    assert_eq!(m.get_recent_changes(0).len(), 0);
}

#[test]
fn poll_plan_lists_addresses_and_read_sizes() {
    let mut m = MemoryMonitor::new(200);
    m.add_target(0x10, DataType::I32, String::from("a"));
    m.add_target(0x20, DataType::String(64), String::from("b"));
    m.add_target(0x30, DataType::F64, String::from("c"));
    let plan = m.poll_plan();
    assert_eq!(plan, vec![(0x10, 4), (0x20, 64), (0x30, 8)]);
}

#[test]
fn data_type_sizes() {
    assert_eq!(MemoryMonitor::get_data_type_size(&DataType::I32), 4);
    assert_eq!(MemoryMonitor::get_data_type_size(&DataType::I64), 8);
    assert_eq!(MemoryMonitor::get_data_type_size(&DataType::F32), 4);
    assert_eq!(MemoryMonitor::get_data_type_size(&DataType::F64), 8);
    assert_eq!(MemoryMonitor::get_data_type_size(&DataType::String(256)), 256);
    assert_eq!(MemoryMonitor::get_data_type_size(&DataType::String(16)), 16);
}

#[test]
fn string_content_difference_rule() {
    assert!(!MemoryMonitor::string_content_different(b"cat\0\0\0", b"cat\0xx\0"));
    assert!(MemoryMonitor::string_content_different(b"cat\0", b"dog\0"));
    assert!(!MemoryMonitor::string_content_different(b"", b"\0\0"));
    assert!(MemoryMonitor::string_content_different(b"ca\0", b"cat\0"));
    assert!(!MemoryMonitor::string_content_different(b"same", b"same"));
}
