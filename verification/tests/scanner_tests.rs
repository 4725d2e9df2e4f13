use memscan::region::{
    is_address_writable, parse_maps_line, region_totals, scannable_regions, MemoryRegion,
};
use memscan::scanner::{
    scan_image, search_bytes_in_chunk, ScanError, ScanSession, CHUNK_SIZE, MAX_SCAN_RESULTS,
};

fn region(start: usize, size: usize, r: bool, w: bool, x: bool) -> MemoryRegion {
    MemoryRegion { start_address: start, size, readable: r, writable: w, executable: x }
}

/// Serves reads for a scan session from one in-memory region image.
fn run_scan_over(
    mem: &[u8],
    base: usize,
    regions: &Vec<MemoryRegion>,
    pattern: Vec<u8>,
) -> Result<(Vec<usize>, bool), ScanError> {
    let mut session = ScanSession::begin(regions, pattern)?;
    while let Some((addr, len)) = session.next_request() {
        let off = addr - base;
        if off + len <= mem.len() {
            session.feed_chunk(&mem[off..off + len]);
        } else {
            session.skip_chunk();
        }
    }
    let addrs = session.results.iter().map(|r| r.address).collect();
    Ok((addrs, session.truncated))
}

#[test]
fn chunk_search_finds_every_occurrence_in_order() {
    let chunk = b"xxabyyabzzab";
    let found = search_bytes_in_chunk(chunk, b"ab", 1000);
    let addrs: Vec<usize> = found.iter().map(|r| r.address).collect();
    assert_eq!(addrs, vec![1002, 1006, 1010]);
}

#[test]
fn chunk_search_reports_overlapping_occurrences() {
    let found = search_bytes_in_chunk(b"aaaa", b"aa", 0);
    let addrs: Vec<usize> = found.iter().map(|r| r.address).collect();
    assert_eq!(addrs, vec![0, 1, 2]);
}

#[test]
fn chunk_search_handles_pattern_longer_than_chunk() {
    let found = search_bytes_in_chunk(b"ab", b"abc", 0);
    assert!(found.is_empty());
}

#[test]
fn scan_finds_occurrence_straddling_chunk_boundary() {
    // a region longer than one chunk, with the pattern laid across the
    // 64 KiB chunk boundary and at both region ends
    let size = CHUNK_SIZE + 5000;
    let mut mem = vec![0u8; size];
    let pattern = b"\xde\xad\xbe\xef".to_vec();
    mem[0..4].copy_from_slice(&pattern);
    mem[CHUNK_SIZE - 2..CHUNK_SIZE + 2].copy_from_slice(&pattern);
    mem[size - 4..].copy_from_slice(&pattern);
    let base = 0x10000;
    let regions = vec![region(base, size, true, false, false)];
    let (addrs, truncated) = run_scan_over(&mem, base, &regions, pattern).unwrap();
    assert_eq!(
        addrs,
        vec![base, base + CHUNK_SIZE - 2, base + size - 4],
        "the boundary-straddling occurrence must be reported"
    );
    assert!(!truncated);
}

#[test]
fn scan_covers_multiple_regions_in_listing_order() {
    let mut mem = vec![0u8; 4096];
    mem[100..103].copy_from_slice(b"abc");
    mem[2100..2103].copy_from_slice(b"abc");
    // two scannable regions over the same backing image at different bases
    let regions = vec![
        region(0x4000, 2048, true, false, false),
        region(0x2000, 1024, true, false, false),  // too small: filtered out
        region(0x8000, 2048, false, false, false), // unreadable: filtered out
    ];
    let mut session = ScanSession::begin(&regions, b"abc".to_vec()).unwrap();
    assert_eq!(session.regions.len(), 1);
    while let Some((addr, len)) = session.next_request() {
        let off = addr - 0x4000;
        session.feed_chunk(&mem[off..off + len]);
    }
    let addrs: Vec<usize> = session.results.iter().map(|r| r.address).collect();
    assert_eq!(addrs, vec![0x4000 + 100]);
}

#[test]
fn unreadable_chunk_is_skipped_not_fatal() {
    let size = 2 * CHUNK_SIZE;
    let mut mem = vec![0u8; size];
    mem[CHUNK_SIZE + 1000..CHUNK_SIZE + 1004].copy_from_slice(b"find");
    let base = 0x100000;
    let regions = vec![region(base, size, true, false, false)];
    let mut session = ScanSession::begin(&regions, b"find".to_vec()).unwrap();
    let mut first = true;
    while let Some((addr, len)) = session.next_request() {
        if first {
            // pretend the first chunk's read failed
            session.skip_chunk();
            first = false;
        } else {
            let off = addr - base;
            session.feed_chunk(&mem[off..off + len]);
        }
    }
    let addrs: Vec<usize> = session.results.iter().map(|r| r.address).collect();
    assert_eq!(addrs, vec![base + CHUNK_SIZE + 1000]);
}

#[test]
fn scan_without_scannable_regions_fails() {
    let regions = vec![
        region(0x1000, 512, true, false, false),
        region(0x2000, 4096, false, true, true),
    ];
    match ScanSession::begin(&regions, b"ab".to_vec()) {
        Err(ScanError::NoMemoryRegions) => {},
        Err(other) => panic!("expected NoMemoryRegions, got {:?}", other),
        Ok(_) => panic!("expected NoMemoryRegions, got a session"),
    }
}

#[test]
fn scan_with_empty_pattern_fails() {
    let regions = vec![region(0x1000, 4096, true, false, false)];
    match ScanSession::begin(&regions, Vec::new()) {
        Err(ScanError::InvalidValue) => {},
        Err(other) => panic!("expected InvalidValue, got {:?}", other),
        Ok(_) => panic!("expected InvalidValue, got a session"),
    }
}

#[test]
fn scan_stops_at_the_result_ceiling_and_flags_truncation() {
    let size = 20000;
    let mem = vec![7u8; size];
    let base = 0x20000;
    let regions = vec![region(base, size, true, false, false)];
    let (addrs, truncated) = run_scan_over(&mem, base, &regions, vec![7u8]).unwrap();
    assert_eq!(addrs.len(), MAX_SCAN_RESULTS);
    assert!(truncated);
    assert_eq!(addrs[0], base);
    assert_eq!(addrs[MAX_SCAN_RESULTS - 1], base + MAX_SCAN_RESULTS - 1);
}

#[test]
fn scannable_filter_keeps_order_and_rule() {
    let a = region(0x1000, 1024, true, false, false); // exactly 1 KiB: not scannable
    let b = region(0x2000, 1025, true, false, false);
    let c = region(0x3000, 99999, false, false, false);
    let d = region(0x4000, 4096, true, true, true);
    let kept = scannable_regions(&vec![a, b, c, d]);
    assert_eq!(kept, vec![b, d]);
}

#[test]
fn maps_line_parses_range_and_permissions() {
    let line = b"55d0f1c00000-55d0f1c21000 r-xp 00012000 08:02 131605  /usr/bin/demo";
    let r = parse_maps_line(line).unwrap();
    assert_eq!(r.start_address, 0x55d0f1c00000);
    assert_eq!(r.size, 0x21000);
    assert!(r.readable);
    assert!(!r.writable);
    assert!(r.executable);
}

#[test]
fn maps_line_parses_rw_flags() {
    let r = parse_maps_line(b"7fff0000-7fff8000 rw-p 00000000 00:00 0").unwrap();
    assert_eq!(r.start_address, 0x7fff0000);
    assert_eq!(r.size, 0x8000);
    assert!(r.readable);
    assert!(r.writable);
    assert!(!r.executable);
}

#[test]
fn maps_line_rejects_malformed_input() {
    assert_eq!(parse_maps_line(b""), None);
    assert_eq!(parse_maps_line(b"just-one-field"), None);
    assert_eq!(parse_maps_line(b"1000 rwxp"), None);
    assert_eq!(parse_maps_line(b"zz00-zz10 r--p"), None);
    assert_eq!(parse_maps_line(b"2000-1000 r--p"), None);
    assert_eq!(parse_maps_line(b"1000-2000-3000 r--p"), None);
}

#[test]
fn address_writability_follows_the_region_table() {
    let regions = vec![
        region(0x1000, 0x1000, true, false, false),
        region(0x2000, 0x1000, true, true, false),
    ];
    assert!(!is_address_writable(&regions, 0x1500));
    assert!(is_address_writable(&regions, 0x2000));
    assert!(is_address_writable(&regions, 0x2fff));
    assert!(!is_address_writable(&regions, 0x3000));
    assert!(!is_address_writable(&regions, 0x500));
}

#[test]
fn scan_error_messages() {
    assert_eq!(
        ScanError::NoMemoryRegions.message(),
        "No scannable memory regions found"
    );
    assert_eq!(ScanError::InvalidValue.message(), "Invalid search value");
    assert_eq!(
        ScanError::MemoryReadError(String::from("denied")).message(),
        "Memory read error: denied"
    );
}

#[test]
fn maps_line_accepts_tab_separators() {
    let r = parse_maps_line(b"1000-2000\trw-p\t00000000").unwrap();
    assert_eq!(r.start_address, 0x1000);
    assert_eq!(r.size, 0x1000);
    assert!(r.writable);
}

#[test]
fn maps_line_zero_sized_region_parses_but_is_not_scannable() {
    let r = parse_maps_line(b"5000-5000 r--p").unwrap();
    assert_eq!(r.size, 0);
    assert!(scannable_regions(&vec![r]).is_empty());
}

#[test]
fn region_totals_count_and_sum() {
    let regions = vec![
        region(0x1000, 2048, true, false, false),
        region(0x2000, 100, true, false, false),
        region(0x3000, 5000, false, false, false),
    ];
    assert_eq!(region_totals(&regions), (3, 1, 7148));
    assert_eq!(region_totals(&Vec::new()), (0, 0, 0));
    let huge = vec![
        region(0, usize::MAX, true, false, false),
        region(0, usize::MAX, true, false, false),
    ];
    assert_eq!(region_totals(&huge).2, usize::MAX, "the byte total saturates");
}

#[test]
fn scan_image_finds_all_occurrences_including_boundary() {
    let size = 2 * CHUNK_SIZE + 300;
    let mut mem = vec![0u8; size];
    let pattern = b"\x01\x02\x03\x04";
    mem[10..14].copy_from_slice(pattern);
    mem[CHUNK_SIZE - 1..CHUNK_SIZE + 3].copy_from_slice(pattern);
    mem[2 * CHUNK_SIZE - 3..2 * CHUNK_SIZE + 1].copy_from_slice(pattern);
    mem[size - 4..].copy_from_slice(pattern);
    let base = 0x40000;
    let (results, truncated) = scan_image(base, &mem, pattern.to_vec()).unwrap();
    let addrs: Vec<usize> = results.iter().map(|r| r.address).collect();
    assert_eq!(
        addrs,
        vec![
            base + 10,
            base + CHUNK_SIZE - 1,
            base + 2 * CHUNK_SIZE - 3,
            base + size - 4,
        ]
    );
    assert!(!truncated);
}

#[test]
fn scan_image_truncates_at_the_ceiling_with_the_first_matches() {
    let mem = vec![9u8; 12000];
    let (results, truncated) = scan_image(0x1000, &mem, vec![9u8]).unwrap();
    assert!(truncated);
    assert_eq!(results.len(), MAX_SCAN_RESULTS);
    for (k, r) in results.iter().enumerate() {
        assert_eq!(r.address, 0x1000 + k);
    }
}

#[test]
fn scan_image_rejects_small_images_and_empty_patterns() {
    let small = vec![0u8; 1024];
    assert_eq!(
        scan_image(0, &small, vec![1u8]).unwrap_err(),
        ScanError::NoMemoryRegions
    );
    let big = vec![0u8; 2048];
    assert_eq!(scan_image(0, &big, Vec::new()).unwrap_err(), ScanError::InvalidValue);
}
