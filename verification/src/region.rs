//! Memory regions of a foreign process: the region descriptor, the
//! scannability rule, parsing of one line of the OS's per-process memory
//! map, and permission lookups.

use vstd::prelude::*;

verus! {

/// One mapped region of a foreign process's address space.
#[derive(Clone, Copy, Debug, PartialEq, Eq, Structural)]
pub struct MemoryRegion {
    pub start_address: usize,
    pub size: usize,
    pub readable: bool,
    pub writable: bool,
    pub executable: bool,
}

/// A region is worth scanning iff it is readable and larger than 1 KiB.
pub open spec fn spec_scannable(r: MemoryRegion) -> bool {
    r.readable && r.size > 1024
}

/// Whether one region is scannable.
pub fn is_scannable(r: &MemoryRegion) -> (b: bool)
    ensures
        b == spec_scannable(*r),
{
    r.readable && r.size > 1024
}

/// The scannable regions of a listing, in their original order.
pub open spec fn spec_scannable_filter(rs: Seq<MemoryRegion>) -> Seq<MemoryRegion>
    decreases rs.len(),
{
    if rs.len() == 0 {
        Seq::empty()
    } else if spec_scannable(rs.last()) {
        spec_scannable_filter(rs.drop_last()).push(rs.last())
    } else {
        spec_scannable_filter(rs.drop_last())
    }
}

/// Every region kept by the filter is scannable and comes from the input.
pub proof fn lemma_scannable_filter_props(rs: Seq<MemoryRegion>)
    ensures
        forall|i: int|
            0 <= i < spec_scannable_filter(rs).len() ==> spec_scannable(
                #[trigger] spec_scannable_filter(rs)[i],
            ) && rs.contains(spec_scannable_filter(rs)[i]),
    decreases rs.len(),
{
    if rs.len() > 0 {
        lemma_scannable_filter_props(rs.drop_last());
        assert forall|i: int| 0 <= i < spec_scannable_filter(rs).len() implies spec_scannable(
            #[trigger] spec_scannable_filter(rs)[i],
        ) && rs.contains(spec_scannable_filter(rs)[i]) by {
            let f = spec_scannable_filter(rs);
            let fd = spec_scannable_filter(rs.drop_last());
            if i < fd.len() {
                assert(f[i] == fd[i]);
                let j = choose|j: int| 0 <= j < rs.drop_last().len() && rs.drop_last()[j] == fd[i];
                assert(rs[j] == fd[i]);
            } else {
                assert(f[i] == rs.last());
                assert(rs[rs.len() - 1] == rs.last());
            }
        }
    }
}

/// Filters a region listing down to the scannable ones.
pub fn scannable_regions(all: &Vec<MemoryRegion>) -> (r: Vec<MemoryRegion>)
    ensures
        r@ == spec_scannable_filter(all@),
{
    let mut out: Vec<MemoryRegion> = Vec::new();
    let n = all.len();
    let mut i: usize = 0;
    while i < n
        invariant
            0 <= i <= n,
            n == all@.len(),
            out@ == spec_scannable_filter(all@.take(i as int)),
        decreases n - i,
    {
        proof {
            assert(all@.take(i as int + 1).drop_last() =~= all@.take(i as int));
        }
        let region = all[i];
        if is_scannable(&region) {
            out.push(region);
        }
        i += 1;
    }
    proof {
        assert(all@.take(n as int) =~= all@);
    }
    out
}


/// The mapped byte count of a listing, accumulated with saturation at
/// the machine limit.
pub open spec fn spec_size_sum_sat(rs: Seq<MemoryRegion>) -> int
    decreases rs.len(),
{
    if rs.len() == 0 {
        0
    } else {
        let rest = spec_size_sum_sat(rs.drop_last());
        if rest + rs.last().size > usize::MAX {
            usize::MAX as int
        } else {
            rest + rs.last().size
        }
    }
}

/// Totals over a region listing: how many regions it holds, how many of
/// them are scannable, and how many bytes they map in all (saturating
/// at the machine limit).
pub fn region_totals(regions: &Vec<MemoryRegion>) -> (r: (usize, usize, usize))
    ensures
        r.0 == regions@.len(),
        r.1 == spec_scannable_filter(regions@).len(),
        r.2 == spec_size_sum_sat(regions@),
{
    let n = regions.len();
    let mut scannable: usize = 0;
    let mut total: usize = 0;
    let mut i: usize = 0;
    while i < n
        invariant
            0 <= i <= n,
            n == regions@.len(),
            scannable == spec_scannable_filter(regions@.take(i as int)).len(),
            total == spec_size_sum_sat(regions@.take(i as int)),
            scannable <= i,
        decreases n - i,
    {
        proof {
            assert(regions@.take(i as int + 1).drop_last() =~= regions@.take(i as int));
        }
        let region = &regions[i];
        if is_scannable(region) {
            scannable += 1;
        }
        if total > usize::MAX - region.size {
            total = usize::MAX;
        } else {
            total += region.size;
        }
        i += 1;
    }
    proof {
        assert(regions@.take(n as int) =~= regions@);
    }
    (n, scannable, total)
}

// ---------------------------------------------------------------------------
// Parsing one line of the per-process memory map
// ---------------------------------------------------------------------------

/// An ASCII space or tab, the separators between the fields of a map line.
pub open spec fn spec_is_ws(b: u8) -> bool {
    b == 32 || b == 9
}

/// The index of the first non-separator byte at or after `from`.
pub open spec fn spec_skip_ws(s: Seq<u8>, from: int) -> int
    recommends
        0 <= from <= s.len(),
    decreases s.len() - from,
{
    if from < 0 || from >= s.len() {
        s.len() as int
    } else if spec_is_ws(s[from]) {
        spec_skip_ws(s, from + 1)
    } else {
        from
    }
}

/// The index of the first separator byte at or after `from`.
pub open spec fn spec_token_end(s: Seq<u8>, from: int) -> int
    recommends
        0 <= from <= s.len(),
    decreases s.len() - from,
{
    if from < 0 || from >= s.len() {
        s.len() as int
    } else if !spec_is_ws(s[from]) {
        spec_token_end(s, from + 1)
    } else {
        from
    }
}

/// Finds the first non-separator byte at or after `from`.
fn skip_ws_index(s: &[u8], from: usize) -> (r: usize)
    requires
        from <= s@.len(),
    ensures
        r == spec_skip_ws(s@, from as int),
        from <= r <= s@.len(),
{
    let n = s.len();
    let mut i = from;
    while i < n
        invariant
            from <= i <= n,
            n == s@.len(),
            spec_skip_ws(s@, from as int) == spec_skip_ws(s@, i as int),
            forall|j: int| from <= j < i ==> spec_is_ws(s@[j]),
        decreases n - i,
    {
        if !(s[i] == 32 || s[i] == 9) {
            return i;
        }
        i += 1;
    }
    n
}

/// Finds the first separator byte at or after `from`.
fn token_end_index(s: &[u8], from: usize) -> (r: usize)
    requires
        from <= s@.len(),
    ensures
        r == spec_token_end(s@, from as int),
        from <= r <= s@.len(),
{
    let n = s.len();
    let mut i = from;
    while i < n
        invariant
            from <= i <= n,
            n == s@.len(),
            spec_token_end(s@, from as int) == spec_token_end(s@, i as int),
        decreases n - i,
    {
        if s[i] == 32 || s[i] == 9 {
            return i;
        }
        i += 1;
    }
    n
}

/// An ASCII hexadecimal digit.
pub open spec fn spec_is_hex_digit(b: u8) -> bool {
    (48 <= b <= 57) || (97 <= b <= 102) || (65 <= b <= 70)
}

/// The value of one hexadecimal digit.
pub open spec fn spec_hex_digit_val(b: u8) -> int {
    if 48 <= b <= 57 {
        b - 48
    } else if 97 <= b <= 102 {
        b - 87
    } else {
        b - 55
    }
}

pub open spec fn spec_all_hex(s: Seq<u8>) -> bool {
    forall|i: int| 0 <= i < s.len() ==> spec_is_hex_digit(#[trigger] s[i])
}

/// The value of a hexadecimal digit string, most significant digit first.
pub open spec fn spec_hex_val(s: Seq<u8>) -> int
    decreases s.len(),
{
    if s.len() == 0 {
        0
    } else {
        spec_hex_val(s.drop_last()) * 16 + spec_hex_digit_val(s.last())
    }
}

/// A hexadecimal address field as a `usize`: present iff the field is a
/// non-empty run of hex digits whose value fits the type.
pub open spec fn spec_parse_hex(s: Seq<u8>) -> Option<usize> {
    if s.len() == 0 || !spec_all_hex(s) {
        None
    } else if spec_hex_val(s) > usize::MAX {
        None
    } else {
        Some(spec_hex_val(s) as usize)
    }
}

proof fn lemma_hex_val_nonneg(s: Seq<u8>)
    requires
        spec_all_hex(s),
    ensures
        spec_hex_val(s) >= 0,
    decreases s.len(),
{
    if s.len() > 0 {
        assert(spec_all_hex(s.drop_last()));
        lemma_hex_val_nonneg(s.drop_last());
    }
}

/// The value of a hex digit string is at least the value of any prefix.
proof fn lemma_hex_val_monotone(s: Seq<u8>, i: int)
    requires
        0 <= i <= s.len(),
        spec_all_hex(s),
    ensures
        spec_hex_val(s.take(i)) <= spec_hex_val(s),
    decreases s.len(),
{
    lemma_hex_val_nonneg(s);
    if i < s.len() {
        assert(spec_all_hex(s.drop_last()));
        assert(s.take(i) =~= s.drop_last().take(i));
        lemma_hex_val_monotone(s.drop_last(), i);
        lemma_hex_val_nonneg(s.drop_last());
    } else {
        assert(s.take(i) =~= s);
    }
}

/// Parses a non-empty run of hexadecimal digits as a `usize`.
pub fn parse_hex_usize(s: &[u8]) -> (r: Option<usize>)
    ensures
        r == spec_parse_hex(s@),
{
    let n = s.len();
    if n == 0 {
        return None;
    }
    let mut acc: usize = 0;
    let mut i: usize = 0;
    proof {
        vstd::arithmetic::div_mod::lemma_fundamental_div_mod(usize::MAX as int, 16);
    }
    while i < n
        invariant
            0 <= i <= n,
            n == s@.len(),
            spec_all_hex(s@.subrange(0, i as int)),
            acc == spec_hex_val(s@.subrange(0, i as int)),
        decreases n - i,
    {
        let b = s[i];
        let d: usize;
        if 48 <= b && b <= 57 {
            d = (b - 48) as usize;
        } else if 97 <= b && b <= 102 {
            d = (b - 87) as usize;
        } else if 65 <= b && b <= 70 {
            d = (b - 55) as usize;
        } else {
            proof {
                assert(s@[i as int] == b);
                assert(!spec_all_hex(s@));
            }
            return None;
        }
        proof {
            assert(s@.subrange(0, i as int + 1) =~= s@.subrange(0, i as int).push(b));
            assert(s@.subrange(0, i as int + 1).drop_last() =~= s@.subrange(0, i as int));
            assert(spec_hex_val(s@.subrange(0, i as int + 1)) == acc * 16 + spec_hex_digit_val(b));
        }
        if acc > usize::MAX / 16 || (acc == usize::MAX / 16 && d > usize::MAX % 16) {
            // The value of the digits seen so far no longer fits, so the
            // whole field cannot fit either.
            proof {
                vstd::arithmetic::div_mod::lemma_fundamental_div_mod(usize::MAX as int, 16);
                assert(acc * 16 + d > usize::MAX);
                if spec_all_hex(s@) {
                    assert(s@.take(i as int + 1) =~= s@.subrange(0, i as int + 1));
                    lemma_hex_val_monotone(s@, i as int + 1);
                    assert(spec_hex_val(s@) > usize::MAX);
                }
            }
            return None;
        }
        proof {
            vstd::arithmetic::div_mod::lemma_fundamental_div_mod(usize::MAX as int, 16);
            assert(acc * 16 + d <= usize::MAX);
        }
        acc = acc * 16 + d;
        i += 1;
    }
    proof {
        assert(s@.subrange(0, n as int) =~= s@);
    }
    Some(acc)
}

/// The index of the first `-` byte, or the length when none occurs.
pub open spec fn spec_find_dash(s: Seq<u8>) -> int
    decreases s.len(),
{
    if s.len() == 0 {
        0
    } else if s[0] == 45 {
        0
    } else {
        1 + spec_find_dash(s.skip(1))
    }
}

proof fn lemma_find_dash_is(s: Seq<u8>, i: int)
    requires
        0 <= i <= s.len(),
        forall|j: int| 0 <= j < i ==> s[j] != 45,
        i < s.len() ==> s[i] == 45,
    ensures
        spec_find_dash(s) == i,
    decreases s.len(),
{
    if s.len() > 0 && s[0] != 45 {
        lemma_find_dash_is(s.skip(1), i - 1);
    }
}

/// Finds the first `-` byte in a field, or its length when none occurs.
fn find_dash_index(s: &[u8]) -> (r: usize)
    ensures
        r == spec_find_dash(s@),
        r <= s@.len(),
{
    let n = s.len();
    let mut i: usize = 0;
    while i < n
        invariant
            0 <= i <= n,
            n == s@.len(),
            forall|j: int| 0 <= j < i ==> s@[j] != 45,
        decreases n - i,
    {
        if s[i] == 45 {
            proof {
                lemma_find_dash_is(s@, i as int);
            }
            return i;
        }
        i += 1;
    }
    proof {
        lemma_find_dash_is(s@, n as int);
    }
    n
}

/// The address range and permission fields of one map line, parsed: the
/// line must hold at least two separator-delimited fields, the first of
/// the form `start-end` with both parts non-empty hex runs that fit a
/// `usize` and `end >= start`, and the second carrying the `rwx` flags in
/// its first three bytes.
pub open spec fn spec_parse_maps_line(s: Seq<u8>) -> Option<MemoryRegion> {
    let a0 = spec_skip_ws(s, 0);
    let e0 = spec_token_end(s, a0);
    let a1 = spec_skip_ws(s, e0);
    let e1 = spec_token_end(s, a1);
    let t0 = s.subrange(a0, e0);
    let t1 = s.subrange(a1, e1);
    if t0.len() == 0 || t1.len() == 0 {
        None
    } else {
        spec_parse_range_and_perms(t0, t1)
    }
}

/// Parses `start-end` and permission fields into a region descriptor.
pub open spec fn spec_parse_range_and_perms(t0: Seq<u8>, t1: Seq<u8>) -> Option<MemoryRegion> {
    let d = spec_find_dash(t0);
    if d == t0.len() || spec_find_dash(t0.skip(d + 1)) != t0.skip(d + 1).len() {
        // no dash, or more than one dash
        None
    } else {
        match (spec_parse_hex(t0.take(d)), spec_parse_hex(t0.skip(d + 1))) {
            (Some(start), Some(end)) => if end < start {
                None
            } else {
                Some(
                    MemoryRegion {
                        start_address: start,
                        size: (end - start) as usize,
                        readable: t1.len() > 0 && t1[0] == 114,
                        writable: t1.len() > 1 && t1[1] == 119,
                        executable: t1.len() > 2 && t1[2] == 120,
                    },
                )
            },
            _ => None,
        }
    }
}

/// Parses one line of the OS's per-process memory map into a region
/// descriptor, when the line has the expected shape.
pub fn parse_maps_line(line: &[u8]) -> (r: Option<MemoryRegion>)
    ensures
        r == spec_parse_maps_line(line@),
{
    let a0 = skip_ws_index(line, 0);
    let e0 = token_end_index(line, a0);
    let a1 = skip_ws_index(line, e0);
    let e1 = token_end_index(line, a1);
    if a0 == e0 || a1 == e1 {
        proof {
            assert(line@.subrange(a0 as int, e0 as int).len() == 0 || line@.subrange(
                a1 as int,
                e1 as int,
            ).len() == 0);
        }
        return None;
    }
    let t0 = vstd::slice::slice_subrange(line, a0, e0);
    let t1 = vstd::slice::slice_subrange(line, a1, e1);
    let ghost gt0 = line@.subrange(a0 as int, e0 as int);
    let ghost gt1 = line@.subrange(a1 as int, e1 as int);

    // split the first field at its single dash
    let t0n = t0.len();
    let d = find_dash_index(t0);
    if d == t0n {
        return None;
    }
    let h2 = vstd::slice::slice_subrange(t0, d + 1, t0n);
    proof {
        assert(h2@ =~= gt0.skip(d as int + 1));
    }
    // reject a second dash
    let k = find_dash_index(h2);
    if k < h2.len() {
        return None;
    }
    let h1 = vstd::slice::slice_subrange(t0, 0, d);
    proof {
        assert(h1@ =~= gt0.take(d as int));
    }
    let start = match parse_hex_usize(h1) {
        Some(v) => v,
        None => {
            return None;
        },
    };
    let end = match parse_hex_usize(h2) {
        Some(v) => v,
        None => {
            return None;
        },
    };
    if end < start {
        return None;
    }
    Some(
        MemoryRegion {
            start_address: start,
            size: end - start,
            readable: t1.len() > 0 && t1[0] == 114,
            writable: t1.len() > 1 && t1[1] == 119,
            executable: t1.len() > 2 && t1[2] == 120,
        },
    )
}

/// Whether `address` falls in a writable region: the first region of the
/// listing that contains the address decides; an unmapped address is not
/// writable.
pub open spec fn spec_writable_at(rs: Seq<MemoryRegion>, a: int) -> bool
    decreases rs.len(),
{
    if rs.len() == 0 {
        false
    } else if rs[0].start_address <= a < rs[0].start_address + rs[0].size {
        rs[0].writable
    } else {
        spec_writable_at(rs.skip(1), a)
    }
}

/// Looks an address up in a region listing and reports whether the
/// region holding it is writable.
pub fn is_address_writable(regions: &Vec<MemoryRegion>, address: usize) -> (r: bool)
    ensures
        r == spec_writable_at(regions@, address as int),
{
    let n = regions.len();
    let mut i: usize = 0;
    proof {
        assert(regions@.skip(0) =~= regions@);
    }
    while i < n
        invariant
            0 <= i <= n,
            n == regions@.len(),
            spec_writable_at(regions@, address as int) == spec_writable_at(
                regions@.skip(i as int),
                address as int,
            ),
        decreases n - i,
    {
        let region = &regions[i];
        proof {
            assert(regions@.skip(i as int)[0] == regions@[i as int]);
            assert(regions@.skip(i as int).skip(1) =~= regions@.skip(i as int + 1));
        }
        if address >= region.start_address && address - region.start_address < region.size {
            return region.writable;
        }
        i += 1;
    }
    proof {
        assert(regions@.skip(n as int) =~= Seq::<MemoryRegion>::empty());
    }
    false
}

} // verus!
