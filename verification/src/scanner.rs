//! Chunked pattern scanning over a foreign process's readable memory.
//!
//! A scan is a state machine: `ScanSession::begin` filters the region
//! listing down to scannable regions, `next_request` names the next
//! `(address, length)` read the caller should perform against the foreign
//! process, and `feed_chunk` / `skip_chunk` consume the outcome.  Each
//! read window overlaps the next chunk by `pattern.len() - 1` bytes, so
//! an occurrence straddling a chunk boundary is still found; an
//! unreadable chunk is skipped, not fatal.  Results are capped at
//! `MAX_SCAN_RESULTS`; reaching the cap stops the scan early and flags
//! the result set as truncated.

use vstd::prelude::*;

use crate::region::{MemoryRegion, spec_scannable, spec_scannable_filter, scannable_regions};
use crate::region::lemma_scannable_filter_props;
use vstd::string::StringExecFns;

verus! {

/// Memory is read in fixed chunks of this stride to bound memory use.
pub const CHUNK_SIZE: usize = 64 * 1024;

/// The global result ceiling: a scan stops early once it has this many
/// matches and flags the result set as truncated.
pub const MAX_SCAN_RESULTS: usize = 10000;

/// One address where the pattern was found.
#[derive(Debug, Clone, Copy, PartialEq, Eq, Structural)]
pub struct ScanResult {
    pub address: usize,
}

/// Why a scan could not run or a read could not serve it.
#[derive(Debug, PartialEq, Eq)]
pub enum ScanError {
    MemoryReadError(String),
    NoMemoryRegions,
    InvalidValue,
}

impl Clone for ScanError {
    /// An exact copy of the error, message and all.
    fn clone(&self) -> (r: Self)
        ensures
            r == *self,
    {
        match self {
            ScanError::MemoryReadError(m) => ScanError::MemoryReadError(m.clone()),
            ScanError::NoMemoryRegions => ScanError::NoMemoryRegions,
            ScanError::InvalidValue => ScanError::InvalidValue,
        }
    }
}

impl ScanError {
    /// A human-readable description of the error.
    pub fn message(&self) -> (r: String)
        ensures
            r@ == match self {
                ScanError::MemoryReadError(m) => "Memory read error: "@ + m@,
                ScanError::NoMemoryRegions => "No scannable memory regions found"@,
                ScanError::InvalidValue => "Invalid search value"@,
            },
    {
        match self {
            ScanError::MemoryReadError(m) => {
                let mut s = String::from_str("Memory read error: ");
                s.append(m.as_str());
                s
            },
            ScanError::NoMemoryRegions => String::from_str("No scannable memory regions found"),
            ScanError::InvalidValue => String::from_str("Invalid search value"),
        }
    }
}

// ---------------------------------------------------------------------------
// Occurrences of a pattern in a byte run
// ---------------------------------------------------------------------------

/// The pattern occurs in `data` at offset `i`.
pub open spec fn spec_is_match_at(data: Seq<u8>, pat: Seq<u8>, i: int) -> bool {
    &&& 0 <= i
    &&& i + pat.len() <= data.len()
    &&& data.subrange(i, i + pat.len() as int) == pat
}

/// The occurrence offsets below `n`, in ascending order.
pub open spec fn spec_match_indices_upto(data: Seq<u8>, pat: Seq<u8>, n: int) -> Seq<int>
    decreases n,
{
    if n <= 0 {
        Seq::empty()
    } else {
        let r = spec_match_indices_upto(data, pat, n - 1);
        if spec_is_match_at(data, pat, n - 1) {
            r.push(n - 1)
        } else {
            r
        }
    }
}

/// All occurrence offsets of the pattern in `data`, in ascending order.
pub open spec fn spec_match_indices(data: Seq<u8>, pat: Seq<u8>) -> Seq<int> {
    spec_match_indices_upto(data, pat, data.len() - pat.len() + 1)
}

/// Every occurrence offset is listed: `spec_match_indices` is complete.
pub proof fn lemma_match_indices_complete(data: Seq<u8>, pat: Seq<u8>, i: int)
    requires
        pat.len() >= 1,
        spec_is_match_at(data, pat, i),
    ensures
        spec_match_indices(data, pat).contains(i),
{
    lemma_match_indices_upto_complete(data, pat, i, data.len() - pat.len() + 1);
}

proof fn lemma_match_indices_upto_complete(data: Seq<u8>, pat: Seq<u8>, i: int, n: int)
    requires
        spec_is_match_at(data, pat, i),
        i < n,
    ensures
        spec_match_indices_upto(data, pat, n).contains(i),
    decreases n,
{
    if i == n - 1 {
        let r = spec_match_indices_upto(data, pat, n);
        assert(r.last() == i);
    } else {
        lemma_match_indices_upto_complete(data, pat, i, n - 1);
        let prev = spec_match_indices_upto(data, pat, n - 1);
        let j = choose|j: int| 0 <= j < prev.len() && prev[j] == i;
        assert(spec_match_indices_upto(data, pat, n)[j] == i);
    }
}

/// The result record for an occurrence at relative offset `i`.
pub open spec fn spec_result_at(base: int, i: int) -> ScanResult {
    ScanResult { address: (base + i) as usize }
}

fn slice_eq_at(chunk: &[u8], pat: &[u8], i: usize) -> (r: bool)
    requires
        i + pat@.len() <= chunk@.len(),
    ensures
        r == (chunk@.subrange(i as int, i as int + pat@.len() as int) == pat@),
{
    let plen = pat.len();
    let clen = chunk.len();
    let mut j: usize = 0;
    while j < plen
        invariant
            0 <= j <= plen,
            plen == pat@.len(),
            clen == chunk@.len(),
            i + plen <= chunk@.len(),
            forall|k: int| 0 <= k < j ==> chunk@[i + k] == pat@[k],
        decreases plen - j,
    {
        if chunk[i + j] != pat[j] {
            proof {
                assert(chunk@.subrange(i as int, i as int + plen as int)[j as int] == chunk@[i
                    + j]);
            }
            return false;
        }
        j += 1;
    }
    proof {
        assert(chunk@.subrange(i as int, i as int + plen as int) =~= pat@);
    }
    true
}

/// Finds every occurrence of `target_bytes` in `chunk`, reporting each
/// as the absolute address `base_address + offset`, in ascending order.
pub fn search_bytes_in_chunk(chunk: &[u8], target_bytes: &[u8], base_address: usize) -> (r: Vec<
    ScanResult,
>)
    requires
        target_bytes@.len() >= 1,
        base_address + chunk@.len() <= usize::MAX,
    ensures
        r@ == spec_match_indices(chunk@, target_bytes@).map_values(
            |i: int| spec_result_at(base_address as int, i),
        ),
{
    let clen = chunk.len();
    let plen = target_bytes.len();
    let upper: usize = if clen < plen {
        0
    } else {
        clen - plen + 1
    };
    let mut out: Vec<ScanResult> = Vec::new();
    let mut i: usize = 0;
    while i < upper
        invariant
            0 <= i <= upper,
            clen == chunk@.len(),
            plen == target_bytes@.len(),
            plen >= 1,
            upper == if clen < plen {
                0int
            } else {
                clen - plen + 1
            },
            base_address + clen <= usize::MAX,
            out@ == spec_match_indices_upto(chunk@, target_bytes@, i as int).map_values(
                |k: int| spec_result_at(base_address as int, k),
            ),
        decreases upper - i,
    {
        let ghost f = |k: int| spec_result_at(base_address as int, k);
        if slice_eq_at(chunk, target_bytes, i) {
            out.push(ScanResult { address: base_address + i });
            proof {
                let prev = spec_match_indices_upto(chunk@, target_bytes@, i as int);
                assert(spec_match_indices_upto(chunk@, target_bytes@, i as int + 1) == prev.push(
                    i as int,
                ));
                assert(prev.push(i as int).map_values(f) =~= prev.map_values(f).push(
                    f(i as int),
                ));
            }
        } else {
            proof {
                assert(spec_match_indices_upto(chunk@, target_bytes@, i as int + 1)
                    == spec_match_indices_upto(chunk@, target_bytes@, i as int));
            }
        }
        i += 1;
    }
    proof {
        if clen < plen {
            assert(spec_match_indices(chunk@, target_bytes@) == Seq::<int>::empty());
            assert(out@ =~= spec_match_indices(chunk@, target_bytes@).map_values(
                |k: int| spec_result_at(base_address as int, k),
            ));
        }
    }
    out
}

// ---------------------------------------------------------------------------
// The chunked scan session
// ---------------------------------------------------------------------------

/// The length of the read window issued at `offset` of a region of
/// `size` bytes: a full chunk plus `plen - 1` carried bytes so that an
/// occurrence straddling the chunk boundary still fits one window, but
/// never past the region end.
pub open spec fn spec_window_len(size: int, offset: int, plen: int) -> int {
    if size - offset <= CHUNK_SIZE + plen - 1 {
        size - offset
    } else {
        CHUNK_SIZE + plen - 1
    }
}

/// How far the scan position moves after a chunk: one chunk stride, or
/// to the region end.
pub open spec fn spec_stride(size: int, offset: int) -> int {
    if size - offset <= CHUNK_SIZE {
        size - offset
    } else {
        CHUNK_SIZE as int
    }
}

/// An in-progress chunked scan over the scannable regions.
pub struct ScanSession {
    /// The byte pattern searched for.
    pub pattern: Vec<u8>,
    /// The scannable regions, in listing order.
    pub regions: Vec<MemoryRegion>,
    /// The region currently being scanned.
    pub region_idx: usize,
    /// The offset of the next chunk inside the current region.
    pub offset: usize,
    /// The matches found so far, in region order then ascending address.
    pub results: Vec<ScanResult>,
    /// Whether the scan stopped early at the result ceiling.
    pub truncated: bool,
}

impl ScanSession {
    /// Well-formedness: a non-empty pattern, only scannable in-bounds
    /// regions, a chunk-aligned position inside the current region, and
    /// a result list within the ceiling.
    pub open spec fn wf(&self) -> bool {
        &&& self.pattern@.len() >= 1
        &&& self.region_idx <= self.regions@.len()
        &&& forall|i: int|
            0 <= i < self.regions@.len() ==> spec_scannable(#[trigger] self.regions@[i]) && (
            self.regions@[i].start_address + self.regions@[i].size <= usize::MAX)
        &&& (self.region_idx < self.regions@.len() ==> self.offset < self.regions@[self.region_idx
            as int].size && self.offset as int % (CHUNK_SIZE as int) == 0)
        &&& self.results@.len() <= MAX_SCAN_RESULTS
        &&& (self.truncated <==> self.results@.len() == MAX_SCAN_RESULTS)
    }

    /// The read the caller should perform next, if any.
    pub open spec fn spec_next_request(&self) -> Option<(usize, usize)> {
        if self.truncated || self.region_idx >= self.regions@.len() {
            None
        } else {
            let reg = self.regions@[self.region_idx as int];
            Some(
                (
                    (reg.start_address + self.offset) as usize,
                    spec_window_len(
                        reg.size as int,
                        self.offset as int,
                        self.pattern@.len() as int,
                    ) as usize,
                ),
            )
        }
    }

    /// Starts a scan: keeps the scannable regions of the listing, fails
    /// with `InvalidValue` on an empty pattern and with
    /// `NoMemoryRegions` when no scannable region remains.
    pub fn begin(all_regions: &Vec<MemoryRegion>, pattern: Vec<u8>) -> (r: Result<
        ScanSession,
        ScanError,
    >)
        requires
            forall|i: int|
                0 <= i < all_regions@.len() ==> (#[trigger] all_regions@[i]).start_address
                    + all_regions@[i].size <= usize::MAX,
        ensures
            match r {
                Ok(s) => {
                    &&& pattern@.len() >= 1
                    &&& spec_scannable_filter(all_regions@).len() > 0
                    &&& s.wf()
                    &&& s.pattern == pattern
                    &&& s.regions@ == spec_scannable_filter(all_regions@)
                    &&& s.region_idx == 0
                    &&& s.offset == 0
                    &&& s.results@ == Seq::<ScanResult>::empty()
                    &&& !s.truncated
                },
                Err(e) => match e {
                    ScanError::InvalidValue => pattern@.len() == 0,
                    ScanError::NoMemoryRegions => pattern@.len() >= 1 && spec_scannable_filter(
                        all_regions@,
                    ).len() == 0,
                    _ => false,
                },
            },
    {
        if pattern.len() == 0 {
            return Err(ScanError::InvalidValue);
        }
        let regions = scannable_regions(all_regions);
        if regions.len() == 0 {
            return Err(ScanError::NoMemoryRegions);
        }
        proof {
            lemma_scannable_filter_props(all_regions@);
        }
        Ok(
            ScanSession {
                pattern,
                regions,
                region_idx: 0,
                offset: 0,
                results: Vec::new(),
                truncated: false,
            },
        )
    }

    /// The next read to perform against the foreign process, as
    /// `(address, length)`, or `None` when the scan is finished.
    pub fn next_request(&self) -> (r: Option<(usize, usize)>)
        requires
            self.wf(),
        ensures
            r == self.spec_next_request(),
    {
        if self.truncated || self.region_idx >= self.regions.len() {
            return None;
        }
        let reg = self.regions[self.region_idx];
        let rem = reg.size - self.offset;
        let plen = self.pattern.len();
        let len: usize = if rem <= CHUNK_SIZE {
            rem
        } else {
            let extra = if plen - 1 < rem - CHUNK_SIZE {
                plen - 1
            } else {
                rem - CHUNK_SIZE
            };
            CHUNK_SIZE + extra
        };
        Some((reg.start_address + self.offset, len))
    }

    /// Whether the scan has finished, by exhausting the regions or by
    /// hitting the result ceiling.
    pub fn is_done(&self) -> (r: bool)
        ensures
            r == (self.truncated || self.region_idx >= self.regions@.len()),
    {
        self.truncated || self.region_idx >= self.regions.len()
    }

    /// Consumes the bytes read for the pending request: records every
    /// occurrence of the pattern in the window (up to the result
    /// ceiling) and advances by one chunk stride.  The caller may hand
    /// in fewer bytes than requested when the read came back short.
    pub fn feed_chunk(&mut self, data: &[u8])
        requires
            old(self).wf(),
            !old(self).truncated,
            old(self).region_idx < old(self).regions@.len(),
            data@.len() <= spec_window_len(
                old(self).regions@[old(self).region_idx as int].size as int,
                old(self).offset as int,
                old(self).pattern@.len() as int,
            ),
        ensures
            final(self).wf(),
            final(self).pattern == old(self).pattern,
            final(self).regions == old(self).regions,
            Self::spec_advanced(*old(self), *final(self)),
            ({
                let reg = old(self).regions@[old(self).region_idx as int];
                let base = reg.start_address + old(self).offset;
                let found = spec_match_indices(data@, old(self).pattern@);
                let room = MAX_SCAN_RESULTS - old(self).results@.len();
                let kept = if found.len() <= room {
                    found
                } else {
                    found.take(room as int)
                };
                &&& final(self).results@ == old(self).results@ + kept.map_values(
                    |i: int| spec_result_at(base as int, i),
                )
                &&& (final(self).truncated <==> final(self).results@.len() == MAX_SCAN_RESULTS)
            }),
    {
        let reg = self.regions[self.region_idx];
        let base = reg.start_address + self.offset;
        let found = search_bytes_in_chunk(data, &self.pattern, base);
        let flen = found.len();
        let ghost spec_found = spec_match_indices(data@, self.pattern@);
        let ghost f = |i: int| spec_result_at(base as int, i);
        let mut j: usize = 0;
        while j < flen && self.results.len() < MAX_SCAN_RESULTS
            invariant
                0 <= j <= flen,
                flen == found@.len(),
                found@ == spec_found.map_values(f),
                self.results@.len() <= MAX_SCAN_RESULTS,
                self.results@ == old(self).results@ + found@.take(j as int),
                j < flen ==> self.results@.len() == old(self).results@.len() + j,
                self.pattern == old(self).pattern,
                self.regions == old(self).regions,
                self.region_idx == old(self).region_idx,
                self.offset == old(self).offset,
                self.truncated == old(self).truncated,
            decreases flen - j,
        {
            let m = found[j];
            self.results.push(m);
            proof {
                assert(self.results@ =~= old(self).results@ + found@.take(j as int + 1));
            }
            j += 1;
        }
        proof {
            let room = MAX_SCAN_RESULTS - old(self).results@.len();
            let kept = if spec_found.len() <= room {
                spec_found
            } else {
                spec_found.take(room as int)
            };
            if j < flen {
                // stopped at the ceiling
                assert(self.results@.len() == MAX_SCAN_RESULTS);
                assert(j == room);
                assert(found@.take(j as int) =~= kept.map_values(f));
            } else {
                assert(found@.take(j as int) =~= found@);
                if spec_found.len() > room {
                    assert(self.results@.len() > MAX_SCAN_RESULTS);  // contradiction path
                }
                assert(found@ =~= kept.map_values(f));
            }
        }
        if self.results.len() >= MAX_SCAN_RESULTS {
            self.truncated = true;
        }
        self.advance();
    }

    /// Skips the pending request, as when its read failed, and advances
    /// by one chunk stride; nothing is recorded.
    pub fn skip_chunk(&mut self)
        requires
            old(self).wf(),
            !old(self).truncated,
            old(self).region_idx < old(self).regions@.len(),
        ensures
            final(self).wf(),
            final(self).pattern == old(self).pattern,
            final(self).regions == old(self).regions,
            final(self).results == old(self).results,
            final(self).truncated == old(self).truncated,
            Self::spec_advanced(*old(self), *final(self)),
    {
        self.advance();
    }

    /// How the scan position moves when one chunk is consumed: forward
    /// by one stride, rolling into the next region at the region end.
    pub open spec fn spec_advanced(pre: ScanSession, post: ScanSession) -> bool {
        let reg = pre.regions@[pre.region_idx as int];
        let stride = spec_stride(reg.size as int, pre.offset as int);
        if pre.offset + stride == reg.size {
            post.region_idx == pre.region_idx + 1 && post.offset == 0
        } else {
            post.region_idx == pre.region_idx && post.offset == pre.offset + stride
        }
    }

    fn advance(&mut self)
        requires
            old(self).wf(),
            old(self).region_idx < old(self).regions@.len(),
        ensures
            final(self).wf(),
            final(self).pattern == old(self).pattern,
            final(self).regions == old(self).regions,
            final(self).results == old(self).results,
            final(self).truncated == old(self).truncated,
            Self::spec_advanced(*old(self), *final(self)),
    {
        let n = self.regions.len();
        let reg = self.regions[self.region_idx];
        let rem = reg.size - self.offset;
        if rem <= CHUNK_SIZE {
            self.region_idx += 1;
            self.offset = 0;
        } else {
            proof {
                vstd::arithmetic::div_mod::lemma_mod_adds(
                    self.offset as int,
                    CHUNK_SIZE as int,
                    CHUNK_SIZE as int,
                );
                vstd::arithmetic::div_mod::lemma_mod_self_0(CHUNK_SIZE as int);
            }
            self.offset += CHUNK_SIZE;
        }
    }
}

// ---------------------------------------------------------------------------
// Boundary coverage: the heart of chunked-scan completeness
// ---------------------------------------------------------------------------

/// An occurrence of the pattern at offset `i` of a region lies wholly
/// inside the read window issued at chunk offset `(i / CHUNK_SIZE) *
/// CHUNK_SIZE` — a chunk-aligned offset inside the region, so the
/// session visits it.  Together with the exact contract of
/// `search_bytes_in_chunk` this says that chunked scanning misses no
/// occurrence, including one whose bytes straddle a chunk boundary.
pub proof fn lemma_window_covers_occurrence(size: int, plen: int, i: int)
    requires
        1 <= plen,
        0 <= i,
        i + plen <= size,
    ensures
        ({
            let c = CHUNK_SIZE as int;
            let off = (i / c) * c;
            &&& 0 <= off <= i
            &&& off < size
            &&& off % c == 0
            &&& i + plen <= off + spec_window_len(size, off, plen)
        }),
{
    let c = CHUNK_SIZE as int;
    assert(c == 65536);
    let k = i / c;
    let off = k * c;
    vstd::arithmetic::div_mod::lemma_fundamental_div_mod(i, c);
    vstd::arithmetic::div_mod::lemma_mod_bound(i, c);
    vstd::arithmetic::div_mod::lemma_mod_multiples_basic(k, c);
    assert(off == i - i % c);
    if size - off <= c + plen - 1 {
        assert(spec_window_len(size, off, plen) == size - off);
    } else {
        assert(spec_window_len(size, off, plen) == c + plen - 1);
        assert(i % c <= c - 1);
    }
}

/// Beyond the last possible start offset the occurrence list no longer
/// grows: it is the complete list.
proof fn lemma_match_indices_upto_saturates(data: Seq<u8>, pat: Seq<u8>, m: int)
    requires
        pat.len() >= 1,
        m >= data.len() - pat.len() + 1,
    ensures
        spec_match_indices_upto(data, pat, m) == spec_match_indices(data, pat),
    decreases m - (data.len() - pat.len() + 1),
{
    if m > data.len() - pat.len() + 1 {
        assert(!spec_is_match_at(data, pat, m - 1));
        lemma_match_indices_upto_saturates(data, pat, m - 1);
    }
}

/// The occurrence list below a bound is a prefix of the list below any
/// larger bound.
proof fn lemma_match_indices_upto_prefix(data: Seq<u8>, pat: Seq<u8>, m1: int, m2: int)
    requires
        m1 <= m2,
    ensures
        spec_match_indices_upto(data, pat, m1).len() <= spec_match_indices_upto(
            data,
            pat,
            m2,
        ).len(),
        spec_match_indices_upto(data, pat, m1) == spec_match_indices_upto(data, pat, m2).take(
            spec_match_indices_upto(data, pat, m1).len() as int,
        ),
    decreases m2 - m1,
{
    let a = spec_match_indices_upto(data, pat, m1);
    if m1 < m2 {
        lemma_match_indices_upto_prefix(data, pat, m1, m2 - 1);
        let b = spec_match_indices_upto(data, pat, m2 - 1);
        if spec_is_match_at(data, pat, m2 - 1) {
            assert(b.push(m2 - 1).take(a.len() as int) =~= b.take(a.len() as int));
        }
    } else {
        assert(a.take(a.len() as int) =~= a);
    }
}

/// The occurrences inside a window cut from the image are exactly the
/// image's occurrences over the window's span, shifted by the window's
/// offset — provided the window either reaches the image end or is
/// long enough to hold every occurrence starting below `k`.
proof fn lemma_match_indices_window(data: Seq<u8>, pat: Seq<u8>, o: int, w: Seq<u8>, k: int)
    requires
        pat.len() >= 1,
        0 <= o,
        o + w.len() <= data.len(),
        w == data.subrange(o, o + w.len() as int),
        0 <= k,
        o + w.len() >= data.len() || k + pat.len() - 1 <= w.len(),
    ensures
        spec_match_indices_upto(data, pat, o + k) == spec_match_indices_upto(data, pat, o)
            + spec_match_indices_upto(w, pat, k).map_values(|x: int| x + o),
    decreases k,
{
    let f = |x: int| x + o;
    if k <= 0 {
        assert(spec_match_indices_upto(w, pat, 0).map_values(f) =~= Seq::<int>::empty());
        assert(spec_match_indices_upto(data, pat, o) + Seq::<int>::empty() =~=
            spec_match_indices_upto(data, pat, o));
    } else {
        lemma_match_indices_window(data, pat, o, w, k - 1);
        let j = k - 1;
        if j + pat.len() <= w.len() {
            assert(w.subrange(j, j + pat.len() as int) =~= data.subrange(
                o + j,
                o + j + pat.len() as int,
            ));
            assert(spec_is_match_at(w, pat, j) == spec_is_match_at(data, pat, o + j));
        } else {
            assert(o + j + pat.len() > data.len());
            assert(!spec_is_match_at(w, pat, j));
            assert(!spec_is_match_at(data, pat, o + j));
        }
        let pw = spec_match_indices_upto(w, pat, j);
        let pd = spec_match_indices_upto(data, pat, o);
        if spec_is_match_at(data, pat, o + j) {
            assert(pw.push(j).map_values(f) =~= pw.map_values(f).push(o + j));
            assert(pd + pw.map_values(f).push(o + j) =~= (pd + pw.map_values(f)).push(o + j));
        }
    }
}

/// The same coverage stated against a live session: an occurrence at
/// relative offset `i` of one of the session's regions lies wholly
/// inside the read request `(addr, len)` that the session issues when
/// its position reaches the covering chunk offset of that region.
pub proof fn lemma_session_request_covers(s: ScanSession, ridx: int, i: int)
    requires
        s.wf(),
        0 <= ridx < s.regions@.len(),
        0 <= i,
        i + s.pattern@.len() <= s.regions@[ridx].size,
    ensures
        ({
            let c = CHUNK_SIZE as int;
            let reg = s.regions@[ridx];
            let off = (i / c) * c;
            let addr = reg.start_address + off;
            let len = spec_window_len(reg.size as int, off, s.pattern@.len() as int);
            &&& 0 <= off <= i < reg.size as int
            &&& off % c == 0
            &&& addr <= reg.start_address + i
            &&& reg.start_address + i + s.pattern@.len() <= addr + len
        }),
{
    let reg = s.regions@[ridx];
    lemma_window_covers_occurrence(reg.size as int, s.pattern@.len() as int, i);
}

/// Scans a fully readable region image held in memory, running the
/// chunked session from start to exhaustion.  Its contract is the
/// end-to-end completeness statement: the result lists exactly the
/// occurrences of the pattern in the image, in ascending order — an
/// occurrence straddling a chunk boundary included — and past the
/// result ceiling it is the first `MAX_SCAN_RESULTS` occurrences,
/// flagged truncated.
pub fn scan_image(base: usize, data: &[u8], pattern: Vec<u8>) -> (r: Result<
    (Vec<ScanResult>, bool),
    ScanError,
>)
    requires
        base + data@.len() <= usize::MAX,
    ensures
        match r {
            Ok(p) => ({
                let full = spec_match_indices(data@, pattern@).map_values(
                    |i: int| spec_result_at(base as int, i),
                );
                &&& pattern@.len() >= 1
                &&& data@.len() > 1024
                &&& (!p.1 ==> p.0@ == full)
                &&& (p.1 ==> full.len() >= MAX_SCAN_RESULTS && p.0@ == full.take(
                    MAX_SCAN_RESULTS as int,
                ))
            }),
            Err(e) => match e {
                ScanError::InvalidValue => pattern@.len() == 0,
                ScanError::NoMemoryRegions => pattern@.len() >= 1 && data@.len() <= 1024,
                _ => false,
            },
        },
{
    let ghost g = |i: int| spec_result_at(base as int, i);
    let region = MemoryRegion {
        start_address: base,
        size: data.len(),
        readable: true,
        writable: false,
        executable: false,
    };
    let mut region_list: Vec<MemoryRegion> = Vec::new();
    region_list.push(region);
    proof {
        assert(region_list@ =~= seq![region]);
        assert(seq![region].drop_last() =~= Seq::<MemoryRegion>::empty());
    }
    let mut session = match ScanSession::begin(&region_list, pattern) {
        Ok(s) => s,
        Err(e) => {
            return Err(e);
        },
    };
    proof {
        // the one-region listing filters to itself: the region must be
        // scannable, or the session could not have begun
        assert(region_list@.last() == region);
        assert(region_list@.drop_last() =~= Seq::<MemoryRegion>::empty());
        assert(spec_scannable_filter(region_list@.drop_last()) == Seq::<MemoryRegion>::empty());
        assert(spec_scannable_filter(region_list@).len() > 0);
        assert(spec_scannable(region));
        assert(spec_scannable_filter(region_list@) =~= seq![region]);
        assert(session.regions@ =~= seq![region]);
        assert(session.regions@[0] == region);
        assert(spec_match_indices_upto(data@, pattern@, 0).map_values(g) =~= Seq::<
            ScanResult,
        >::empty());
    }
    while !session.truncated && session.region_idx < session.regions.len()
        invariant
            session.wf(),
            session.pattern@ == pattern@,
            session.regions@.len() == 1,
            session.regions@[0] == region,
            region.start_address == base,
            region.size == data@.len(),
            base + data@.len() <= usize::MAX,
            session.region_idx <= 1,
            g == (|i: int| spec_result_at(base as int, i)),
            ({
                let bound = if session.region_idx == 0 {
                    session.offset as int
                } else {
                    data@.len() as int
                };
                let partial = spec_match_indices_upto(data@, pattern@, bound).map_values(g);
                &&& (!session.truncated ==> session.results@ == partial)
                &&& (session.truncated ==> partial.len() >= MAX_SCAN_RESULTS && session.results@
                    == partial.take(MAX_SCAN_RESULTS as int))
            }),
        decreases 1int - session.region_idx, data@.len() - session.offset,
    {
        let off = session.offset;
        let plen = session.pattern.len();
        let (addr, len) = match session.next_request() {
            Some(p) => p,
            None => {
                proof {
                    assert(false);
                }
                return Err(ScanError::InvalidValue);
            },
        };
        proof {
            assert(addr == base + off);
            assert(len as int == spec_window_len(data@.len() as int, off as int, plen as int));
            assert(off + len <= data@.len());
        }
        let chunk = vstd::slice::slice_subrange(data, off, off + len);
        let ghost pre_results = session.results@;
        let ghost pre_offset = session.offset as int;
        session.feed_chunk(chunk);
        proof {
            let plen_i = pattern@.len() as int;
            let o = pre_offset;
            let size = data@.len() as int;
            let w = data@.subrange(o, o + len as int);
            assert(chunk@ == w);
            let stride = spec_stride(size, o);
            // the window either reaches the image end or holds every
            // occurrence starting below one stride
            assert(o + w.len() >= size || stride + plen_i - 1 <= w.len());
            lemma_match_indices_window(data@, pattern@, o, w, stride);
            // within one window the occurrence list saturates at the stride
            assert(stride >= w.len() - plen_i + 1);
            lemma_match_indices_upto_saturates(w, pattern@, stride);
            let found = spec_match_indices(w, pattern@);
            let shifted = found.map_values(|x: int| x + o);
            assert(spec_match_indices_upto(data@, pattern@, o + stride)
                == spec_match_indices_upto(data@, pattern@, o) + shifted);
            // the per-feed results, re-based to the image origin
            let ff = found.map_values(|i: int| spec_result_at((base + off) as int, i));
            assert(shifted.map_values(g) =~= ff);
            let a = spec_match_indices_upto(data@, pattern@, o).map_values(g);
            let p_new = spec_match_indices_upto(data@, pattern@, o + stride).map_values(g);
            assert(p_new =~= a + ff);
            assert(pre_results == a);
            // the new scan position names the same bound
            let bound = if session.region_idx == 0 {
                session.offset as int
            } else {
                size
            };
            assert(bound == o + stride);
            let room = MAX_SCAN_RESULTS - a.len();
            if !session.truncated {
                assert(ff.len() <= room);
                assert(session.results@ == a + ff);
            } else {
                assert(session.results@.len() == MAX_SCAN_RESULTS);
                if ff.len() <= room {
                    assert(session.results@ == a + ff);
                    assert(p_new.take(MAX_SCAN_RESULTS as int) =~= session.results@);
                } else {
                    assert(session.results@ == a + ff.take(room as int));
                    assert(p_new.take(MAX_SCAN_RESULTS as int) =~= a + ff.take(room as int));
                }
                assert(p_new.len() >= MAX_SCAN_RESULTS);
            }
        }
    }
    proof {
        let size = data@.len() as int;
        lemma_match_indices_upto_saturates(data@, pattern@, size);
        let full = spec_match_indices(data@, pattern@).map_values(g);
        if session.truncated {
            let bound = if session.region_idx == 0 {
                session.offset as int
            } else {
                size
            };
            let u = spec_match_indices_upto(data@, pattern@, bound);
            lemma_match_indices_upto_prefix(data@, pattern@, bound, size);
            assert(u == spec_match_indices(data@, pattern@).take(u.len() as int));
            assert(u.map_values(g) =~= full.take(u.len() as int));
            assert(u.map_values(g).take(MAX_SCAN_RESULTS as int) =~= full.take(
                MAX_SCAN_RESULTS as int,
            ));
        } else {
            assert(session.region_idx == 1);
            assert(session.results@ == spec_match_indices_upto(data@, pattern@, size).map_values(
                g,
            ));
        }
    }
    Ok((session.results, session.truncated))
}

} // verus!
