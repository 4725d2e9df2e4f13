//! Continuous monitoring of registered addresses in a foreign process.
//!
//! `MemoryMonitor` is the decision core of the poll loop: the caller
//! reads each target twice per cycle (with a short delay between the
//! reads) and hands both samples to `apply_reads`, which applies the
//! stability rule, seeds or compares the stored value under the type's
//! equality, and appends detected changes to the bounded change log.
//! The surrounding application owns the thread, the sleeps and the
//! actual reads; every decision lives here, verified.

use vstd::prelude::*;

use crate::codec::{
    DataType, spec_width, spec_content, spec_first_zero, first_zero_index, lemma_first_zero,
    lemma_first_zero_is,
};
use vstd::pervasive::VecAdditionalExecFns;
use vstd::string::StringExecFns;

verus! {

/// The change log keeps at most this many entries; older entries are
/// evicted first.
pub const MAX_CHANGES_HISTORY: usize = 1000;

/// One registered address under observation.
#[derive(Debug)]
pub struct MonitorTarget {
    /// The monitored address, the registry key.
    pub address: usize,
    /// The declared type of the value at the address, fixed at creation.
    pub data_type: DataType,
    /// The display name given at registration.
    pub name: String,
    /// The raw bytes last accepted for this target; absent until the
    /// first stable read.
    pub last_value: Option<Vec<u8>>,
    /// How many changes were detected since registration.
    pub change_count: u64,
    /// When the last change was detected, in the caller's clock;
    /// absent until the first change.
    pub last_changed: Option<u64>,
}

/// One detected change, immutable once created.
#[derive(Debug)]
pub struct MonitorChange {
    pub address: usize,
    pub name: String,
    pub old_value: Vec<u8>,
    pub new_value: Vec<u8>,
    pub timestamp: u64,
    pub data_type: DataType,
}

/// Why the monitor could not start.
#[derive(Debug, Clone, Copy, PartialEq, Eq, Structural)]
pub enum MonitorError {
    AlreadyRunning,
}

// ---------------------------------------------------------------------------
// The type-aware value rules
// ---------------------------------------------------------------------------

/// Two byte samples carry the same value of the given type: numeric
/// types compare byte-identical; the string type compares only the
/// content preceding each sample's own first zero byte.
pub open spec fn spec_same_value(dt: DataType, a: Seq<u8>, b: Seq<u8>) -> bool {
    match dt {
        DataType::String(_) => spec_content(a) == spec_content(b),
        _ => a == b,
    }
}

/// A sample has a usable length for the type: the exact width for a
/// numeric type, at most the buffer length for a string.
pub open spec fn spec_sample_ok(dt: DataType, s: Seq<u8>) -> bool {
    match dt {
        DataType::String(n) => s.len() <= n,
        _ => s.len() == spec_width(dt),
    }
}

/// The views of an optional byte read.
pub open spec fn spec_opt_bytes(o: Option<Vec<u8>>) -> Option<Seq<u8>> {
    match o {
        Some(v) => Some(v@),
        None => None,
    }
}

/// A pair of reads yields an accepted (stability-confirmed) sample:
/// both reads succeeded with usable lengths and agree under the type's
/// equality rule.
pub open spec fn spec_accepts(dt: DataType, first: Option<Seq<u8>>, second: Option<Seq<u8>>) -> bool {
    match (first, second) {
        (Some(a), Some(b)) => spec_sample_ok(dt, a) && spec_sample_ok(dt, b) && spec_same_value(
            dt,
            a,
            b,
        ),
        _ => false,
    }
}

/// An accepted sample produces a change event iff a previous value was
/// stored and the sample differs from it under the type's equality:
/// the first observation seeds silently.
pub open spec fn spec_step_emits(last: Option<Seq<u8>>, dt: DataType, sample: Seq<u8>) -> bool {
    match last {
        Some(p) => !spec_same_value(dt, p, sample),
        None => false,
    }
}

/// The change log after appending an entry: the oldest entry is evicted
/// when the log would exceed its capacity.
pub open spec fn spec_log_push<T>(log: Seq<T>, e: T, cap: int) -> Seq<T> {
    if log.len() + 1 > cap {
        log.push(e).skip(1)
    } else {
        log.push(e)
    }
}

/// A change record carries exactly these field values.
pub open spec fn spec_change_matches(
    c: MonitorChange,
    address: usize,
    name: Seq<char>,
    old_v: Seq<u8>,
    new_v: Seq<u8>,
    ts: u64,
    dt: DataType,
) -> bool {
    &&& c.address == address
    &&& c.name@ == name
    &&& c.old_value@ == old_v
    &&& c.new_value@ == new_v
    &&& c.timestamp == ts
    &&& c.data_type == dt
}

// ---------------------------------------------------------------------------
// Registry lookup
// ---------------------------------------------------------------------------

/// Some target carries this address.
pub open spec fn spec_has_target(ts: Seq<MonitorTarget>, address: usize) -> bool {
    exists|i: int| 0 <= i < ts.len() && (#[trigger] ts[i]).address == address
}

/// The index of the target carrying this address (unique when the
/// registry is well-formed).
pub open spec fn spec_target_index(ts: Seq<MonitorTarget>, address: usize) -> int {
    choose|i: int| 0 <= i < ts.len() && (#[trigger] ts[i]).address == address
}

// ---------------------------------------------------------------------------
// The monitor
// ---------------------------------------------------------------------------

/// The monitoring engine: the target registry, the bounded change log,
/// the running and live-notification flags, and the poll interval.
/// The background loop that drives it is the caller's; all operations
/// here are plain state transitions.
pub struct MemoryMonitor {
    pub targets: Vec<MonitorTarget>,
    pub changes: Vec<MonitorChange>,
    pub running: bool,
    pub live_mode: bool,
    pub update_interval_ms: u64,
    pub max_changes_history: usize,
    /// How many changes were ever logged; when this exceeds the log's
    /// length, eviction has made the history partial.
    pub total_changes: u64,
    /// The pause between the two stability-check reads of a cycle, in
    /// milliseconds.
    pub stability_delay_ms: u64,
}

impl MemoryMonitor {
    /// Well-formedness: unique target addresses, stored values of
    /// usable length, and a change log within its capacity.
    pub open spec fn wf(&self) -> bool {
        &&& self.max_changes_history >= 1
        &&& self.changes@.len() <= self.max_changes_history
        &&& self.changes@.len() <= self.total_changes
        &&& forall|i: int, j: int|
            0 <= i < j < self.targets@.len() ==> (#[trigger] self.targets@[i]).address != (
            #[trigger] self.targets@[j]).address
        &&& forall|i: int|
            0 <= i < self.targets@.len() ==> match (#[trigger] self.targets@[i]).last_value {
                Some(v) => spec_sample_ok(self.targets@[i].data_type, v@),
                None => true,
            }
    }

    /// The construction-time configuration: the poll interval, the
    /// history capacity and the stability delay never change after
    /// construction.
    pub open spec fn spec_config_unchanged(pre: MemoryMonitor, post: MemoryMonitor) -> bool {
        &&& post.update_interval_ms == pre.update_interval_ms
        &&& post.max_changes_history == pre.max_changes_history
        &&& post.stability_delay_ms == pre.stability_delay_ms
    }

    /// A fresh monitor: no targets, no history, stopped, notifications
    /// off, polling every `update_interval_ms` milliseconds with the
    /// default one-millisecond pause between the two reads of a cycle.
    pub fn new(update_interval_ms: u64) -> (r: Self)
        ensures
            r.wf(),
            r.targets@ == Seq::<MonitorTarget>::empty(),
            r.changes@ == Seq::<MonitorChange>::empty(),
            !r.running,
            !r.live_mode,
            r.update_interval_ms == update_interval_ms,
            r.max_changes_history == MAX_CHANGES_HISTORY,
            r.total_changes == 0,
            r.stability_delay_ms == 1,
    {
        Self::with_timing(update_interval_ms, 1)
    }

    /// A fresh monitor with an explicit pause between the two
    /// stability-check reads of a cycle.  The double read is
    /// probabilistic mitigation of torn reads, not a correctness
    /// guarantee; a longer pause trades latency for fewer false
    /// instability verdicts.
    pub fn with_timing(update_interval_ms: u64, stability_delay_ms: u64) -> (r: Self)
        ensures
            r.wf(),
            r.targets@ == Seq::<MonitorTarget>::empty(),
            r.changes@ == Seq::<MonitorChange>::empty(),
            !r.running,
            !r.live_mode,
            r.update_interval_ms == update_interval_ms,
            r.max_changes_history == MAX_CHANGES_HISTORY,
            r.total_changes == 0,
            r.stability_delay_ms == stability_delay_ms,
    {
        MemoryMonitor {
            targets: Vec::new(),
            changes: Vec::new(),
            running: false,
            live_mode: false,
            update_interval_ms,
            max_changes_history: MAX_CHANGES_HISTORY,
            total_changes: 0,
            stability_delay_ms,
        }
    }

    /// The number of bytes read per cycle for a target of this type:
    /// the numeric width, or the string's maximum buffer length.
    pub fn get_data_type_size(data_type: &DataType) -> (r: usize)
        ensures
            r as int == spec_width(*data_type),
    {
        match data_type {
            DataType::I32 => 4,
            DataType::I64 => 8,
            DataType::F32 => 4,
            DataType::F64 => 8,
            DataType::String(n) => *n,
        }
    }

    /// The index of the target registered at `address`, if any.
    fn find_target(&self, address: usize) -> (r: Option<usize>)
        requires
            self.wf(),
        ensures
            match r {
                Some(i) => spec_has_target(self.targets@, address) && i == spec_target_index(
                    self.targets@,
                    address,
                ) && i < self.targets@.len() && self.targets@[i as int].address == address,
                None => !spec_has_target(self.targets@, address),
            },
    {
        let n = self.targets.len();
        let mut i: usize = 0;
        while i < n
            invariant
                0 <= i <= n,
                n == self.targets@.len(),
                forall|j: int| 0 <= j < i ==> (#[trigger] self.targets@[j]).address != address,
                self.wf(),
            decreases n - i,
        {
            if self.targets[i].address == address {
                proof {
                    let w = spec_target_index(self.targets@, address);
                    assert(0 <= w < self.targets@.len() && self.targets@[w].address == address);
                    if w != i as int {
                        // contradicts address uniqueness
                        assert(false);
                    }
                }
                return Some(i);
            }
            i += 1;
        }
        None
    }

    /// Inserts a target at `address`, or fully replaces the one already
    /// there: either way the slot holds a fresh target with no observed
    /// value, a zero change count and no last-changed time.  Previously
    /// logged changes are untouched.
    pub fn add_target(&mut self, address: usize, data_type: DataType, name: String)
        requires
            old(self).wf(),
        ensures
            final(self).wf(),
            final(self).changes == old(self).changes,
            final(self).running == old(self).running,
            final(self).live_mode == old(self).live_mode,
            Self::spec_config_unchanged(*old(self), *final(self)),
            final(self).total_changes == old(self).total_changes,
            spec_has_target(final(self).targets@, address),
            ({
                let ts = old(self).targets@;
                let fresh = (MonitorTarget {
                    address,
                    data_type,
                    name,
                    last_value: None,
                    change_count: 0u64,
                    last_changed: None,
                });
                if spec_has_target(ts, address) {
                    final(self).targets@ == ts.update(spec_target_index(ts, address), fresh)
                } else {
                    final(self).targets@ == ts.push(fresh)
                }
            }),
    {
        let fresh = MonitorTarget {
            address,
            data_type,
            name,
            last_value: None,
            change_count: 0u64,
            last_changed: None,
        };
        match self.find_target(address) {
            Some(i) => {
                self.targets.set(i, fresh);
                proof {
                    let ts = old(self).targets@;
                    let w = spec_target_index(final(self).targets@, address);
                    assert(final(self).targets@[spec_target_index(ts, address)].address
                        == address);
                }
            },
            None => {
                self.targets.push(fresh);
                proof {
                    assert(final(self).targets@[final(self).targets@.len() - 1].address
                        == address);
                }
            },
        }
    }

    /// Deletes the target at `address` if one is registered; otherwise
    /// a no-op.  Logged changes are untouched either way.
    pub fn remove_target(&mut self, address: usize)
        requires
            old(self).wf(),
        ensures
            final(self).wf(),
            final(self).changes == old(self).changes,
            final(self).running == old(self).running,
            final(self).live_mode == old(self).live_mode,
            Self::spec_config_unchanged(*old(self), *final(self)),
            final(self).total_changes == old(self).total_changes,
            ({
                let ts = old(self).targets@;
                if spec_has_target(ts, address) {
                    final(self).targets@ == ts.remove(spec_target_index(ts, address))
                } else {
                    final(self).targets@ == ts
                }
            }),
    {
        match self.find_target(address) {
            Some(i) => {
                self.targets.remove(i);
            },
            None => {},
        }
    }

    /// Stopped to Running: fails with `AlreadyRunning`, changing
    /// nothing, when the monitor already runs.  The caller spawns the
    /// poll loop after a successful start.
    pub fn start_monitoring(&mut self) -> (r: Result<(), MonitorError>)
        ensures
            final(self).targets == old(self).targets,
            final(self).changes == old(self).changes,
            final(self).live_mode == old(self).live_mode,
            Self::spec_config_unchanged(*old(self), *final(self)),
            final(self).total_changes == old(self).total_changes,
            match r {
                Ok(_) => !old(self).running && final(self).running,
                Err(e) => e == MonitorError::AlreadyRunning && old(self).running && final(self).running,
            },
    {
        if self.running {
            return Err(MonitorError::AlreadyRunning);
        }
        self.running = true;
        Ok(())
    }

    /// Running to Stopped: requests cooperative termination of the poll
    /// loop and returns at once; an in-flight cycle may still finish.
    /// A no-op when already stopped.  The live-notification toggle is
    /// an independent flag and is left as it was.
    pub fn stop_monitoring(&mut self)
        ensures
            final(self).targets == old(self).targets,
            final(self).changes == old(self).changes,
            Self::spec_config_unchanged(*old(self), *final(self)),
            final(self).total_changes == old(self).total_changes,
            final(self).live_mode == old(self).live_mode,
            !final(self).running,
    {
        self.running = false;
    }

    /// Whether the poll loop should be running.
    pub fn is_running(&self) -> (r: bool)
        ensures
            r == self.running,
    {
        self.running
    }

    /// Switches live change notifications on; settable in any state.
    pub fn enable_live_notifications(&mut self)
        ensures
            final(self).targets == old(self).targets,
            final(self).changes == old(self).changes,
            final(self).running == old(self).running,
            Self::spec_config_unchanged(*old(self), *final(self)),
            final(self).total_changes == old(self).total_changes,
            final(self).live_mode,
    {
        self.live_mode = true;
    }

    /// Switches live change notifications off; settable in any state.
    pub fn disable_live_notifications(&mut self)
        ensures
            final(self).targets == old(self).targets,
            final(self).changes == old(self).changes,
            final(self).running == old(self).running,
            Self::spec_config_unchanged(*old(self), *final(self)),
            final(self).total_changes == old(self).total_changes,
            !final(self).live_mode,
    {
        self.live_mode = false;
    }

    /// Whether detected changes are pushed to the caller as they occur.
    pub fn is_live_mode(&self) -> (r: bool)
        ensures
            r == self.live_mode,
    {
        self.live_mode
    }

    /// Whether the bounded change log no longer holds the full history:
    /// more changes were detected than the log retains, so the oldest
    /// entries were evicted.
    pub fn history_is_partial(&self) -> (r: bool)
        ensures
            r == (self.total_changes > self.changes@.len()),
    {
        self.total_changes > self.changes.len() as u64
    }

    /// Whether the logical string content of two raw buffers differs:
    /// only the bytes preceding each buffer's own first zero byte count.
    pub fn string_content_different(old_value: &[u8], new_value: &[u8]) -> (r: bool)
        ensures
            r == (spec_content(old_value@) != spec_content(new_value@)),
    {
        proof {
            lemma_first_zero(old_value@);
            lemma_first_zero(new_value@);
        }
        let e1 = first_zero_index(old_value);
        let e2 = first_zero_index(new_value);
        if e1 != e2 {
            proof {
                assert(spec_content(old_value@).len() != spec_content(new_value@).len());
            }
            return true;
        }
        let mut i: usize = 0;
        while i < e1
            invariant
                0 <= i <= e1,
                e1 == spec_first_zero(old_value@),
                e1 == spec_first_zero(new_value@),
                e1 <= old_value@.len(),
                e1 <= new_value@.len(),
                forall|j: int| 0 <= j < i ==> old_value@[j] == new_value@[j],
            decreases e1 - i,
        {
            if old_value[i] != new_value[i] {
                proof {
                    assert(spec_content(old_value@)[i as int] == old_value@[i as int]);
                    assert(spec_content(new_value@)[i as int] == new_value@[i as int]);
                }
                return true;
            }
            i += 1;
        }
        proof {
            assert(spec_content(old_value@) =~= spec_content(new_value@));
        }
        false
    }

    /// Whether two samples carry the same value under the type's
    /// equality rule.
    pub fn values_equal(dt: &DataType, a: &[u8], b: &[u8]) -> (r: bool)
        ensures
            r == spec_same_value(*dt, a@, b@),
    {
        match dt {
            DataType::String(_) => !Self::string_content_different(a, b),
            _ => bytes_eq(a, b),
        }
    }

    /// The last `count` logged changes, oldest first.
    pub fn get_recent_changes(&self, count: usize) -> (r: Vec<MonitorChange>)
        ensures
            r@.len() == if count <= self.changes@.len() {
                count as int
            } else {
                self.changes@.len() as int
            },
            forall|i: int|
                0 <= i < r@.len() ==> spec_change_like(
                    #[trigger] r@[i],
                    self.changes@[self.changes@.len() - r@.len() + i],
                ),
    {
        let n = self.changes.len();
        let start: usize = if count <= n {
            n - count
        } else {
            0
        };
        let mut out: Vec<MonitorChange> = Vec::new();
        let mut i: usize = start;
        while i < n
            invariant
                start <= i <= n,
                n == self.changes@.len(),
                out@.len() == i - start,
                forall|k: int|
                    0 <= k < out@.len() ==> spec_change_like(
                        #[trigger] out@[k],
                        self.changes@[start + k],
                    ),
            decreases n - i,
        {
            out.push(self.changes[i].clone());
            i += 1;
        }
        out
    }

    /// A consistent snapshot of every target's address, name, change
    /// count and last-changed time, in registration order.
    pub fn get_targets_status(&self) -> (r: Vec<(usize, String, u64, Option<u64>)>)
        ensures
            r@.len() == self.targets@.len(),
            forall|i: int|
                0 <= i < r@.len() ==> {
                    let t = self.targets@[i];
                    (#[trigger] r@[i]).0 == t.address && r@[i].1 == t.name && r@[i].2
                        == t.change_count && r@[i].3 == t.last_changed
                },
    {
        let n = self.targets.len();
        let mut out: Vec<(usize, String, u64, Option<u64>)> = Vec::new();
        let mut i: usize = 0;
        while i < n
            invariant
                0 <= i <= n,
                n == self.targets@.len(),
                out@.len() == i,
                forall|k: int|
                    0 <= k < i ==> {
                        let t = self.targets@[k];
                        (#[trigger] out@[k]).0 == t.address && out@[k].1 == t.name && out@[k].2
                            == t.change_count && out@[k].3 == t.last_changed
                    },
            decreases n - i,
        {
            let t = &self.targets[i];
            out.push((t.address, t.name.clone(), t.change_count, t.last_changed));
            i += 1;
        }
        out
    }

    /// The reads one poll cycle performs: for each registered target,
    /// its address and the number of bytes to read, in registration
    /// order.
    pub fn poll_plan(&self) -> (r: Vec<(usize, usize)>)
        ensures
            r@.len() == self.targets@.len(),
            forall|i: int|
                0 <= i < r@.len() ==> (#[trigger] r@[i]).0 == self.targets@[i].address && r@[i].1
                    as int == spec_width(self.targets@[i].data_type),
    {
        let n = self.targets.len();
        let mut out: Vec<(usize, usize)> = Vec::new();
        let mut i: usize = 0;
        while i < n
            invariant
                0 <= i <= n,
                n == self.targets@.len(),
                out@.len() == i,
                forall|k: int|
                    0 <= k < i ==> (#[trigger] out@[k]).0 == self.targets@[k].address && out@[k].1
                        as int == spec_width(self.targets@[k].data_type),
            decreases n - i,
        {
            let t = &self.targets[i];
            out.push((t.address, Self::get_data_type_size(&t.data_type)));
            i += 1;
        }
        out
    }

    /// Consumes one target's two reads for this poll cycle.
    ///
    /// An unknown address, a failed read, a bad sample length or a
    /// disagreement between the two samples (a torn read) leaves the
    /// whole monitor untouched.  An accepted sample seeds a fresh
    /// target silently, and for a seeded target is compared to the
    /// stored value under the type's equality: on a difference a change
    /// record is logged (evicting the oldest entry past capacity) and
    /// returned, the target's counters are updated, and in every
    /// accepted case the stored value becomes the new sample.
    pub fn apply_reads(
        &mut self,
        address: usize,
        first: Option<Vec<u8>>,
        second: Option<Vec<u8>>,
        now: u64,
    ) -> (r: Option<MonitorChange>)
        requires
            old(self).wf(),
        ensures
            final(self).wf(),
            final(self).running == old(self).running,
            final(self).live_mode == old(self).live_mode,
            Self::spec_config_unchanged(*old(self), *final(self)),
            ({
                let ts = old(self).targets@;
                let fs = spec_opt_bytes(first);
                let ss = spec_opt_bytes(second);
                if spec_has_target(ts, address) && spec_accepts(
                    ts[spec_target_index(ts, address)].data_type,
                    fs,
                    ss,
                ) {
                    let i = spec_target_index(ts, address);
                    let t = ts[i];
                    let sample = ss->0;
                    let emits = spec_step_emits(spec_opt_bytes(t.last_value), t.data_type, sample);
                    &&& final(self).targets@.len() == ts.len()
                    &&& (forall|j: int|
                        0 <= j < ts.len() && j != i ==> final(self).targets@[j] == ts[j])
                    &&& final(self).targets@[i].address == t.address
                    &&& final(self).targets@[i].data_type == t.data_type
                    &&& final(self).targets@[i].name == t.name
                    &&& final(self).targets@[i].last_value == second
                    &&& final(self).targets@[i].change_count == (if emits {
                        spec_count_inc(t.change_count)
                    } else {
                        t.change_count
                    })
                    &&& final(self).targets@[i].last_changed == (if emits {
                        Some(now)
                    } else {
                        t.last_changed
                    })
                    &&& (if emits {
                        let prev = spec_opt_bytes(t.last_value)->0;
                        &&& final(self).total_changes == spec_count_inc(old(self).total_changes)
                        &&& final(self).changes@.len() >= 1
                        &&& spec_change_matches(
                            final(self).changes@.last(),
                            address,
                            t.name@,
                            prev,
                            sample,
                            now,
                            t.data_type,
                        )
                        &&& final(self).changes@ == spec_log_push(
                            old(self).changes@,
                            final(self).changes@.last(),
                            old(self).max_changes_history as int,
                        )
                        &&& (r matches Some(c) && spec_change_matches(
                            c,
                            address,
                            t.name@,
                            prev,
                            sample,
                            now,
                            t.data_type,
                        ))
                    } else {
                        &&& final(self).changes@ == old(self).changes@
                        &&& final(self).total_changes == old(self).total_changes
                        &&& r is None
                    })
                } else {
                    &&& final(self).targets@ == ts
                    &&& final(self).changes@ == old(self).changes@
                    &&& final(self).total_changes == old(self).total_changes
                    &&& r is None
                }
            }),
    {
        let idx = match self.find_target(address) {
            Some(i) => i,
            None => {
                return None;
            },
        };
        let (f, s) = match (first, second) {
            (Some(f), Some(s)) => (f, s),
            _ => {
                return None;
            },
        };
        let dt = self.targets[idx].data_type;
        let ok = match dt {
            DataType::String(n) => f.len() <= n && s.len() <= n,
            _ => {
                let w = Self::get_data_type_size(&dt);
                f.len() == w && s.len() == w
            },
        };
        if !ok {
            return None;
        }
        if !Self::values_equal(&dt, f.as_slice(), s.as_slice()) {
            // the two samples disagree: a write was in flight, skip the cycle
            return None;
        }
        let has_prev = self.targets[idx].last_value.is_some();
        if !has_prev {
            // first observation: seed the stored value, no change event
            let t = &self.targets[idx];
            let fresh = MonitorTarget {
                address: t.address,
                data_type: t.data_type,
                name: t.name.clone(),
                last_value: Some(s),
                change_count: t.change_count,
                last_changed: t.last_changed,
            };
            self.targets.set(idx, fresh);
            return None;
        }
        let differs = {
            let t = &self.targets[idx];
            let prev = t.last_value.as_ref().unwrap();
            !Self::values_equal(&dt, prev.as_slice(), s.as_slice())
        };
        if !differs {
            // same value: refresh the stored sample, nothing to record
            let t = &self.targets[idx];
            let fresh = MonitorTarget {
                address: t.address,
                data_type: t.data_type,
                name: t.name.clone(),
                last_value: Some(s),
                change_count: t.change_count,
                last_changed: t.last_changed,
            };
            self.targets.set(idx, fresh);
            return None;
        }
        // a stability-confirmed, type-aware difference: record it
        let old_bytes = {
            let t = &self.targets[idx];
            vstd::slice::slice_to_vec(t.last_value.as_ref().unwrap().as_slice())
        };
        let old_bytes_ret = vstd::slice::slice_to_vec(old_bytes.as_slice());
        let s_log = vstd::slice::slice_to_vec(s.as_slice());
        let s_ret = vstd::slice::slice_to_vec(s.as_slice());
        let t = &self.targets[idx];
        let name_target = t.name.clone();
        let name_log = t.name.clone();
        let name_ret = t.name.clone();
        let prev_count = t.change_count;
        let t_address = t.address;
        let new_count: u64 = if prev_count < u64::MAX {
            prev_count + 1
        } else {
            prev_count
        };
        let fresh = MonitorTarget {
            address: t_address,
            data_type: dt,
            name: name_target,
            last_value: Some(s),
            change_count: new_count,
            last_changed: Some(now),
        };
        self.targets.set(idx, fresh);
        self.total_changes = if self.total_changes < u64::MAX {
            self.total_changes + 1
        } else {
            self.total_changes
        };
        self.changes.push(
            MonitorChange {
                address,
                name: name_log,
                old_value: old_bytes,
                new_value: s_log,
                timestamp: now,
                data_type: dt,
            },
        );
        if self.changes.len() > self.max_changes_history {
            self.changes.remove(0);
            proof {
                let post = final(self).changes@;
                assert(old(self).changes@.push(post.last()).skip(1) =~= post);
            }
        }
        Some(
            MonitorChange {
                address,
                name: name_ret,
                old_value: old_bytes_ret,
                new_value: s_ret,
                timestamp: now,
                data_type: dt,
            },
        )
    }
}

/// One change record could stand for the other: every field agrees,
/// with the buffers compared by content.
pub open spec fn spec_change_like(a: MonitorChange, b: MonitorChange) -> bool {
    spec_change_matches(a, b.address, b.name@, b.old_value@, b.new_value@, b.timestamp, b.data_type)
}

/// A change counter one step further on, staying put at the type's
/// ceiling rather than wrapping.
pub open spec fn spec_count_inc(c: u64) -> u64 {
    if c < u64::MAX {
        (c + 1) as u64
    } else {
        c
    }
}

impl Clone for MonitorChange {
    /// A field-for-field copy of the record.
    fn clone(&self) -> (r: Self)
        ensures
            spec_change_like(r, *self),
    {
        MonitorChange {
            address: self.address,
            name: self.name.clone(),
            old_value: vstd::slice::slice_to_vec(self.old_value.as_slice()),
            new_value: vstd::slice::slice_to_vec(self.new_value.as_slice()),
            timestamp: self.timestamp,
            data_type: self.data_type,
        }
    }
}

// ---------------------------------------------------------------------------
// Laws of the monitoring cycle
// ---------------------------------------------------------------------------

/// A target with no stored value never produces a change event from its
/// first accepted sample; once that sample is stored, a later accepted
/// sample differing under the type's equality does produce one.
pub proof fn lemma_seed_then_change(dt: DataType, s1: Seq<u8>, s2: Seq<u8>)
    requires
        !spec_same_value(dt, s1, s2),
    ensures
        !spec_step_emits(None, dt, s1),
        spec_step_emits(Some(s1), dt, s2),
{
}

/// When the two stability-check reads disagree under the type's
/// equality, no sample is accepted, so `apply_reads` leaves the stored
/// value and the change log untouched.
pub proof fn lemma_torn_read_rejected(dt: DataType, a: Seq<u8>, b: Seq<u8>)
    requires
        !spec_same_value(dt, a, b),
    ensures
        !spec_accepts(dt, Some(a), Some(b)),
{
}

/// String equality ignores every byte after the first zero byte: a
/// buffer that holds a zero byte compares equal to itself under any
/// trailing bytes.
pub proof fn lemma_string_tail_ignored(n: usize, s: Seq<u8>, tail: Seq<u8>)
    requires
        spec_first_zero(s) < s.len(),
    ensures
        spec_same_value(DataType::String(n), s + tail, s),
{
    lemma_first_zero(s);
    assert forall|j: int| 0 <= j < spec_first_zero(s) implies (s + tail)[j] != 0 by {
        assert((s + tail)[j] == s[j]);
    }
    lemma_first_zero_is(s + tail, spec_first_zero(s));
    assert((s + tail).take(spec_first_zero(s)) =~= s.take(spec_first_zero(s)));
}

/// The change log never exceeds its capacity: appending to a log within
/// capacity stays within capacity, and past capacity the oldest entry
/// is the one evicted.
pub proof fn lemma_log_capacity<T>(log: Seq<T>, e: T, cap: int)
    requires
        1 <= cap,
        log.len() <= cap,
    ensures
        spec_log_push(log, e, cap).len() <= cap,
        spec_log_push(log, e, cap).last() == e,
        log.len() < cap ==> spec_log_push(log, e, cap) == log.push(e),
        log.len() == cap ==> spec_log_push(log, e, cap) == log.skip(1).push(e),
{
    if log.len() == cap {
        assert(log.push(e).skip(1) =~= log.skip(1).push(e));
    }
}

/// A freshly added — or re-added — target carries no stored value, so
/// whatever its next accepted sample is, no change event can come from
/// it: re-adding resets the seed state.
pub proof fn lemma_fresh_target_silent(dt: DataType, sample: Seq<u8>)
    ensures
        !spec_step_emits(None, dt, sample),
{
}

/// Whether the byte runs are identical.
fn bytes_eq(a: &[u8], b: &[u8]) -> (r: bool)
    ensures
        r == (a@ == b@),
{
    let n = a.len();
    if n != b.len() {
        return false;
    }
    let mut i: usize = 0;
    while i < n
        invariant
            0 <= i <= n,
            n == a@.len(),
            n == b@.len(),
            forall|j: int| 0 <= j < i ==> a@[j] == b@[j],
        decreases n - i,
    {
        if a[i] != b[i] {
            return false;
        }
        i += 1;
    }
    proof {
        assert(a@ =~= b@);
    }
    true
}

} // verus!
