//! Bookkeeping utilities around memory use: an explicit usage tracker,
//! a small object pool, and byte-count formatting.
//!
//! The tracker is an explicit value handed around by the caller rather
//! than ambient global state; the allocator-level byte count, which only
//! the runtime's allocator hook can know, reaches `get_memory_stats` as
//! a plain argument.

use vstd::prelude::*;

use crate::codec::{spec_digits, push_digits};

verus! {

/// Manually tracked memory usage, in bytes.
pub struct MemoryUsage {
    pub bytes: usize,
}

impl MemoryUsage {
    /// A tracker that has seen no allocations.
    pub fn new() -> (r: Self)
        ensures
            r.bytes == 0,
    {
        MemoryUsage { bytes: 0 }
    }
}

/// Records an allocation of `size` bytes.
pub fn track_allocation(usage: &mut MemoryUsage, size: usize)
    requires
        old(usage).bytes + size <= usize::MAX,
    ensures
        final(usage).bytes == old(usage).bytes + size,
{
    usage.bytes = usage.bytes + size;
}

/// Records a deallocation of `size` bytes; an over-release clamps at
/// zero rather than wrapping.
pub fn track_deallocation(usage: &mut MemoryUsage, size: usize)
    ensures
        final(usage).bytes == if size <= old(usage).bytes {
            (old(usage).bytes - size) as usize
        } else {
            0usize
        },
{
    if size <= usage.bytes {
        usage.bytes = usage.bytes - size;
    } else {
        usage.bytes = 0;
    }
}

/// The manually tracked byte count.
pub fn get_tracked_memory(usage: &MemoryUsage) -> (r: usize)
    ensures
        r == usage.bytes,
{
    usage.bytes
}

/// Both byte counts side by side: what the allocator reports, and what
/// the manual tracker holds.
pub fn get_memory_stats(allocated: usize, usage: &MemoryUsage) -> (r: (usize, usize))
    ensures
        r.0 == allocated,
        r.1 == usage.bytes,
{
    (allocated, usage.bytes)
}

// ---------------------------------------------------------------------------
// Byte-count formatting
// ---------------------------------------------------------------------------

/// `bytes` scaled to tenths of the given unit, rounded to the nearest
/// tenth with halves rounding up.
pub open spec fn spec_tenths(bytes: int, unit: int) -> int {
    (bytes * 10 + unit / 2) / unit
}

/// A tenths count rendered as `whole.fraction`.
pub open spec fn spec_scaled_text(tenths: int) -> Seq<u8> {
    spec_digits((tenths / 10) as nat) + seq![46u8] + spec_digits((tenths % 10) as nat)
}

/// The rendering of a byte count, as ASCII text: plain bytes below
/// 1 KiB, otherwise KiB below 1 MiB and MiB from there on, with one
/// decimal digit.
pub open spec fn spec_format_bytes(bytes: int) -> Seq<u8> {
    if bytes < 1024 {
        spec_digits(bytes as nat) + seq![32u8, 66u8]  // " B"
    } else if bytes < 1024 * 1024 {
        spec_scaled_text(spec_tenths(bytes, 1024)) + seq![32u8, 75u8, 66u8]  // " KB"
    } else {
        spec_scaled_text(spec_tenths(bytes, (1024 * 1024) as int)) + seq![32u8, 77u8, 66u8]  // " MB"
    }
}

fn scaled_tenths(bytes: usize, unit: u64) -> (r: u64)
    requires
        unit == 1024 || unit == 1024 * 1024,
    ensures
        r as int == spec_tenths(bytes as int, unit as int),
{
    let wide: u128 = (bytes as u128) * 10 + (unit as u128) / 2;
    let q: u128 = wide / (unit as u128);
    proof {
        vstd::arithmetic::div_mod::lemma_fundamental_div_mod(wide as int, unit as int);
        assert(wide < (unit as int) * 0x10000000000000000);
        assert(q <= u64::MAX);
    }
    q as u64
}

fn scaled_text(tenths: u64, out: &mut Vec<u8>)
    ensures
        final(out)@ == old(out)@ + spec_scaled_text(tenths as int),
{
    push_digits(tenths / 10, out);
    out.push(46);
    push_digits(tenths % 10, out);
    proof {
        assert(final(out)@ =~= old(out)@ + spec_scaled_text(tenths as int));
    }
}

/// Renders a byte count for display, as ASCII text: plain bytes below
/// 1 KiB, one decimal of KiB below 1 MiB, one decimal of MiB above.
pub fn format_bytes(bytes: usize) -> (r: Vec<u8>)
    ensures
        r@ == spec_format_bytes(bytes as int),
{
    let mut out: Vec<u8> = Vec::new();
    if bytes < 1024 {
        push_digits(bytes as u64, &mut out);
        out.push(32);
        out.push(66);
        proof {
            assert(out@ =~= spec_format_bytes(bytes as int));
        }
    } else if bytes < 1024 * 1024 {
        let t = scaled_tenths(bytes, 1024);
        scaled_text(t, &mut out);
        out.push(32);
        out.push(75);
        out.push(66);
        proof {
            assert(out@ =~= spec_format_bytes(bytes as int));
        }
    } else {
        let t = scaled_tenths(bytes, 1024 * 1024);
        scaled_text(t, &mut out);
        out.push(32);
        out.push(77);
        out.push(66);
        proof {
            assert(out@ =~= spec_format_bytes(bytes as int));
        }
    }
    out
}

// ---------------------------------------------------------------------------
// The object pool
// ---------------------------------------------------------------------------

/// A bounded pool of reusable values: handing a value out prefers the
/// pool, and a value put back is kept only while the pool is below its
/// capacity.
#[verifier::reject_recursive_types(T)]
pub struct ObjectPool<T, F> where F: Fn() -> T {
    /// The pooled values.
    pub objects: Vec<T>,
    /// Makes a fresh value when the pool is empty.
    pub factory: F,
    /// How many values the pool retains at most.
    pub capacity: usize,
}

impl<T, F> ObjectPool<T, F> where F: Fn() -> T {
    /// A pool pre-filled to its capacity with freshly made values.
    pub fn new(capacity: usize, factory: F) -> (r: Self)
        requires
            call_requires(factory, ()),
        ensures
            r.objects@.len() == capacity,
            r.capacity == capacity,
            r.factory == factory,
            forall|i: int| 0 <= i < capacity ==> call_ensures(factory, (), #[trigger] r.objects@[i]),
    {
        let mut objects: Vec<T> = Vec::new();
        let mut i: usize = 0;
        while i < capacity
            invariant
                0 <= i <= capacity,
                objects@.len() == i,
                call_requires(factory, ()),
                forall|k: int| 0 <= k < i ==> call_ensures(factory, (), #[trigger] objects@[k]),
            decreases capacity - i,
        {
            objects.push(factory());
            i += 1;
        }
        ObjectPool { objects, factory, capacity }
    }

    /// Hands a value out: the most recently pooled one when the pool
    /// holds any, else a freshly made one.
    pub fn get(&mut self) -> (r: T)
        requires
            call_requires(old(self).factory, ()),
        ensures
            final(self).factory == old(self).factory,
            final(self).capacity == old(self).capacity,
            if old(self).objects@.len() > 0 {
                r == old(self).objects@.last() && final(self).objects@ == old(
                    self,
                ).objects@.drop_last()
            } else {
                call_ensures(old(self).factory, (), r) && final(self).objects@ == old(
                    self,
                ).objects@
            },
    {
        match self.objects.pop() {
            Some(v) => v,
            None => (self.factory)(),
        }
    }

    /// Puts a value back, keeping it only while the pool is below its
    /// capacity.
    pub fn put(&mut self, obj: T)
        ensures
            final(self).factory == old(self).factory,
            final(self).capacity == old(self).capacity,
            final(self).objects@ == if old(self).objects@.len() < old(self).capacity {
                old(self).objects@.push(obj)
            } else {
                old(self).objects@
            },
    {
        if self.objects.len() < self.capacity {
            self.objects.push(obj);
        }
    }
}

} // verus!
