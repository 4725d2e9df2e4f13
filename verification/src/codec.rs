//! Value codec: translating between user text, typed values and the
//! little-endian byte patterns stored in a foreign process's memory.
//!
//! Numeric values are serialized little-endian at fixed width.  Float
//! values cross this module as their raw bit patterns (`u32`/`u64`); the
//! surrounding application converts between bits and float text.  String
//! values are raw byte runs; a single zero byte acts as the logical
//! terminator, and everything after the first zero byte is ignored by
//! equality and display.

use vstd::prelude::*;

verus! {

/// The closed set of value kinds the scanner and monitor understand.
/// `String` carries the maximum buffer length of the monitored field.
#[derive(Clone, Copy, Debug, PartialEq, Eq, Structural)]
pub enum DataType {
    I32,
    I64,
    F32,
    F64,
    String(usize),
}

/// The number of bytes read for a target of the given type: the fixed
/// width of a numeric value, or the full buffer length of a string.
pub open spec fn spec_width(dt: DataType) -> int {
    match dt {
        DataType::I32 => 4,
        DataType::I64 => 8,
        DataType::F32 => 4,
        DataType::F64 => 8,
        DataType::String(n) => n as int,
    }
}

// ---------------------------------------------------------------------------
// Decimal text: mathematical model
// ---------------------------------------------------------------------------

/// An ASCII decimal digit.
pub open spec fn spec_is_digit(b: u8) -> bool {
    48 <= b <= 57
}

pub open spec fn spec_all_digits(s: Seq<u8>) -> bool {
    forall|i: int| 0 <= i < s.len() ==> spec_is_digit(#[trigger] s[i])
}

/// The value of a digit string, most significant digit first (Horner form).
pub open spec fn spec_digits_val(s: Seq<u8>) -> int
    decreases s.len(),
{
    if s.len() == 0 {
        0
    } else {
        spec_digits_val(s.drop_last()) * 10 + (s.last() - 48)
    }
}

/// The canonical decimal digit string of a non-negative number.
pub open spec fn spec_digits(n: nat) -> Seq<u8>
    decreases n,
{
    if n < 10 {
        seq![(48 + n) as u8]
    } else {
        spec_digits(n / 10).push((48 + n % 10) as u8)
    }
}

/// The decimal rendering of an integer: an optional minus sign followed
/// by the canonical digit string of its magnitude.
pub open spec fn spec_format_int(v: int) -> Seq<u8> {
    if v < 0 {
        seq![45u8] + spec_digits((-v) as nat)
    } else {
        spec_digits(v as nat)
    }
}

pub open spec fn spec_parse_digits_signed(ds: Seq<u8>, neg: bool) -> Option<int> {
    if ds.len() == 0 || !spec_all_digits(ds) {
        None
    } else if neg {
        Some(-spec_digits_val(ds))
    } else {
        Some(spec_digits_val(ds))
    }
}

/// The unbounded value denoted by decimal text: an optional sign
/// (`-` or `+`) followed by at least one digit, and nothing else.
pub open spec fn spec_parse_int(s: Seq<u8>) -> Option<int> {
    if s.len() > 0 && (s[0] == 45 || s[0] == 43) {
        spec_parse_digits_signed(s.skip(1), s[0] == 45)
    } else {
        spec_parse_digits_signed(s, false)
    }
}

/// Decimal text as an `i64`: the denoted value when it exists and fits.
pub open spec fn spec_parse_i64(s: Seq<u8>) -> Option<i64> {
    match spec_parse_int(s) {
        Some(v) => if i64::MIN <= v <= i64::MAX {
            Some(v as i64)
        } else {
            None
        },
        None => None,
    }
}

/// Decimal text as an `i32`: the denoted value when it exists and fits.
pub open spec fn spec_parse_i32(s: Seq<u8>) -> Option<i32> {
    match spec_parse_int(s) {
        Some(v) => if i32::MIN <= v <= i32::MAX {
            Some(v as i32)
        } else {
            None
        },
        None => None,
    }
}

// ---------------------------------------------------------------------------
// Decimal text: lemmas
// ---------------------------------------------------------------------------

proof fn lemma_digits_val_nonneg(s: Seq<u8>)
    requires
        spec_all_digits(s),
    ensures
        spec_digits_val(s) >= 0,
    decreases s.len(),
{
    if s.len() > 0 {
        assert(spec_all_digits(s.drop_last()));
        lemma_digits_val_nonneg(s.drop_last());
    }
}

/// The value of a digit string is at least the value of any of its prefixes.
proof fn lemma_digits_val_monotone(s: Seq<u8>, i: int)
    requires
        0 <= i <= s.len(),
        spec_all_digits(s),
    ensures
        spec_digits_val(s.take(i)) <= spec_digits_val(s),
    decreases s.len(),
{
    lemma_digits_val_nonneg(s);
    if i < s.len() {
        assert(spec_all_digits(s.drop_last()));
        assert(s.take(i) =~= s.drop_last().take(i));
        lemma_digits_val_monotone(s.drop_last(), i);
        lemma_digits_val_nonneg(s.drop_last());
    } else {
        assert(s.take(i) =~= s);
    }
}

proof fn lemma_digits_shape(n: nat)
    ensures
        spec_all_digits(spec_digits(n)),
        spec_digits(n).len() >= 1,
        spec_is_digit(spec_digits(n)[0]),
    decreases n,
{
    if n >= 10 {
        lemma_digits_shape(n / 10);
    }
}

proof fn lemma_digits_val_of_digits(n: nat)
    ensures
        spec_digits_val(spec_digits(n)) == n,
    decreases n,
{
    let s = spec_digits(n);
    if n < 10 {
        assert(s.len() == 1);
        assert((48 + n) as u8 == 48 + n);
        assert(s.drop_last() =~= Seq::<u8>::empty());
        assert(spec_digits_val(s.drop_last()) == 0);
        assert(s.last() == 48 + n);
        assert(spec_digits_val(s) == spec_digits_val(s.drop_last()) * 10 + (s.last() - 48));
        assert(spec_digits_val(s) == n);
    } else {
        lemma_digits_val_of_digits(n / 10);
        assert(0 <= n % 10 < 10);
        assert((48 + n % 10) as u8 == 48 + n % 10);
        assert(s.drop_last() =~= spec_digits(n / 10));
        assert(s.last() == 48 + n % 10);
        assert(spec_digits_val(s) == spec_digits_val(s.drop_last()) * 10 + (s.last() - 48));
        assert(spec_digits_val(s) == (n / 10) * 10 + n % 10);
        vstd::arithmetic::div_mod::lemma_fundamental_div_mod(n as int, 10);
        assert(spec_digits_val(s) == n);
    }
}

/// Formatting an `i64` and parsing the text back yields the same value.
pub proof fn lemma_format_parse_i64(v: i64)
    ensures
        spec_parse_i64(spec_format_int(v as int)) == Some(v),
{
    if v >= 0 {
        let s = spec_digits(v as nat);
        lemma_digits_shape(v as nat);
        lemma_digits_val_of_digits(v as nat);
        assert(!(s[0] == 45 || s[0] == 43));
    } else {
        let m = (-(v as int)) as nat;
        let s = seq![45u8] + spec_digits(m);
        lemma_digits_shape(m);
        lemma_digits_val_of_digits(m);
        assert(s[0] == 45);
        assert(s.skip(1) =~= spec_digits(m));
    }
}

/// Formatting an `i32` and parsing the text back yields the same value.
pub proof fn lemma_format_parse_i32(v: i32)
    ensures
        spec_parse_i32(spec_format_int(v as int)) == Some(v),
{
    lemma_format_parse_i64(v as i64);
}

// ---------------------------------------------------------------------------
// Decimal text: executable parse and format
// ---------------------------------------------------------------------------

/// Parses decimal text as an `i64`, accepting exactly an optional sign
/// followed by one or more digits, when the value fits the type.
pub fn parse_i64(s: &[u8]) -> (r: Option<i64>)
    ensures
        r == spec_parse_i64(s@),
{
    let n = s.len();
    let mut start: usize = 0;
    let mut neg = false;
    if n > 0 && (s[0] == 45 || s[0] == 43) {
        neg = s[0] == 45;
        start = 1;
    }
    if start >= n {
        return None;
    }
    let ghost ds = s@.skip(start as int);
    proof {
        if start == 0 {
            assert(ds =~= s@);
        }
    }
    let mut i: usize = start;
    let mut acc: u64 = 0;
    while i < n
        invariant
            start <= i <= n,
            n == s@.len(),
            start == 0 || start == 1,
            (start == 1) <==> (s@.len() > 0 && (s@[0] == 45 || s@[0] == 43)),
            neg <==> (start == 1 && s@[0] == 45),
            ds == s@.skip(start as int),
            spec_all_digits(s@.subrange(start as int, i as int)),
            acc == spec_digits_val(s@.subrange(start as int, i as int)),
            acc <= 0x8000_0000_0000_0000u64,
        decreases n - i,
    {
        let b = s[i];
        if b < 48 || b > 57 {
            proof {
                assert(ds[i - start as int] == s@[i as int]);
                assert(!spec_all_digits(ds));
            }
            return None;
        }
        let d = (b - 48) as u64;
        proof {
            assert(s@.subrange(start as int, i as int + 1) =~= s@.subrange(
                start as int,
                i as int,
            ).push(b));
            assert(s@.subrange(start as int, i as int + 1).drop_last() =~= s@.subrange(
                start as int,
                i as int,
            ));
            assert(spec_digits_val(s@.subrange(start as int, i as int + 1)) == acc * 10 + (b
                - 48));
        }
        if acc > 922337203685477580u64 || (acc == 922337203685477580u64 && d > 8) {
            // The value of the digits seen so far already exceeds 2^63,
            // so the full value cannot fit an i64 of either sign.
            proof {
                if start == 0 {
                    assert(ds =~= s@);
                }
                if spec_all_digits(ds) {
                    assert(ds.take(i + 1 - start) =~= s@.subrange(start as int, i as int + 1));
                    lemma_digits_val_monotone(ds, i + 1 - start);
                    assert(spec_digits_val(ds) > 0x8000_0000_0000_0000);
                }
            }
            return None;
        }
        acc = acc * 10 + d;
        i += 1;
    }
    proof {
        assert(s@.subrange(start as int, n as int) =~= ds);
    }
    if neg {
        if acc == 0x8000_0000_0000_0000u64 {
            Some(i64::MIN)
        } else {
            assert(acc < 0x8000_0000_0000_0000u64);
            assert(-(acc as i64) as int == -(acc as int));
            Some(-(acc as i64))
        }
    } else {
        if acc == 0x8000_0000_0000_0000u64 {
            None
        } else {
            Some(acc as i64)
        }
    }
}

/// Parses decimal text as an `i32`, accepting exactly an optional sign
/// followed by one or more digits, when the value fits the type.
pub fn parse_i32(s: &[u8]) -> (r: Option<i32>)
    ensures
        r == spec_parse_i32(s@),
{
    match parse_i64(s) {
        None => None,
        Some(v) => if v < -2147483648i64 || v > 2147483647i64 {
            None
        } else {
            Some(v as i32)
        },
    }
}

/// Appends the canonical decimal digits of `n` to `out`.
pub fn push_digits(n: u64, out: &mut Vec<u8>)
    ensures
        final(out)@ == old(out)@ + spec_digits(n as nat),
    decreases n,
{
    if n >= 10 {
        proof {
            vstd::arithmetic::div_mod::lemma_div_decreases(n as int, 10);
        }
        push_digits(n / 10, out);
        out.push(48 + (n % 10) as u8);
        proof {
            assert(out@ =~= old(out)@ + spec_digits(n as nat));
        }
    } else {
        out.push(48 + n as u8);
        proof {
            assert(out@ =~= old(out)@ + spec_digits(n as nat));
        }
    }
}

/// Renders an `i64` as decimal text.
pub fn format_i64(v: i64) -> (r: Vec<u8>)
    ensures
        r@ == spec_format_int(v as int),
{
    let mut out: Vec<u8> = Vec::new();
    if v < 0 {
        out.push(45);
        let m: u64 = if v == i64::MIN {
            0x8000_0000_0000_0000u64
        } else {
            (-v) as u64
        };
        push_digits(m, &mut out);
        proof {
            assert(out@ =~= seq![45u8] + spec_digits(m as nat));
        }
    } else {
        push_digits(v as u64, &mut out);
        proof {
            assert(out@ =~= spec_digits(v as nat));
        }
    }
    out
}

/// Renders an `i32` as decimal text.
pub fn format_i32(v: i32) -> (r: Vec<u8>)
    ensures
        r@ == spec_format_int(v as int),
{
    format_i64(v as i64)
}

// ---------------------------------------------------------------------------
// Little-endian byte patterns
// ---------------------------------------------------------------------------

/// The 4-byte little-endian pattern of an `i32`.
pub open spec fn spec_encode_i32(v: i32) -> Seq<u8> {
    vstd::bytes::spec_u32_to_le_bytes(v as u32)
}

/// The `i32` stored in 4 little-endian bytes.
pub open spec fn spec_decode_i32(s: Seq<u8>) -> i32
    recommends
        s.len() == 4,
{
    vstd::bytes::spec_u32_from_le_bytes(s) as i32
}

/// The 8-byte little-endian pattern of an `i64`.
pub open spec fn spec_encode_i64(v: i64) -> Seq<u8> {
    vstd::bytes::spec_u64_to_le_bytes(v as u64)
}

/// The `i64` stored in 8 little-endian bytes.
pub open spec fn spec_decode_i64(s: Seq<u8>) -> i64
    recommends
        s.len() == 8,
{
    vstd::bytes::spec_u64_from_le_bytes(s) as i64
}

pub fn encode_i32(v: i32) -> (r: Vec<u8>)
    ensures
        r@ == spec_encode_i32(v),
        r@.len() == 4,
{
    vstd::bytes::u32_to_le_bytes(v as u32)
}

pub fn decode_i32(b: &[u8]) -> (r: i32)
    requires
        b@.len() == 4,
    ensures
        r == spec_decode_i32(b@),
{
    vstd::bytes::u32_from_le_bytes(b) as i32
}

pub fn encode_i64(v: i64) -> (r: Vec<u8>)
    ensures
        r@ == spec_encode_i64(v),
        r@.len() == 8,
{
    vstd::bytes::u64_to_le_bytes(v as u64)
}

pub fn decode_i64(b: &[u8]) -> (r: i64)
    requires
        b@.len() == 8,
    ensures
        r == spec_decode_i64(b@),
{
    vstd::bytes::u64_from_le_bytes(b) as i64
}

/// The 4-byte little-endian pattern of an `f32` given as its raw bits.
pub fn encode_f32_bits(bits: u32) -> (r: Vec<u8>)
    ensures
        r@ == vstd::bytes::spec_u32_to_le_bytes(bits),
        r@.len() == 4,
{
    vstd::bytes::u32_to_le_bytes(bits)
}

/// The raw `f32` bits stored in 4 little-endian bytes.
pub fn decode_f32_bits(b: &[u8]) -> (r: u32)
    requires
        b@.len() == 4,
    ensures
        r == vstd::bytes::spec_u32_from_le_bytes(b@),
{
    vstd::bytes::u32_from_le_bytes(b)
}

/// The 8-byte little-endian pattern of an `f64` given as its raw bits.
pub fn encode_f64_bits(bits: u64) -> (r: Vec<u8>)
    ensures
        r@ == vstd::bytes::spec_u64_to_le_bytes(bits),
        r@.len() == 8,
{
    vstd::bytes::u64_to_le_bytes(bits)
}

/// The raw `f64` bits stored in 8 little-endian bytes.
pub fn decode_f64_bits(b: &[u8]) -> (r: u64)
    requires
        b@.len() == 8,
    ensures
        r == vstd::bytes::spec_u64_from_le_bytes(b@),
{
    vstd::bytes::u64_from_le_bytes(b)
}

/// Serializing an `i32` and reading the bytes back yields the same value.
pub proof fn lemma_encode_decode_i32(v: i32)
    ensures
        spec_decode_i32(spec_encode_i32(v)) == v,
{
    vstd::bytes::lemma_auto_spec_u32_to_from_le_bytes();
    assert(vstd::bytes::spec_u32_to_le_bytes(v as u32).len() == 4);
    assert(v as u32 as i32 == v) by (bit_vector);
}

/// Serializing an `i64` and reading the bytes back yields the same value.
pub proof fn lemma_encode_decode_i64(v: i64)
    ensures
        spec_decode_i64(spec_encode_i64(v)) == v,
{
    vstd::bytes::lemma_auto_spec_u64_to_from_le_bytes();
    assert(v as u64 as i64 == v) by (bit_vector);
}

/// Serializing raw float bits and reading the bytes back yields the
/// same bits, for either float width.
pub proof fn lemma_encode_decode_float_bits(bits32: u32, bits64: u64)
    ensures
        vstd::bytes::spec_u32_from_le_bytes(vstd::bytes::spec_u32_to_le_bytes(bits32)) == bits32,
        vstd::bytes::spec_u64_from_le_bytes(vstd::bytes::spec_u64_to_le_bytes(bits64)) == bits64,
{
    vstd::bytes::lemma_auto_spec_u32_to_from_le_bytes();
    assert(vstd::bytes::spec_u32_to_le_bytes(bits32).len() == 4);
    vstd::bytes::lemma_auto_spec_u64_to_from_le_bytes();
}

/// The full numeric round trip for an `i32`: when `text` denotes a
/// value, serializing that value and reading the bytes back yields the
/// same value, whose rendering denotes it again.
pub proof fn lemma_numeric_round_trip_i32(text: Seq<u8>, v: i32)
    requires
        spec_parse_i32(text) == Some(v),
    ensures
        spec_decode_i32(spec_encode_i32(v)) == v,
        spec_parse_i32(spec_format_int(v as int)) == Some(v),
{
    lemma_encode_decode_i32(v);
    lemma_format_parse_i32(v);
}

/// The full numeric round trip for an `i64`: when `text` denotes a
/// value, serializing that value and reading the bytes back yields the
/// same value, whose rendering denotes it again.
pub proof fn lemma_numeric_round_trip_i64(text: Seq<u8>, v: i64)
    requires
        spec_parse_i64(text) == Some(v),
    ensures
        spec_decode_i64(spec_encode_i64(v)) == v,
        spec_parse_i64(spec_format_int(v as int)) == Some(v),
{
    lemma_encode_decode_i64(v);
    lemma_format_parse_i64(v);
}

/// The display text of an `i32` stored in 4 little-endian bytes.
pub fn decode_i32_text(b: &[u8]) -> (r: Vec<u8>)
    requires
        b@.len() == 4,
    ensures
        r@ == spec_format_int(spec_decode_i32(b@) as int),
{
    format_i32(decode_i32(b))
}

/// The display text of an `i64` stored in 8 little-endian bytes.
pub fn decode_i64_text(b: &[u8]) -> (r: Vec<u8>)
    requires
        b@.len() == 8,
    ensures
        r@ == spec_format_int(spec_decode_i64(b@) as int),
{
    format_i64(decode_i64(b))
}

// ---------------------------------------------------------------------------
// Strings
// ---------------------------------------------------------------------------

/// The index of the first zero byte, or the length when none occurs:
/// the end of the logical string content inside a fixed buffer.
pub open spec fn spec_first_zero(s: Seq<u8>) -> int
    decreases s.len(),
{
    if s.len() == 0 {
        0
    } else if s[0] == 0 {
        0
    } else {
        1 + spec_first_zero(s.skip(1))
    }
}

/// The logical content of a string buffer: everything before the first
/// zero byte.
pub open spec fn spec_content(s: Seq<u8>) -> Seq<u8> {
    s.take(spec_first_zero(s))
}

/// `spec_first_zero` marks the first zero byte exactly.
pub proof fn lemma_first_zero(s: Seq<u8>)
    ensures
        0 <= spec_first_zero(s) <= s.len(),
        forall|j: int| 0 <= j < spec_first_zero(s) ==> s[j] != 0,
        spec_first_zero(s) < s.len() ==> s[spec_first_zero(s)] == 0,
    decreases s.len(),
{
    if s.len() > 0 && s[0] != 0 {
        lemma_first_zero(s.skip(1));
        assert forall|j: int| 0 <= j < spec_first_zero(s) implies s[j] != 0 by {
            if j > 0 {
                assert(s.skip(1)[j - 1] == s[j]);
            }
        }
    }
}

/// Any index with only non-zero bytes before it and a zero byte (or the
/// buffer end) at it is the first zero index.
pub proof fn lemma_first_zero_is(s: Seq<u8>, i: int)
    requires
        0 <= i <= s.len(),
        forall|j: int| 0 <= j < i ==> s[j] != 0,
        i < s.len() ==> s[i] == 0,
    ensures
        spec_first_zero(s) == i,
    decreases s.len(),
{
    if s.len() > 0 && s[0] != 0 {
        lemma_first_zero_is(s.skip(1), i - 1);
    }
}

/// Finds the end of the logical string content in a buffer.
pub fn first_zero_index(s: &[u8]) -> (r: usize)
    ensures
        r == spec_first_zero(s@),
{
    let n = s.len();
    let mut i: usize = 0;
    while i < n
        invariant
            0 <= i <= n,
            n == s@.len(),
            forall|j: int| 0 <= j < i ==> s@[j] != 0,
        decreases n - i,
    {
        if s[i] == 0 {
            proof {
                lemma_first_zero_is(s@, i as int);
            }
            return i;
        }
        i += 1;
    }
    proof {
        lemma_first_zero_is(s@, n as int);
    }
    n
}

/// Bytes that survive into the human-readable form of a string value.
pub open spec fn spec_is_printable(b: u8) -> bool {
    b == 32 || (33 <= b <= 126)
}

/// The subsequence of printable bytes, in order.
pub open spec fn spec_printable(s: Seq<u8>) -> Seq<u8>
    decreases s.len(),
{
    if s.len() == 0 {
        Seq::empty()
    } else if spec_is_printable(s.last()) {
        spec_printable(s.drop_last()).push(s.last())
    } else {
        spec_printable(s.drop_last())
    }
}

/// The human-readable form of a string buffer: its logical content with
/// non-printable bytes elided.  The raw bytes remain available to the
/// caller for exact comparison.
pub fn decode_string_text(b: &[u8]) -> (r: Vec<u8>)
    ensures
        r@ == spec_printable(spec_content(b@)),
{
    proof {
        lemma_first_zero(b@);
    }
    let end = first_zero_index(b);
    let mut out: Vec<u8> = Vec::new();
    let mut i: usize = 0;
    while i < end
        invariant
            0 <= i <= end,
            end == spec_first_zero(b@),
            end <= b@.len(),
            out@ == spec_printable(b@.take(i as int)),
        decreases end - i,
    {
        proof {
            lemma_first_zero(b@);
            assert(b@.take(i as int + 1).drop_last() =~= b@.take(i as int));
        }
        let c = b[i];
        if c == 32 || (33 <= c && c <= 126) {
            out.push(c);
        }
        i += 1;
    }
    out
}

/// The bytes written to store new string content over old content,
/// as the write planner produces them: when the new text is shorter
/// than the old content, the old tail is cleared with zero bytes; in
/// either case a single terminating zero byte follows the text.
pub open spec fn spec_string_patch(current: Seq<u8>, new_text: Seq<u8>) -> Seq<u8> {
    if new_text.len() < spec_first_zero(current) {
        new_text + Seq::new((spec_first_zero(current) + 1 - new_text.len()) as nat, |i: int| 0u8)
    } else {
        new_text.push(0u8)
    }
}

/// Plans the byte run for overwriting a zero-terminated string in place:
/// the new text, zero-padded to cover the whole old content plus its
/// terminator when the old content was longer.
pub fn string_patch_bytes(current: &[u8], new_text: &[u8]) -> (r: Vec<u8>)
    requires
        current@.len() < usize::MAX,
    ensures
        r@ == spec_string_patch(current@, new_text@),
{
    proof {
        lemma_first_zero(current@);
    }
    let current_len = first_zero_index(current);
    let new_len = new_text.len();
    let mut out: Vec<u8> = Vec::new();
    let mut i: usize = 0;
    while i < new_len
        invariant
            0 <= i <= new_len,
            new_len == new_text@.len(),
            out@ == new_text@.take(i as int),
        decreases new_len - i,
    {
        out.push(new_text[i]);
        proof {
            assert(out@ =~= new_text@.take(i as int + 1));
        }
        i += 1;
    }
    proof {
        assert(out@ =~= new_text@);
    }
    if new_len < current_len {
        let total = current_len + 1;
        while out.len() < total
            invariant
                new_len < total <= current@.len() + 1,
                total == spec_first_zero(current@) + 1,
                new_len == new_text@.len(),
                new_len <= out@.len() <= total,
                out@.take(new_len as int) == new_text@,
                forall|j: int| new_len <= j < out@.len() ==> out@[j] == 0u8,
            decreases total - out.len(),
        {
            out.push(0u8);
        }
        proof {
            assert(out@ =~= spec_string_patch(current@, new_text@));
        }
    } else {
        out.push(0u8);
        proof {
            assert(out@ =~= spec_string_patch(current@, new_text@));
        }
    }
    out
}

/// The type named by a piece of command text: the four numeric names,
/// `string` with its default buffer length of 256 bytes, or
/// `string:<n>` with an explicit buffer length between 1 and 1024.
pub open spec fn spec_parse_data_type(s: Seq<u8>) -> Option<DataType> {
    if s == seq![105u8, 51u8, 50u8] {  // "i32"
        Some(DataType::I32)
    } else if s == seq![105u8, 54u8, 52u8] {  // "i64"
        Some(DataType::I64)
    } else if s == seq![102u8, 51u8, 50u8] {  // "f32"
        Some(DataType::F32)
    } else if s == seq![102u8, 54u8, 52u8] {  // "f64"
        Some(DataType::F64)
    } else if s == seq![115u8, 116u8, 114u8, 105u8, 110u8, 103u8] {  // "string"
        Some(DataType::String(256))
    } else if s.len() > 7 && s.take(7) == seq![115u8, 116u8, 114u8, 105u8, 110u8, 103u8, 58u8] {
        match spec_parse_int(s.skip(7)) {
            Some(n) => if 1 <= n <= 1024 {
                Some(DataType::String(n as usize))
            } else {
                None
            },
            None => None,
        }
    } else {
        None
    }
}

/// Parses a type name from command text.
pub fn parse_data_type(s: &[u8]) -> (r: Option<DataType>)
    ensures
        r == spec_parse_data_type(s@),
{
    let n = s.len();
    if n == 3 && s[0] == 105 && s[1] == 51 && s[2] == 50 {
        proof {
            assert(s@ =~= seq![105u8, 51u8, 50u8]);
        }
        Some(DataType::I32)
    } else if n == 3 && s[0] == 105 && s[1] == 54 && s[2] == 52 {
        proof {
            assert(s@ =~= seq![105u8, 54u8, 52u8]);
        }
        Some(DataType::I64)
    } else if n == 3 && s[0] == 102 && s[1] == 51 && s[2] == 50 {
        proof {
            assert(s@ =~= seq![102u8, 51u8, 50u8]);
        }
        Some(DataType::F32)
    } else if n == 3 && s[0] == 102 && s[1] == 54 && s[2] == 52 {
        proof {
            assert(s@ =~= seq![102u8, 54u8, 52u8]);
        }
        Some(DataType::F64)
    } else if n == 6 && s[0] == 115 && s[1] == 116 && s[2] == 114 && s[3] == 105 && s[4] == 110
        && s[5] == 103 {
        proof {
            assert(s@ =~= seq![115u8, 116u8, 114u8, 105u8, 110u8, 103u8]);
        }
        Some(DataType::String(256))
    } else if n > 7 && s[0] == 115 && s[1] == 116 && s[2] == 114 && s[3] == 105 && s[4] == 110
        && s[5] == 103 && s[6] == 58 {
        proof {
            assert(s@.take(7) =~= seq![115u8, 116u8, 114u8, 105u8, 110u8, 103u8, 58u8]);
        }
        let tail = vstd::slice::slice_subrange(s, 7, n);
        proof {
            assert(tail@ =~= s@.skip(7));
        }
        match parse_i64(tail) {
            Some(v) => if 1 <= v && v <= 1024 {
                Some(DataType::String(v as usize))
            } else {
                None
            },
            None => None,
        }
    } else {
        None
    }
}

/// Builds the search pattern for string text: the raw text bytes with no
/// terminator appended.  Empty text has no pattern.
pub fn encode_string(text: &[u8]) -> (r: Option<Vec<u8>>)
    ensures
        match r {
            Some(p) => text@.len() > 0 && p@ == text@,
            None => text@.len() == 0,
        },
{
    if text.len() == 0 {
        None
    } else {
        Some(vstd::slice::slice_to_vec(text))
    }
}

} // verus!
