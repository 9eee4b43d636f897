//! Binary readers and the textual forms of numbers and byte runs used in the
//! disassembly listings.
use vstd::prelude::*;
use vstd::arithmetic::power2::pow2;

use crate::text::{dec_text, hex_bytes, hex_text, push_char, push_hex, push_hex_bytes};

verus! {

// ── binary helpers ──

pub open spec fn le16(b0: u8, b1: u8) -> int {
    b0 as int + 256 * b1 as int
}

pub open spec fn le32(b0: u8, b1: u8, b2: u8, b3: u8) -> int {
    b0 as int + 256 * b1 as int + 65536 * b2 as int + 16777216 * b3 as int
}

/// The little-endian `u16` at `offset`.
pub open spec fn spec_u16_le(data: Seq<u8>, offset: int) -> u16 {
    le16(data[offset], data[offset + 1]) as u16
}

/// The little-endian `u32` at `offset`.
pub open spec fn spec_u32_le(data: Seq<u8>, offset: int) -> u32 {
    le32(data[offset], data[offset + 1], data[offset + 2], data[offset + 3]) as u32
}

/// The big-endian `u16` at `offset`.
pub open spec fn spec_u16_be(data: Seq<u8>, offset: int) -> u16 {
    le16(data[offset + 1], data[offset]) as u16
}

/// The big-endian `u32` at `offset`.
pub open spec fn spec_u32_be(data: Seq<u8>, offset: int) -> u32 {
    le32(data[offset + 3], data[offset + 2], data[offset + 1], data[offset]) as u32
}

pub fn read_u16_le(data: &[u8], offset: usize) -> (r: u16)
    requires
        offset + 2 <= data@.len(),
    ensures
        r as int == le16(data@[offset as int], data@[offset + 1]),
        r == spec_u16_le(data@, offset as int),
{
    data[offset] as u16 + (data[offset + 1] as u16) * 256
}

pub fn read_u32_le(data: &[u8], offset: usize) -> (r: u32)
    requires
        offset + 4 <= data@.len(),
    ensures
        r as int == le32(data@[offset as int], data@[offset + 1], data@[offset + 2], data@[offset + 3]),
        r == spec_u32_le(data@, offset as int),
{
    data[offset] as u32 + (data[offset + 1] as u32) * 256 + (data[offset + 2] as u32) * 65536 + (
    data[offset + 3] as u32) * 16777216
}

pub fn read_u16_be(data: &[u8], offset: usize) -> (r: u16)
    requires
        offset + 2 <= data@.len(),
    ensures
        r as int == le16(data@[offset + 1], data@[offset as int]),
        r == spec_u16_be(data@, offset as int),
{
    let hi = data[offset] as u16;
    let lo = data[offset + 1] as u16;
    lo + hi * 256
}

pub fn read_u32_be(data: &[u8], offset: usize) -> (r: u32)
    requires
        offset + 4 <= data@.len(),
    ensures
        r as int == le32(data@[offset + 3], data@[offset + 2], data@[offset + 1], data@[offset as int]),
        r == spec_u32_be(data@, offset as int),
{
    let b3 = data[offset] as u32;
    let b2 = data[offset + 1] as u32;
    let b1 = data[offset + 2] as u32;
    let b0 = data[offset + 3] as u32;
    b0 + b1 * 256 + b2 * 65536 + b3 * 16777216
}

/// Sign-extension from bit `bits - 1`: the 32-bit pattern of `value` with bit
/// `bits - 1` flipped, minus `2^(bits-1)`, truncated to `i32`.
pub open spec fn spec_sign_extend(value: i32, bits: u32) -> i32 {
    let u: int = if value < 0 {
        value + 0x1_0000_0000
    } else {
        value as int
    };
    let s = pow2((bits - 1) as nat) as int;
    let flipped = if (u / s) % 2 == 1 {
        u - s
    } else {
        u + s
    };
    (flipped - s) as i32
}

/// For a value that fits in `bits` bits, sign-extension gives the two's
/// complement reading of those bits.
pub proof fn lemma_sign_extend_small(value: i32, bits: u32)
    requires
        1 <= bits <= 32,
        0 <= value,
        value < pow2(bits as nat),
    ensures
        spec_sign_extend(value, bits) == if value >= pow2((bits - 1) as nat) {
            value - pow2(bits as nat)
        } else {
            value as int
        },
{
    let s = pow2((bits - 1) as nat) as int;
    vstd::arithmetic::power2::lemma_pow2_unfold(bits as nat);
    vstd::arithmetic::power2::lemma_pow2_pos((bits - 1) as nat);
    assert(pow2(bits as nat) == 2 * s);
    let u = value as int;
    if u >= s {
        vstd::arithmetic::div_mod::lemma_fundamental_div_mod(u, s);
        assert(u / s == 1) by {
            vstd::arithmetic::div_mod::lemma_div_is_ordered(s, u, s);
            vstd::arithmetic::div_mod::lemma_div_by_self(s);
            vstd::arithmetic::div_mod::lemma_div_is_ordered(u, 2 * s - 1, s);
            vstd::arithmetic::div_mod::lemma_fundamental_div_mod(2 * s - 1, s);
            vstd::arithmetic::div_mod::lemma_mod_bound(2 * s - 1, s);
            assert((2 * s - 1) / s <= 1) by (nonlinear_arith)
                requires
                    s > 0,
                    2 * s - 1 == s * ((2 * s - 1) / s) + (2 * s - 1) % s,
                    0 <= (2 * s - 1) % s < s,
            ;
        }
    } else {
        vstd::arithmetic::div_mod::lemma_basic_div(u, s);
    }
}

fn pow2_i128(e: u32) -> (r: i128)
    requires
        e <= 63,
    ensures
        r as int == pow2(e as nat),
{
    let mut r: i128 = 1;
    let mut i: u32 = 0;
    proof {
        vstd::arithmetic::power2::lemma2_to64();
    }
    while i < e
        invariant
            i <= e,
            e <= 63,
            r as int == pow2(i as nat),
        decreases e - i,
    {
        proof {
            vstd::arithmetic::power2::lemma_pow2_unfold((i + 1) as nat);
            vstd::arithmetic::power2::lemma_pow2_strictly_increases((i + 1) as nat, 64);
            vstd::arithmetic::power2::lemma2_to64();
        }
        r = r * 2;
        i = i + 1;
    }
    r
}

/// Sign-extends from bit `bits - 1`; from 33 bits on, the value comes back
/// unchanged.
pub fn sign_extend(value: i32, bits: u32) -> (r: i32)
    requires
        1 <= bits <= 64,
    ensures
        r == spec_sign_extend(value, bits),
{
    let u: i128 = if value < 0 {
        value as i128 + 0x1_0000_0000
    } else {
        value as i128
    };
    let s: i128 = pow2_i128(bits - 1);
    proof {
        vstd::arithmetic::power2::lemma_pow2_pos((bits - 1) as nat);
        vstd::arithmetic::power2::lemma2_to64();
        if bits - 1 < 63 {
            vstd::arithmetic::power2::lemma_pow2_strictly_increases((bits - 1) as nat, 63);
        }
        vstd::arithmetic::power2::lemma2_to64_rest();
        assert(pow2(63) == 0x8000_0000_0000_0000);
        assert(0 < s <= 0x8000_0000_0000_0000);
        assert(0 <= u < 0x1_0000_0000);
    }
    let flipped: i128 = if (u / s) % 2 == 1 {
        u - s
    } else {
        u + s
    };
    let d: i128 = flipped - s;
    #[verifier::truncate]
    (d as i32)
}

/// From 33 bits on, sign-extension gives the value back.
pub proof fn lemma_sign_extend_wide(value: i32, bits: u32)
    requires
        33 <= bits <= 64,
    ensures
        spec_sign_extend(value, bits) == value,
{
    let s = pow2((bits - 1) as nat) as int;
    vstd::arithmetic::power2::lemma2_to64();
    if bits - 1 > 32 {
        vstd::arithmetic::power2::lemma_pow2_strictly_increases(32, (bits - 1) as nat);
    }
    let u: int = if value < 0 {
        value + 0x1_0000_0000
    } else {
        value as int
    };
    vstd::arithmetic::div_mod::lemma_basic_div(u, s);
    assert((u + s) - s == u);
    if value < 0 {
        assert((value + 0x1_0000_0000) as i32 == value) by (bit_vector);
    }
}

// ── formatting ──

pub open spec fn spec_fmt_u8(value: u8) -> Seq<char> {
    seq!['0', 'x'] + hex_text(value as nat, 2, true)
}

pub open spec fn spec_fmt_u16(value: u16) -> Seq<char> {
    seq!['0', 'x'] + hex_text(value as nat, 4, true)
}

pub open spec fn spec_fmt_u32(value: u32) -> Seq<char> {
    seq!['0', 'x'] + hex_text(value as nat, 8, true)
}

/// `table0[0xNNNN]`.
pub open spec fn spec_fmt_l0(index: u16) -> Seq<char> {
    seq!['t', 'a', 'b', 'l', 'e', '0', '['] + spec_fmt_u16(index) + seq![']']
}

/// `table2[0xNNNN]`.
pub open spec fn spec_fmt_l2(index: u16) -> Seq<char> {
    seq!['t', 'a', 'b', 'l', 'e', '2', '['] + spec_fmt_u16(index) + seq![']']
}

/// `table1[0xNNNN]`.
pub open spec fn spec_fmt_l1(index: u16) -> Seq<char> {
    seq!['t', 'a', 'b', 'l', 'e', '1', '['] + spec_fmt_u16(index) + seq![']']
}

pub fn fmt_u8(value: u8) -> (r: String)
    ensures
        r@ == spec_fmt_u8(value),
{
    let mut out = String::new();
    push_char(&mut out, '0');
    push_char(&mut out, 'x');
    push_hex(&mut out, value as u64, 2, true);
    assert(out@ =~= spec_fmt_u8(value));
    out
}

pub fn fmt_u16(value: u16) -> (r: String)
    ensures
        r@ == spec_fmt_u16(value),
{
    let mut out = String::new();
    push_char(&mut out, '0');
    push_char(&mut out, 'x');
    push_hex(&mut out, value as u64, 4, true);
    assert(out@ =~= spec_fmt_u16(value));
    out
}

pub fn fmt_u32(value: u32) -> (r: String)
    ensures
        r@ == spec_fmt_u32(value),
{
    let mut out = String::new();
    push_char(&mut out, '0');
    push_char(&mut out, 'x');
    push_hex(&mut out, value as u64, 8, true);
    assert(out@ =~= spec_fmt_u32(value));
    out
}

fn fmt_table_label(digit: char, index: u16) -> (r: String)
    ensures
        r@ == seq!['t', 'a', 'b', 'l', 'e', digit, '['] + spec_fmt_u16(index) + seq![']'],
{
    let mut out = String::new();
    push_char(&mut out, 't');
    push_char(&mut out, 'a');
    push_char(&mut out, 'b');
    push_char(&mut out, 'l');
    push_char(&mut out, 'e');
    push_char(&mut out, digit);
    push_char(&mut out, '[');
    let n = fmt_u16(index);
    out.append(n.as_str());
    push_char(&mut out, ']');
    assert(out@ =~= seq!['t', 'a', 'b', 'l', 'e', digit, '['] + spec_fmt_u16(index) + seq![']']);
    out
}

pub fn fmt_l0(index: u16) -> (r: String)
    ensures
        r@ == spec_fmt_l0(index),
{
    fmt_table_label('0', index)
}

pub fn fmt_l2(index: u16) -> (r: String)
    ensures
        r@ == spec_fmt_l2(index),
{
    fmt_table_label('2', index)
}

/// `table1[0xNNNN]`, the form in which text-table references are written.
pub fn fmt_l1(index: u16) -> (r: String)
    ensures
        r@ == spec_fmt_l1(index),
{
    fmt_table_label('1', index)
}

pub fn hex8(value: u8) -> (r: String)
    ensures
        r@ == spec_fmt_u8(value),
{
    fmt_u8(value)
}

// ── strings in the byte stream ──

/// What `String::from_utf8_lossy` makes of the bytes.
pub uninterp spec fn lossy_utf8(bytes: Seq<u8>) -> Seq<char>;

/// Decodes bytes as UTF-8, replacing invalid sequences.
///
/// Trusted: calls `String::from_utf8_lossy`; the contract only names its
/// result (`lossy_utf8`), a function of the bytes alone, and states nothing
/// of how the decoding or the replacement works.
#[verifier::external_body]
pub(crate) fn utf8_lossy(bytes: &[u8]) -> (r: String)
    ensures
        r@ == lossy_utf8(bytes@),
{
    String::from_utf8_lossy(bytes).into_owned()
}

/// The index of the first zero byte at or after `p` before `max`, or `max`.
pub open spec fn cstring_end(data: Seq<u8>, p: int, max: int) -> int
    decreases max - p,
{
    if p >= max || data[p] == 0 {
        p
    } else {
        cstring_end(data, p + 1, max)
    }
}

pub open spec fn min(a: int, b: int) -> int {
    if a <= b {
        a
    } else {
        b
    }
}

/// The text and the position after a zero-terminated string read at `offset`
/// without reading at or past `min(limit, data.len())`.
pub open spec fn spec_read_cstring(data: Seq<u8>, offset: int, limit: int) -> (Seq<char>, int) {
    let max = min(data.len() as int, limit);
    let end = cstring_end(data, offset, max);
    let next = if end < max {
        end + 1
    } else {
        end
    };
    (lossy_utf8(data.subrange(offset, end)), next)
}

proof fn lemma_cstring_end_bounds(data: Seq<u8>, p: int, max: int)
    ensures
        p <= max ==> p <= cstring_end(data, p, max) <= max,
        p > max ==> cstring_end(data, p, max) == p,
    decreases max - p,
{
    if p < max && data[p] != 0 {
        lemma_cstring_end_bounds(data, p + 1, max);
    }
}

pub fn read_cstring(data: &[u8], offset: usize, limit: usize) -> (r: (String, usize))
    requires
        offset <= data@.len(),
    ensures
        (r.0@, r.1 as int) == spec_read_cstring(data@, offset as int, limit as int),
        offset <= min(data@.len() as int, limit as int) ==> offset <= r.1 <= min(data@.len() as int, limit as int),
{
    let max = if data.len() < limit {
        data.len()
    } else {
        limit
    };
    let mut end = offset;
    while end < max && data[end] != 0
        invariant
            offset <= end <= data@.len(),
            max <= data@.len(),
            max == min(data@.len() as int, limit as int),
            offset <= max ==> end <= max,
            offset > max ==> end == offset,
            cstring_end(data@, offset as int, max as int) == cstring_end(data@, end as int, max as int),
        decreases data@.len() - end,
    {
        end = end + 1;
    }
    proof {
        lemma_cstring_end_bounds(data@, end as int, max as int);
    }
    let text = utf8_lossy(&data[offset..end]);
    let next = if end < max {
        end + 1
    } else {
        end
    };
    (text, next)
}

/// The optional little-endian `u16` at `offset` when two bytes fit before
/// `min(limit, data.len())`, and the position after it.
pub open spec fn spec_decode_u16(data: Seq<u8>, offset: int, limit: int) -> (Option<u16>, int) {
    if offset + 2 > min(limit, data.len() as int) {
        (None, offset)
    } else {
        (Some(spec_u16_le(data, offset)), offset + 2)
    }
}

pub fn decode_u16(data: &[u8], offset: usize, limit: usize) -> (r: (Option<u16>, usize))
    requires
        offset + 2 <= usize::MAX,
    ensures
        (r.0, r.1 as int) == spec_decode_u16(data@, offset as int, limit as int),
{
    let m = if limit < data.len() {
        limit
    } else {
        data.len()
    };
    if offset + 2 > m {
        return (None, offset);
    }
    (Some(read_u16_le(data, offset)), offset + 2)
}

// ── hex dump ──

/// The first sixteen bytes in hex, followed by ` ...` when more follow.
pub open spec fn spec_preview_bytes(data: Seq<u8>) -> Seq<char> {
    if data.len() <= 0x10 {
        hex_bytes(data)
    } else {
        hex_bytes(data.subrange(0, 0x10)) + seq![' ', '.', '.', '.']
    }
}

pub fn preview_bytes(data: &[u8]) -> (r: String)
    ensures
        r@ == spec_preview_bytes(data@),
{
    let mut out = String::new();
    if data.len() <= 0x10 {
        push_hex_bytes(&mut out, data);
    } else {
        push_hex_bytes(&mut out, &data[0..0x10]);
        push_char(&mut out, ' ');
        push_char(&mut out, '.');
        push_char(&mut out, '.');
        push_char(&mut out, '.');
    }
    assert(out@ =~= spec_preview_bytes(data@));
    out
}

pub fn format_hex(data: &[u8]) -> (r: String)
    ensures
        r@ == hex_bytes(data@),
{
    let mut out = String::new();
    push_hex_bytes(&mut out, data);
    assert(out@ =~= hex_bytes(data@));
    out
}

} // verus!
