//! MES (`.msb`) message files: the header and offset table, the token
//! stream of each message, and the message listing.
use vstd::prelude::*;
use vstd::string::*;

use crate::format::{
    fmt_u16, fmt_u32, fmt_u8, preview_bytes, read_u16_be, read_u32_be, spec_fmt_u16, spec_fmt_u32,
    spec_fmt_u8, spec_preview_bytes, spec_u16_be, spec_u32_be,
};
use crate::format::{read_u32_le, spec_u32_le};
use crate::il::{
    operands_view, pos_text_op, strings_view, IlDocument, IlDocumentKind, IlInstruction, IlOperand, IlValue,
    SpecInstruction, SpecOperand,
};
use crate::text::{dec_text, hex_text, push_char, push_dec_u64, push_hex, str_eq};
use std::collections::BTreeMap;

verus! {

broadcast use vstd::laws_cmp::group_laws_cmp, vstd::std_specs::btree::group_btree_axioms;

// ── MsbFile ──

pub struct MsbFile {
    pub path: String,
    pub source_set: String,
    pub data: Vec<u8>,
    pub version: u32,
    pub count_field: u32,
    pub data_offset: u32,
    pub entries: Vec<MsbEntry>,
    pub raw_tail: Vec<u8>,
}

impl MsbFile {
    pub fn size(&self) -> (r: usize)
        ensures
            r == self.data@.len(),
    {
        self.data.len()
    }
}

pub struct MsbEntry {
    pub msg_id: u32,
    pub rel_start: u32,
    pub rel_end: u32,
    pub abs_start: usize,
    pub abs_end: usize,
    pub data: Vec<u8>,
}

pub struct SpecMsbEntry {
    pub msg_id: u32,
    pub rel_start: u32,
    pub rel_end: u32,
    pub abs_start: usize,
    pub abs_end: usize,
    pub data: Seq<u8>,
}

impl View for MsbEntry {
    type V = SpecMsbEntry;

    open spec fn view(&self) -> SpecMsbEntry {
        SpecMsbEntry {
            msg_id: self.msg_id,
            rel_start: self.rel_start,
            rel_end: self.rel_end,
            abs_start: self.abs_start,
            abs_end: self.abs_end,
            data: self.data@,
        }
    }
}

pub open spec fn entries_view(v: Seq<MsbEntry>) -> Seq<SpecMsbEntry> {
    v.map_values(|e: MsbEntry| e@)
}

#[derive(Clone, Debug)]
pub struct MsbToken {
    pub offset: usize,
    pub end: usize,
    pub kind: String,
    pub raw: u32,
    pub text: String,
}

pub struct SpecMsbToken {
    pub offset: int,
    pub end: int,
    pub kind: Seq<char>,
    pub raw: u32,
    pub text: Seq<char>,
}

impl View for MsbToken {
    type V = SpecMsbToken;

    open spec fn view(&self) -> SpecMsbToken {
        SpecMsbToken {
            offset: self.offset as int,
            end: self.end as int,
            kind: self.kind@,
            raw: self.raw,
            text: self.text@,
        }
    }
}

pub open spec fn token(offset: int, end: int, kind: Seq<char>, raw: u32, text: Seq<char>) -> SpecMsbToken {
    SpecMsbToken { offset, end, kind, raw, text }
}

// ── token decoding: specification ──

/// The bytes from `position` to the end, big-endian, keeping the low 32 bits.
pub open spec fn be_fold(bytes: Seq<u8>) -> u32
    decreases bytes.len(),
{
    if bytes.len() == 0 {
        0
    } else {
        ((be_fold(bytes.drop_last()) as int % 0x100_0000) * 256 + bytes.last() as int) as u32
    }
}

/// Text of the one-byte controls.
pub open spec fn simple_control_text(b0: u8) -> Option<Seq<char>> {
    match b0 {
        0x00u8 => Some("newline()"@),
        0x01u8 => Some("begin_name_run()"@),
        0x02u8 => Some("end_name_run()"@),
        0x03u8 => Some("slot_runtime_mode_1()"@),
        0x05u8 => Some("slot_runtime_mode_0()"@),
        0x08u8 => Some("slot_runtime_mode_2()"@),
        0x09u8 => Some("name_run_offset_marker()"@),
        0x0Au8 => Some("begin_side_run()"@),
        0x0Bu8 => Some("end_side_run()"@),
        0x0Eu8 => Some("spacing_segment_break()"@),
        0x0Fu8 => Some("align_center()"@),
        0x10u8 => Some("align_left()"@),
        0x18u8 => Some("slot_runtime_mode_3()"@),
        0x1Eu8 => Some("side_run_use_base_centers()"@),
        0x31u8 => Some("align_right()"@),
        _ => None,
    }
}

/// Name and argument name of the controls with a one-byte argument.
pub open spec fn u8_arg_control(b0: u8) -> Option<(Seq<char>, Seq<char>)> {
    match b0 {
        0x07u8 => Some(("ctrl_07"@, "value"@)),
        0x1Bu8 => Some(("select_style_set"@, "index"@)),
        _ => None,
    }
}

/// Name and argument name of the controls with a big-endian `u16` argument.
pub open spec fn u16_arg_control(b0: u8) -> Option<(Seq<char>, Seq<char>)> {
    match b0 {
        0x0Cu8 => Some(("set_glyph_height_scale"@, "scale"@)),
        0x11u8 => Some(("advance_y"@, "offset"@)),
        0x12u8 => Some(("advance_x"@, "width"@)),
        0x13u8 => Some(("emit_var_decimal_charset0"@, "var"@)),
        0x14u8 => Some(("emit_var_decimal_charset1"@, "var"@)),
        0x16u8 => Some(("ctrl_16"@, "value"@)),
        0x19u8 => Some(("slot_runtime_mode_4"@, "value"@)),
        0x1Au8 => Some(("slot_runtime_mode_5"@, "value"@)),
        _ => None,
    }
}

/// Name of the controls followed by an inline expression.
pub open spec fn inline_expr_control(b0: u8) -> Option<Seq<char>> {
    match b0 {
        0x04u8 => Some("set_text_color_expr"@),
        0x15u8 => Some("queue_inline_expr"@),
        _ => None,
    }
}

/// A truncated control: from `position` to the end of the data.
pub open spec fn spec_trunc_control(data: Seq<u8>, position: int, base: int, name: Seq<char>) -> SpecMsbToken {
    let raw = be_fold(data.subrange(position, data.len() as int));
    token(
        base + position,
        base + data.len(),
        "trunc_ctrl"@,
        raw,
        "trunc_ctrl(name="@ + name + ", raw=0x"@ + hex_text(raw as nat, 0, true) + ")"@,
    )
}

/// Where an inline expression starting at `cursor` ends: at the first zero
/// lead byte, skipping 2 bytes for a lead byte below 0x80 and 2, 3, 4 or 6
/// bytes by bits 5..6 otherwise.
pub open spec fn scan_end(data: Seq<u8>, cursor: int) -> int
    decreases data.len() + 8 - cursor,
{
    if cursor < 0 || cursor >= data.len() || data[cursor] == 0 {
        cursor
    } else {
        let b0 = data[cursor];
        let step: int = if b0 < 0x80 {
            2
        } else {
            let m = (b0 / 32) % 4;
            if m == 0 {
                2
            } else if m == 1 {
                3
            } else if m == 2 {
                4
            } else {
                6
            }
        };
        scan_end(data, cursor + step)
    }
}

pub open spec fn spec_inline_expr_control(data: Seq<u8>, position: int, base: int, name: Seq<char>) -> SpecMsbToken {
    let cursor = scan_end(data, position + 1);
    if cursor >= data.len() {
        spec_trunc_control(data, position, base, name)
    } else {
        let payload = data.subrange(position + 1, cursor);
        token(
            base + position,
            base + cursor + 1,
            "ctrl"@,
            data[position] as u32,
            name + "(size="@ + spec_fmt_u16(payload.len() as u16) + ", raw="@ + spec_preview_bytes(payload)
                + ")"@,
        )
    }
}

pub open spec fn spec_u8_arg_control(
    data: Seq<u8>,
    position: int,
    base: int,
    name: Seq<char>,
    arg: Seq<char>,
) -> SpecMsbToken {
    if position + 2 > data.len() {
        spec_trunc_control(data, position, base, name)
    } else {
        let value = data[position + 1];
        token(
            base + position,
            base + position + 2,
            "ctrl"@,
            (data[position] as int * 256 + value as int) as u32,
            name + seq!['('] + arg + seq!['='] + spec_fmt_u8(value) + seq![')'],
        )
    }
}

pub open spec fn spec_u16_arg_control(
    data: Seq<u8>,
    position: int,
    base: int,
    name: Seq<char>,
    arg: Seq<char>,
) -> SpecMsbToken {
    if position + 3 > data.len() {
        spec_trunc_control(data, position, base, name)
    } else {
        let value = spec_u16_be(data, position + 1);
        token(
            base + position,
            base + position + 3,
            "ctrl"@,
            (data[position] as int * 65536 + value as int) as u32,
            name + seq!['('] + arg + seq!['='] + spec_fmt_u16(value) + seq![')'],
        )
    }
}

pub open spec fn one_byte_control(offset: int, b0: u8, text: Seq<char>) -> SpecMsbToken {
    token(offset, offset + 1, "ctrl"@, b0 as u32, text)
}

/// A control token (lead byte below 0x80).
pub open spec fn spec_control_token(data: Seq<u8>, position: int, base: int) -> SpecMsbToken {
    let b0 = data[position];
    let offset = base + position;
    if simple_control_text(b0) is Some {
        one_byte_control(offset, b0, simple_control_text(b0)->0)
    } else if inline_expr_control(b0) is Some {
        spec_inline_expr_control(data, position, base, inline_expr_control(b0)->0)
    } else if let Some((name, arg)) = u8_arg_control(b0) {
        spec_u8_arg_control(data, position, base, name, arg)
    } else if let Some((name, arg)) = u16_arg_control(b0) {
        spec_u16_arg_control(data, position, base, name, arg)
    } else if 0x20 <= b0 <= 0x29 {
        one_byte_control(offset, b0, "select_special_slot("@ + dec_text(b0 - 0x20) + seq![')'])
    } else if 0x51 <= b0 <= 0x57 {
        one_byte_control(offset, b0, "emit_special_slot_glyph("@ + dec_text(b0 - 0x50) + seq![')'])
    } else {
        one_byte_control(offset, b0, "ctrl_"@ + hex_text(b0 as nat, 2, true) + "()"@)
    }
}

/// A glyph token: four bytes, big-endian, whose value is the raw word with
/// bit 31 cleared.
pub open spec fn spec_packed_token(data: Seq<u8>, position: int, base: int) -> SpecMsbToken {
    if position + 4 > data.len() {
        let raw = be_fold(data.subrange(position, data.len() as int));
        token(
            base + position,
            base + data.len(),
            "trunc_tok"@,
            raw,
            "trunc_tok(prefix="@ + spec_fmt_u8(data[position]) + ", raw=0x"@ + hex_text(raw as nat, 0, true)
                + ")"@,
        )
    } else {
        let raw = spec_u32_be(data, position);
        let value = (raw as int % 0x8000_0000) as u32;
        token(
            base + position,
            base + position + 4,
            "tok"@,
            raw,
            "tok(prefix="@ + spec_fmt_u8(data[position]) + ", value="@ + spec_fmt_u32(value) + ")"@,
        )
    }
}

/// The token at `position` of a message whose first byte lies at `base`:
/// `unterminated` past the end, `end` for 0xFF, a glyph for other bytes from
/// 0x80, a control below.
pub open spec fn spec_decode_msb_token(data: Seq<u8>, position: int, base: int) -> SpecMsbToken {
    if position >= data.len() {
        token(base + position, base + position, "unterminated"@, 0, "unterminated()"@)
    } else if data[position] == 0xFF {
        token(base + position, base + position + 1, "end"@, 0xFF, "end()"@)
    } else if data[position] >= 0x80 {
        spec_packed_token(data, position, base)
    } else {
        spec_control_token(data, position, base)
    }
}

// ── token decoding ──

/// The position bound under which offsets stay representable.
pub open spec fn fits(data: Seq<u8>, base: int) -> bool {
    base + data.len() + 8 <= usize::MAX
}

fn mk_token(offset: usize, end: usize, kind: &str, raw: u32, text: String) -> (r: MsbToken)
    ensures
        r@ == token(offset as int, end as int, kind@, raw, text@),
{
    MsbToken { offset, end, kind: String::from_str(kind), raw, text }
}

fn read_remaining_be(data: &[u8], position: usize) -> (r: u32)
    requires
        position <= data@.len(),
    ensures
        r == be_fold(data@.subrange(position as int, data@.len() as int)),
{
    let mut raw: u32 = 0;
    let mut i = position;
    while i < data.len()
        invariant
            position <= i <= data@.len(),
            raw == be_fold(data@.subrange(position as int, i as int)),
        decreases data@.len() - i,
    {
        let b = data[i];
        raw = (raw % 0x100_0000) * 256 + b as u32;
        i = i + 1;
        assert(data@.subrange(position as int, i as int).drop_last() =~= data@.subrange(
            position as int,
            i - 1,
        ));
    }
    raw
}

fn decode_trunc_control(data: &[u8], position: usize, base_offset: usize, name: &str) -> (r: MsbToken)
    requires
        position <= data@.len(),
        fits(data@, base_offset as int),
    ensures
        r@ == spec_trunc_control(data@, position as int, base_offset as int, name@),
{
    let raw = read_remaining_be(data, position);
    let mut text = String::new();
    text.append("trunc_ctrl(name=");
    text.append(name);
    text.append(", raw=0x");
    push_hex(&mut text, raw as u64, 0, true);
    text.append(")");
    assert(text@ =~= "trunc_ctrl(name="@ + name@ + ", raw=0x"@ + hex_text(raw as nat, 0, true) + ")"@);
    mk_token(base_offset + position, base_offset + data.len(), "trunc_ctrl", raw, text)
}

fn scan_inline_expr_end(data: &[u8], position: usize) -> (r: usize)
    requires
        data@.len() + 8 <= usize::MAX,
        position <= data@.len() + 1,
    ensures
        r == scan_end(data@, position as int),
{
    let mut cursor = position;
    while cursor < data.len() && data[cursor] != 0
        invariant
            cursor <= data@.len() + 6,
            data@.len() + 8 <= usize::MAX,
            scan_end(data@, position as int) == scan_end(data@, cursor as int),
        decreases data@.len() + 8 - cursor,
    {
        let b0 = data[cursor];
        if b0 < 0x80 {
            cursor += 2;
            continue;
        }
        let m = (b0 / 32) % 4;
        cursor += if m == 0 {
            2
        } else if m == 1 {
            3
        } else if m == 2 {
            4
        } else {
            6
        };
    }
    cursor
}

fn decode_inline_expr_control(data: &[u8], position: usize, base_offset: usize, name: &str) -> (r: MsbToken)
    requires
        position < data@.len(),
        fits(data@, base_offset as int),
    ensures
        r@ == spec_inline_expr_control(data@, position as int, base_offset as int, name@),
{
    let cursor = scan_inline_expr_end(data, position + 1);
    if cursor >= data.len() {
        return decode_trunc_control(data, position, base_offset, name);
    }
    proof {
        lemma_scan_end_monotone(data@, position + 1);
    }
    let payload = &data[position + 1..cursor];
    let preview = preview_bytes(payload);
    let offset = base_offset + position;
    let mut text = String::new();
    text.append(name);
    text.append("(size=");
    let size = fmt_u16(#[verifier::truncate] (payload.len() as u16));
    text.append(size.as_str());
    text.append(", raw=");
    text.append(preview.as_str());
    text.append(")");
    assert(text@ =~= name@ + "(size="@ + spec_fmt_u16(payload@.len() as u16) + ", raw="@
        + spec_preview_bytes(payload@) + ")"@);
    mk_token(offset, base_offset + cursor + 1, "ctrl", data[position] as u32, text)
}

proof fn lemma_scan_end_monotone(data: Seq<u8>, cursor: int)
    ensures
        scan_end(data, cursor) >= cursor,
    decreases data.len() + 8 - cursor,
{
    if !(cursor < 0 || cursor >= data.len() || data[cursor] == 0) {
        let b0 = data[cursor];
        if b0 < 0x80 {
            lemma_scan_end_monotone(data, cursor + 2);
        } else {
            let m = (b0 / 32) % 4;
            if m == 0 {
                lemma_scan_end_monotone(data, cursor + 2);
            } else if m == 1 {
                lemma_scan_end_monotone(data, cursor + 3);
            } else if m == 2 {
                lemma_scan_end_monotone(data, cursor + 4);
            } else {
                lemma_scan_end_monotone(data, cursor + 6);
            }
        }
    }
}

fn arg_text(name: &str, arg_name: &str, value: String) -> (r: String)
    ensures
        r@ == name@ + seq!['('] + arg_name@ + seq!['='] + value@ + seq![')'],
{
    let mut text = String::new();
    text.append(name);
    push_char(&mut text, '(');
    text.append(arg_name);
    push_char(&mut text, '=');
    text.append(value.as_str());
    push_char(&mut text, ')');
    assert(text@ =~= name@ + seq!['('] + arg_name@ + seq!['='] + value@ + seq![')']);
    text
}

fn decode_u8_arg_control(data: &[u8], position: usize, base_offset: usize, name: &str, arg_name: &str) -> (r:
    MsbToken)
    requires
        position < data@.len(),
        fits(data@, base_offset as int),
    ensures
        r@ == spec_u8_arg_control(data@, position as int, base_offset as int, name@, arg_name@),
{
    if position + 2 > data.len() {
        return decode_trunc_control(data, position, base_offset, name);
    }
    let offset = base_offset + position;
    let value = data[position + 1];
    let raw = (data[position] as u32) * 256 + value as u32;
    mk_token(offset, offset + 2, "ctrl", raw, arg_text(name, arg_name, fmt_u8(value)))
}

fn decode_u16_arg_control(data: &[u8], position: usize, base_offset: usize, name: &str, arg_name: &str) -> (r:
    MsbToken)
    requires
        position < data@.len(),
        fits(data@, base_offset as int),
    ensures
        r@ == spec_u16_arg_control(data@, position as int, base_offset as int, name@, arg_name@),
{
    if position + 3 > data.len() {
        return decode_trunc_control(data, position, base_offset, name);
    }
    let offset = base_offset + position;
    let value = read_u16_be(data, position + 1);
    let raw = (data[position] as u32) * 65536 + value as u32;
    mk_token(offset, offset + 3, "ctrl", raw, arg_text(name, arg_name, fmt_u16(value)))
}

fn resolve_control_name(value: u8) -> (r: String)
    ensures
        r@ == "ctrl_"@ + hex_text(value as nat, 2, true),
{
    let mut s = String::new();
    s.append("ctrl_");
    push_hex(&mut s, value as u64, 2, true);
    s
}

fn ctrl1(offset: usize, b0: u8, text: &str) -> (r: MsbToken)
    requires
        offset + 1 <= usize::MAX,
    ensures
        r@ == one_byte_control(offset as int, b0, text@),
{
    mk_token(offset, offset + 1, "ctrl", b0 as u32, String::from_str(text))
}

fn ctrl1_counted(offset: usize, b0: u8, prefix: &str, n: u8) -> (r: MsbToken)
    requires
        offset + 1 <= usize::MAX,
    ensures
        r@ == one_byte_control(offset as int, b0, prefix@ + dec_text(n as int) + seq![')']),
{
    let mut text = String::new();
    text.append(prefix);
    push_dec_u64(&mut text, n as u64);
    push_char(&mut text, ')');
    assert(text@ =~= prefix@ + dec_text(n as int) + seq![')']);
    mk_token(offset, offset + 1, "ctrl", b0 as u32, text)
}

fn decode_control_token(data: &[u8], position: usize, base_offset: usize) -> (r: MsbToken)
    requires
        position < data@.len(),
        data@[position as int] < 0x80,
        fits(data@, base_offset as int),
    ensures
        r@ == spec_control_token(data@, position as int, base_offset as int),
{
    let b0 = data[position];
    let offset = base_offset + position;
    match b0 {
        0x00 => ctrl1(offset, b0, "newline()"),
        0x01 => ctrl1(offset, b0, "begin_name_run()"),
        0x02 => ctrl1(offset, b0, "end_name_run()"),
        0x03 => ctrl1(offset, b0, "slot_runtime_mode_1()"),
        0x04 => decode_inline_expr_control(data, position, base_offset, "set_text_color_expr"),
        0x05 => ctrl1(offset, b0, "slot_runtime_mode_0()"),
        0x07 => decode_u8_arg_control(data, position, base_offset, "ctrl_07", "value"),
        0x08 => ctrl1(offset, b0, "slot_runtime_mode_2()"),
        0x09 => ctrl1(offset, b0, "name_run_offset_marker()"),
        0x0A => ctrl1(offset, b0, "begin_side_run()"),
        0x0B => ctrl1(offset, b0, "end_side_run()"),
        0x0C => decode_u16_arg_control(data, position, base_offset, "set_glyph_height_scale", "scale"),
        0x0E => ctrl1(offset, b0, "spacing_segment_break()"),
        0x0F => ctrl1(offset, b0, "align_center()"),
        0x10 => ctrl1(offset, b0, "align_left()"),
        0x11 => decode_u16_arg_control(data, position, base_offset, "advance_y", "offset"),
        0x12 => decode_u16_arg_control(data, position, base_offset, "advance_x", "width"),
        0x13 => decode_u16_arg_control(data, position, base_offset, "emit_var_decimal_charset0", "var"),
        0x14 => decode_u16_arg_control(data, position, base_offset, "emit_var_decimal_charset1", "var"),
        0x15 => decode_inline_expr_control(data, position, base_offset, "queue_inline_expr"),
        0x16 => decode_u16_arg_control(data, position, base_offset, "ctrl_16", "value"),
        0x18 => ctrl1(offset, b0, "slot_runtime_mode_3()"),
        0x19 => decode_u16_arg_control(data, position, base_offset, "slot_runtime_mode_4", "value"),
        0x1A => decode_u16_arg_control(data, position, base_offset, "slot_runtime_mode_5", "value"),
        0x1B => decode_u8_arg_control(data, position, base_offset, "select_style_set", "index"),
        0x1E => ctrl1(offset, b0, "side_run_use_base_centers()"),
        0x20..=0x29 => ctrl1_counted(offset, b0, "select_special_slot(", b0 - 0x20),
        0x31 => ctrl1(offset, b0, "align_right()"),
        0x51..=0x57 => ctrl1_counted(offset, b0, "emit_special_slot_glyph(", b0 - 0x50),
        _ => {
            let mut text = resolve_control_name(b0);
            text.append("()");
            mk_token(offset, offset + 1, "ctrl", b0 as u32, text)
        },
    }
}

fn decode_packed_token(data: &[u8], position: usize, base_offset: usize) -> (r: MsbToken)
    requires
        position < data@.len(),
        fits(data@, base_offset as int),
    ensures
        r@ == spec_packed_token(data@, position as int, base_offset as int),
{
    if position + 4 > data.len() {
        let raw = read_remaining_be(data, position);
        let mut text = String::new();
        text.append("trunc_tok(prefix=");
        let p = fmt_u8(data[position]);
        text.append(p.as_str());
        text.append(", raw=0x");
        push_hex(&mut text, raw as u64, 0, true);
        text.append(")");
        assert(text@ =~= "trunc_tok(prefix="@ + spec_fmt_u8(data@[position as int]) + ", raw=0x"@
            + hex_text(raw as nat, 0, true) + ")"@);
        return mk_token(base_offset + position, base_offset + data.len(), "trunc_tok", raw, text);
    }
    let packed_raw = read_u32_be(data, position);
    let value = packed_raw % 0x8000_0000;
    let mut text = String::new();
    text.append("tok(prefix=");
    let p = fmt_u8(data[position]);
    text.append(p.as_str());
    text.append(", value=");
    let v = fmt_u32(value);
    text.append(v.as_str());
    text.append(")");
    assert(text@ =~= "tok(prefix="@ + spec_fmt_u8(data@[position as int]) + ", value="@ + spec_fmt_u32(value)
        + ")"@);
    mk_token(base_offset + position, base_offset + position + 4, "tok", packed_raw, text)
}

pub fn decode_msb_token(data: &[u8], position: usize, base_offset: usize) -> (r: MsbToken)
    requires
        fits(data@, base_offset as int),
        base_offset + position + 1 <= usize::MAX,
    ensures
        r@ == spec_decode_msb_token(data@, position as int, base_offset as int),
{
    if position >= data.len() {
        return mk_token(
            base_offset + position,
            base_offset + position,
            "unterminated",
            0,
            String::from_str("unterminated()"),
        );
    }
    let b0 = data[position];
    if b0 == 0xFF {
        return mk_token(base_offset + position, base_offset + position + 1, "end", b0 as u32, String::from_str("end()"));
    }
    if b0 >= 0x80 {
        return decode_packed_token(data, position, base_offset);
    }
    decode_control_token(data, position, base_offset)
}

// ── token streams ──

/// Kinds after which a message's token stream stops.
pub open spec fn is_stop_kind(kind: Seq<char>) -> bool {
    kind == "end"@ || kind == "trunc_tok"@ || kind == "trunc_ctrl"@
}

pub open spec fn imax(a: int, b: int) -> int {
    if a >= b {
        a
    } else {
        b
    }
}

/// The tokens decoded from `position` on, up to and including the first
/// `end`/`trunc_tok`/`trunc_ctrl`, and whether the last one was `end`.
pub open spec fn entry_tokens_from(data: Seq<u8>, position: int, base: int) -> (Seq<SpecMsbToken>, bool)
    decreases data.len() - position,
{
    if position < 0 || position >= data.len() {
        (Seq::empty(), false)
    } else {
        let t = spec_decode_msb_token(data, position, base);
        if is_stop_kind(t.kind) {
            (seq![t], t.kind == "end"@)
        } else {
            let next = imax(t.end - base, position + 1);
            let r = entry_tokens_from(data, next, base);
            (seq![t] + r.0, r.1)
        }
    }
}

/// The token stream of a message, with an `unterminated` token at its end
/// when it does not stop on `end`.
pub open spec fn spec_entry_tokens(e: SpecMsbEntry) -> Seq<SpecMsbToken> {
    let r = entry_tokens_from(e.data, 0, e.abs_start as int);
    if r.1 {
        r.0
    } else {
        r.0.push(token(e.abs_end as int, e.abs_end as int, "unterminated"@, 0, "unterminated()"@))
    }
}

/// Offsets within a message and its end stay representable.
pub open spec fn entry_fits(e: SpecMsbEntry) -> bool {
    fits(e.data, e.abs_start as int) && e.abs_end + 1 <= usize::MAX
}

pub open spec fn tokens_view(v: Seq<MsbToken>) -> Seq<SpecMsbToken> {
    v.map_values(|t: MsbToken| t@)
}

proof fn lemma_token_end(data: Seq<u8>, position: int, base: int)
    requires
        0 <= position < data.len(),
    ensures
        spec_decode_msb_token(data, position, base).end >= base + position,
{
    if data[position] != 0xFF && data[position] < 0x80 {
        if inline_expr_control(data[position]) is Some {
            lemma_scan_end_monotone(data, position + 1);
        }
    }
}

fn is_kind(t: &MsbToken, kind: &str) -> (r: bool)
    ensures
        r == (t.kind@ == kind@),
{
    str_eq(t.kind.as_str(), kind)
}

#[verifier::rlimit(40)]
#[verifier::spinoff_prover]
pub fn decode_entry_tokens(entry: &MsbEntry) -> (r: Vec<MsbToken>)
    requires
        entry_fits(entry@),
    ensures
        tokens_view(r@) == spec_entry_tokens(entry@),
{
    let ghost data = entry.data@;
    let ghost base = entry.abs_start as int;
    let ghost total = entry_tokens_from(data, 0, base);
    let mut tokens: Vec<MsbToken> = Vec::new();
    let mut position: usize = 0;
    let mut terminated = false;
    assert(tokens_view(tokens@) + total.0 =~= total.0);
    while position < entry.data.len()
        invariant_except_break
            data == entry.data@,
            base == entry.abs_start as int,
            entry_fits(entry@),
            total == entry_tokens_from(data, 0, base),
            ({
                let rest = entry_tokens_from(data, position as int, base);
                total == (tokens_view(tokens@) + rest.0, rest.1)
            }),
            !terminated,
        ensures
            total == (tokens_view(tokens@), terminated),
        decreases data.len() - position,
    {
        let ghost before = tokens_view(tokens@);
        let ghost rest = entry_tokens_from(data, position as int, base);
        let token = decode_msb_token(entry.data.as_slice(), position, entry.abs_start);
        proof {
            lemma_token_end(data, position as int, base);
        }
        let rel = token.end - entry.abs_start;
        let next = if rel > position + 1 {
            rel
        } else {
            position + 1
        };
        position = next;
        let is_end = is_kind(&token, "end") || is_kind(&token, "trunc_tok") || is_kind(&token, "trunc_ctrl");
        terminated = is_kind(&token, "end");
        let ghost tv = token@;
        tokens.push(token);
        assert(tokens_view(tokens@) =~= before.push(tv));
        if is_end {
            assert(before + seq![tv] =~= tokens_view(tokens@));
            break;
        }
        assert(before + (seq![tv] + entry_tokens_from(data, position as int, base).0) =~= tokens_view(tokens@)
            + entry_tokens_from(data, position as int, base).0);
    }
    proof {
        if total.0 == tokens_view(tokens@) {
        }
        assert(tokens_view(tokens@) + Seq::<SpecMsbToken>::empty() =~= tokens_view(tokens@));
    }
    if !terminated {
        let t = mk_token(entry.abs_end, entry.abs_end, "unterminated", 0, String::from_str("unterminated()"));
        let ghost tv = t@;
        let ghost before = tokens_view(tokens@);
        tokens.push(t);
        assert(tokens_view(tokens@) =~= before.push(tv));
    }
    tokens
}

// ── MSB disassembler ──

/// The listing entry of a message: `msg_XXXX` with one positional text
/// operand per token, and its id, relative range and length as comments.
pub open spec fn msb_instruction(e: SpecMsbEntry) -> SpecInstruction {
    SpecInstruction {
        offset: e.abs_start,
        end: e.abs_end,
        mnemonic: "msg_"@ + hex_text(e.msg_id as nat, 4, true),
        operands: spec_entry_tokens(e).map_values(|t: SpecMsbToken| pos_text_op(t.text)),
        comments: seq![
            "id="@ + dec_text(e.msg_id as int),
            "rel=[0x"@ + hex_text(e.rel_start as nat, 4, true) + ",0x"@ + hex_text(e.rel_end as nat, 4, true)
                + ")"@,
            "len=0x"@ + hex_text(e.data.len(), 0, true),
        ],
    }
}

/// The messages keyed by absolute start; a later message replaces an
/// earlier one with the same start.
pub open spec fn msb_instruction_map(entries: Seq<SpecMsbEntry>) -> Map<usize, SpecInstruction>
    decreases entries.len(),
{
    if entries.len() == 0 {
        Map::empty()
    } else {
        msb_instruction_map(entries.drop_last()).insert(
            entries.last().abs_start,
            msb_instruction(entries.last()),
        )
    }
}

/// A map of instructions whose views are those of `s`.
pub open spec fn views_match(m: Map<usize, IlInstruction>, s: Map<usize, SpecInstruction>) -> bool {
    &&& m.dom() == s.dom()
    &&& forall|k: usize| #[trigger] m.contains_key(k) ==> m[k]@ == s[k]
}

fn msb_instruction_exec(entry: &MsbEntry) -> (r: IlInstruction)
    requires
        entry_fits(entry@),
    ensures
        r@ == msb_instruction(entry@),
{
    let mut mnemonic = String::new();
    mnemonic.append("msg_");
    push_hex(&mut mnemonic, entry.msg_id as u64, 4, true);
    let mut inst = IlInstruction::new(entry.abs_start, entry.abs_end, mnemonic.as_str());
    let tokens = decode_entry_tokens(entry);
    let ghost tv = tokens_view(tokens@);
    let ghost f = |t: SpecMsbToken| pos_text_op(t.text);
    let mut i: usize = 0;
    while i < tokens.len()
        invariant
            i <= tokens@.len(),
            tv == tokens_view(tokens@),
            f == (|t: SpecMsbToken| pos_text_op(t.text)),
            inst@.offset == entry.abs_start,
            inst@.end == entry.abs_end,
            inst@.mnemonic == "msg_"@ + hex_text(entry.msg_id as nat, 4, true),
            inst@.comments == Seq::<Seq<char>>::empty(),
            inst@.operands == tv.subrange(0, i as int).map_values(f),
        decreases tokens@.len() - i,
    {
        let ghost before = inst@.operands;
        let op = IlOperand { name: None, value: IlValue::Text(tokens[i].text.clone()) };
        assert(op@ == f(tv[i as int]));
        let ghost opv = op@;
        inst.operands.push(op);
        assert(inst@.operands =~= before.push(opv));
        assert(tv.subrange(0, i + 1).map_values(f) =~= tv.subrange(0, i as int).map_values(f).push(f(tv[i as int])));
        i = i + 1;
        assert(inst@.operands =~= tv.subrange(0, i as int).map_values(f));
    }
    assert(tv.subrange(0, i as int) =~= tv);
    let mut c1 = String::new();
    c1.append("id=");
    push_dec_u64(&mut c1, entry.msg_id as u64);
    let mut c2 = String::new();
    c2.append("rel=[0x");
    push_hex(&mut c2, entry.rel_start as u64, 4, true);
    c2.append(",0x");
    push_hex(&mut c2, entry.rel_end as u64, 4, true);
    c2.append(")");
    let mut c3 = String::new();
    c3.append("len=0x");
    push_hex(&mut c3, entry.data.len() as u64, 0, true);
    inst.comments.push(c1);
    inst.comments.push(c2);
    inst.comments.push(c3);
    assert(inst@.comments =~= msb_instruction(entry@).comments);
    assert(inst@.operands =~= msb_instruction(entry@).operands);
    inst
}

pub fn build_msb_document(msb: &MsbFile) -> (doc: IlDocument)
    requires
        forall|i: int| 0 <= i < msb.entries@.len() ==> entry_fits(#[trigger] msb.entries@[i]@),
    ensures
        doc.kind == IlDocumentKind::Msb,
        doc.source_path@ == msb.path@,
        doc.size == msb.data@.len(),
        doc.off_table1 == 0,
        doc.off_table2 == 0,
        doc.code_start == msb.data_offset as usize,
        doc.code_end == msb.data@.len(),
        doc.sweep_start == msb.data_offset as usize,
        doc.msb_source_set matches Some(s) && s@ == msb.source_set@,
        doc.msb_raw_tail matches Some(t) && t@ == msb.raw_tail@,
        views_match(doc.instructions@, msb_instruction_map(entries_view(msb.entries@))),
        distinct_starts(entries_view(msb.entries@)) ==> doc.instructions@.len() == msb.entries@.len(),
        distinct_starts(entries_view(msb.entries@)) ==> forall|i: int|
            0 <= i < msb.entries@.len() ==> #[trigger] doc.instructions@.contains_key(msb.entries@[i].abs_start)
                && doc.instructions@[msb.entries@[i].abs_start]@ == msb_instruction(msb.entries@[i]@),
{
    let ghost ev = entries_view(msb.entries@);
    let mut instructions: BTreeMap<usize, IlInstruction> = BTreeMap::new();
    let mut i: usize = 0;
    while i < msb.entries.len()
        invariant
            i <= msb.entries@.len(),
            ev == entries_view(msb.entries@),
            forall|j: int| 0 <= j < msb.entries@.len() ==> entry_fits(#[trigger] msb.entries@[j]@),
            views_match(instructions@, msb_instruction_map(ev.subrange(0, i as int))),
        decreases msb.entries@.len() - i,
    {
        let entry = &msb.entries[i];
        let inst = msb_instruction_exec(entry);
        let ghost iv = inst@;
        instructions.insert(entry.abs_start, inst);
        proof {
            let pre = ev.subrange(0, i as int);
            let post = ev.subrange(0, i + 1);
            assert(post.drop_last() =~= pre);
            assert(post.last() == entry@);
            let target = msb_instruction_map(post);
            assert(instructions@.dom() =~= target.dom());
        }
        i = i + 1;
    }
    assert(ev.subrange(0, i as int) =~= ev);
    proof {
        if distinct_starts(ev) {
            lemma_distinct_starts_one_instruction_each(ev);
            assert(instructions@.dom() == msb_instruction_map(ev).dom());
            assert forall|j: int| 0 <= j < msb.entries@.len() implies #[trigger] instructions@.contains_key(
                msb.entries@[j].abs_start,
            ) && instructions@[msb.entries@[j].abs_start]@ == msb_instruction(msb.entries@[j]@) by {
                assert(ev[j] == msb.entries@[j]@);
                assert(ev[j].abs_start == msb.entries@[j].abs_start);
                assert(msb_instruction_map(ev).contains_key(ev[j].abs_start));
                assert(instructions@.contains_key(ev[j].abs_start));
                assert(instructions@[ev[j].abs_start]@ == msb_instruction_map(ev)[ev[j].abs_start]);
            }
        }
        assert(distinct_starts(entries_view(msb.entries@)) ==> forall|j: int|
            0 <= j < msb.entries@.len() ==> #[trigger] instructions@.contains_key(msb.entries@[j].abs_start)
                && instructions@[msb.entries@[j].abs_start]@ == msb_instruction(msb.entries@[j]@));
    }
    IlDocument {
        kind: IlDocumentKind::Msb,
        source_path: msb.path.clone(),
        size: msb.data.len(),
        off_table1: 0,
        off_table2: 0,
        code_start: msb.data_offset as usize,
        code_end: msb.data.len(),
        sweep_start: msb.data_offset as usize,
        msb_source_set: Some(msb.source_set.clone()),
        msb_raw_tail: Some(vstd::slice::slice_to_vec(msb.raw_tail.as_slice())),
        instructions,
    }
}

// ── parsing ──

/// Why the bytes are not a well-formed MES file.
#[derive(Debug, Clone, Copy, PartialEq, Eq)]
pub enum MsbError {
    /// Shorter than the 16-byte header, or without the `MES\0` magic.
    NotMes,
    UnsupportedVersion { version: u32 },
    /// The data offset is not 16 plus 8 per table entry.
    InvalidDataOffset { data_offset: u32, expected: u64 },
    DataOffsetBeyondEof,
    FirstRelStartNonZero { rel_start: u32 },
    NonMonotonic { msg_id: u32, rel_start: u32, prev_rel_start: u32 },
    InvalidRange { msg_id: u32, rel_start: u32, rel_end: u32 },
    RangeExceedsEof { msg_id: u32 },
}

pub open spec fn msb_version(data: Seq<u8>) -> u32 {
    spec_u32_le(data, 4)
}

pub open spec fn msb_count(data: Seq<u8>) -> u32 {
    spec_u32_le(data, 8)
}

pub open spec fn msb_data_offset(data: Seq<u8>) -> u32 {
    spec_u32_le(data, 0x0C)
}

pub open spec fn msg_id_at(data: Seq<u8>, i: int) -> u32 {
    spec_u32_le(data, 0x10 + 8 * i)
}

pub open spec fn rel_start_at(data: Seq<u8>, i: int) -> u32 {
    spec_u32_le(data, 0x14 + 8 * i)
}

/// The first header problem, in the order the header is checked.
pub open spec fn header_error(data: Seq<u8>) -> Option<MsbError> {
    if data.len() < 0x10 || data[0] != 0x4D || data[1] != 0x45 || data[2] != 0x53 || data[3] != 0 {
        Some(MsbError::NotMes)
    } else if msb_version(data) != 1 {
        Some(MsbError::UnsupportedVersion { version: msb_version(data) })
    } else if msb_data_offset(data) as int != 0x10 + 8 * msb_count(data) {
        Some(
            MsbError::InvalidDataOffset {
                data_offset: msb_data_offset(data),
                expected: (0x10 + 8 * msb_count(data)) as u64,
            },
        )
    } else if msb_data_offset(data) > data.len() {
        Some(MsbError::DataOffsetBeyondEof)
    } else {
        None
    }
}

/// The first offset-table problem from entry `i` on: the first start must be
/// zero and starts must not decrease.
pub open spec fn table_error(data: Seq<u8>, count: int, i: int) -> Option<MsbError>
    decreases count - i,
{
    if i < 0 || i >= count {
        None
    } else {
        let rs = rel_start_at(data, i);
        if i == 0 && rs != 0 {
            Some(MsbError::FirstRelStartNonZero { rel_start: rs })
        } else if i > 0 && rs < rel_start_at(data, i - 1) {
            Some(
                MsbError::NonMonotonic {
                    msg_id: msg_id_at(data, i),
                    rel_start: rs,
                    prev_rel_start: rel_start_at(data, i - 1),
                },
            )
        } else {
            table_error(data, count, i + 1)
        }
    }
}

/// The length of the message area, as the header's 32-bit offsets see it.
pub open spec fn file_rel_end(data: Seq<u8>) -> u32 {
    (data.len() - msb_data_offset(data)) as u32
}

/// A message ends where the next starts; the last at the end of the file.
pub open spec fn rel_end_at(data: Seq<u8>, count: int, i: int) -> u32 {
    if i + 1 < count {
        rel_start_at(data, i + 1)
    } else {
        file_rel_end(data)
    }
}

/// The first message-range problem from entry `i` on.
pub open spec fn range_error(data: Seq<u8>, count: int, i: int) -> Option<MsbError>
    decreases count - i,
{
    if i < 0 || i >= count {
        None
    } else {
        let rs = rel_start_at(data, i);
        let re = rel_end_at(data, count, i);
        if re < rs {
            Some(MsbError::InvalidRange { msg_id: msg_id_at(data, i), rel_start: rs, rel_end: re })
        } else if msb_data_offset(data) + re > data.len() {
            Some(MsbError::RangeExceedsEof { msg_id: msg_id_at(data, i) })
        } else {
            range_error(data, count, i + 1)
        }
    }
}

pub open spec fn spec_entry_at(data: Seq<u8>, count: int, i: int) -> SpecMsbEntry {
    let d0 = msb_data_offset(data) as int;
    let rs = rel_start_at(data, i);
    let re = rel_end_at(data, count, i);
    SpecMsbEntry {
        msg_id: msg_id_at(data, i),
        rel_start: rs,
        rel_end: re,
        abs_start: (d0 + rs) as usize,
        abs_end: (d0 + re) as usize,
        data: data.subrange(d0 + rs, d0 + re),
    }
}

pub struct SpecMsbFile {
    pub version: u32,
    pub count_field: u32,
    pub data_offset: u32,
    pub entries: Seq<SpecMsbEntry>,
    pub raw_tail: Seq<u8>,
}

/// The parsed form of a MES file, or its first problem.
pub open spec fn spec_parse_msb(data: Seq<u8>) -> Result<SpecMsbFile, MsbError> {
    match header_error(data) {
        Some(e) => Err(e),
        None => {
            let count = msb_count(data) as int;
            let d0 = msb_data_offset(data) as int;
            match table_error(data, count, 0) {
                Some(e) => Err(e),
                None => match range_error(data, count, 0) {
                    Some(e) => Err(e),
                    None => Ok(
                        SpecMsbFile {
                            version: msb_version(data),
                            count_field: msb_count(data),
                            data_offset: msb_data_offset(data),
                            entries: Seq::new(count as nat, |i: int| spec_entry_at(data, count, i)),
                            raw_tail: if count > 0 {
                                data.subrange(d0 + rel_end_at(data, count, count - 1), data.len() as int)
                            } else {
                                data.subrange(d0, data.len() as int)
                            },
                        },
                    ),
                },
            }
        },
    }
}

proof fn lemma_ranges_ok(data: Seq<u8>, count: int, i: int)
    requires
        0 <= i,
        range_error(data, count, i) is None,
    ensures
        forall|j: int|
            i <= j < count ==> rel_start_at(data, j) <= #[trigger] rel_end_at(data, count, j) && msb_data_offset(
                data,
            ) + rel_end_at(data, count, j) <= data.len(),
    decreases count - i,
{
    if i < count {
        lemma_ranges_ok(data, count, i + 1);
    }
}

/// Parses the bytes of a MES file read from `path` (in the directory named
/// `source_set`).
#[verifier::rlimit(40)]
#[verifier::spinoff_prover]
pub fn parse_msb_data(path: String, source_set: String, data: Vec<u8>) -> (r: Result<MsbFile, MsbError>)
    ensures
        match r {
            Ok(f) => {
                &&& spec_parse_msb(data@) == Ok::<SpecMsbFile, MsbError>(
                    SpecMsbFile {
                        version: f.version,
                        count_field: f.count_field,
                        data_offset: f.data_offset,
                        entries: entries_view(f.entries@),
                        raw_tail: f.raw_tail@,
                    },
                )
                &&& f.path == path
                &&& f.source_set == source_set
                &&& f.data@ == data@
                &&& (data@.len() + 8 <= usize::MAX ==> forall|i: int|
                    0 <= i < f.entries@.len() ==> entry_fits(#[trigger] f.entries@[i]@))
            },
            Err(e) => spec_parse_msb(data@) == Err::<SpecMsbFile, MsbError>(e),
        },
{
    if data.len() < 0x10 || data[0] != 0x4D || data[1] != 0x45 || data[2] != 0x53 || data[3] != 0 {
        return Err(MsbError::NotMes);
    }
    let version = read_u32_le(data.as_slice(), 4);
    let count_field = read_u32_le(data.as_slice(), 8);
    let data_offset = read_u32_le(data.as_slice(), 0x0C);
    if version != 1 {
        return Err(MsbError::UnsupportedVersion { version });
    }
    let expected: u64 = 0x10u64 + (count_field as u64) * 8;
    if data_offset as u64 != expected {
        return Err(MsbError::InvalidDataOffset { data_offset, expected });
    }
    if data_offset as usize > data.len() {
        return Err(MsbError::DataOffsetBeyondEof);
    }
    let ghost d = data@;
    let ghost count = count_field as int;
    let entry_count = count_field as usize;
    let mut table: Vec<(u32, u32)> = Vec::new();
    let mut prev_rel_start: u32 = 0;
    let mut i: usize = 0;
    while i < entry_count
        invariant
            d == data@,
            count == entry_count,
            header_error(d) is None,
            msb_count(d) == count_field,
            msb_data_offset(d) == data_offset,
            data_offset as int == 0x10 + 8 * count,
            data_offset <= data@.len(),
            i <= entry_count,
            table@.len() == i,
            forall|j: int| 0 <= j < i ==> #[trigger] table@[j] == (msg_id_at(d, j), rel_start_at(d, j)),
            prev_rel_start == (if i == 0 {
                0
            } else {
                rel_start_at(d, i - 1)
            }),
            table_error(d, count, 0) == table_error(d, count, i as int),
        decreases entry_count - i,
    {
        let item_offset = 0x10 + i * 8;
        let msg_id = read_u32_le(data.as_slice(), item_offset);
        let rel_start = read_u32_le(data.as_slice(), item_offset + 4);
        if i == 0 && rel_start != 0 {
            return Err(MsbError::FirstRelStartNonZero { rel_start });
        }
        if rel_start < prev_rel_start {
            return Err(MsbError::NonMonotonic { msg_id, rel_start, prev_rel_start });
        }
        table.push((msg_id, rel_start));
        prev_rel_start = rel_start;
        i = i + 1;
    }
    let rel_end_of_file: u32 = #[verifier::truncate] ((data.len() - data_offset as usize) as u32);
    let mut entries: Vec<MsbEntry> = Vec::new();
    let mut i: usize = 0;
    while i < table.len()
        invariant
            d == data@,
            count == entry_count,
            table@.len() == entry_count,
            header_error(d) is None,
            table_error(d, count, 0) is None,
            msb_count(d) == count_field,
            msb_data_offset(d) == data_offset,
            data_offset as int == 0x10 + 8 * count,
            data_offset <= data@.len(),
            rel_end_of_file == file_rel_end(d),
            forall|j: int| 0 <= j < entry_count ==> #[trigger] table@[j] == (msg_id_at(d, j), rel_start_at(d, j)),
            i <= entry_count,
            entries_view(entries@) == Seq::new(i as nat, |j: int| spec_entry_at(d, count, j)),
            range_error(d, count, 0) == range_error(d, count, i as int),
        decreases entry_count - i,
    {
        let (msg_id, rel_start) = table[i];
        let rel_end = if i + 1 < table.len() {
            table[i + 1].1
        } else {
            rel_end_of_file
        };
        if rel_end < rel_start {
            return Err(MsbError::InvalidRange { msg_id, rel_start, rel_end });
        }
        let abs_start64: u64 = data_offset as u64 + rel_start as u64;
        let abs_end64: u64 = data_offset as u64 + rel_end as u64;
        if abs_end64 > data.len() as u64 {
            return Err(MsbError::RangeExceedsEof { msg_id });
        }
        let abs_start = abs_start64 as usize;
        let abs_end = abs_end64 as usize;
        let e = MsbEntry {
            msg_id,
            rel_start,
            rel_end,
            abs_start,
            abs_end,
            data: vstd::slice::slice_to_vec(&data.as_slice()[abs_start..abs_end]),
        };
        let ghost ev = e@;
        assert(ev == spec_entry_at(d, count, i as int));
        let ghost before = entries_view(entries@);
        entries.push(e);
        assert(entries_view(entries@) =~= before.push(ev));
        i = i + 1;
        assert(entries_view(entries@) =~= Seq::new(i as nat, |j: int| spec_entry_at(d, count, j)));
    }
    proof {
        lemma_ranges_ok(d, count, 0);
        assert forall|j: int| 0 <= j < entries@.len() implies (data@.len() + 8 <= usize::MAX ==> entry_fits(
            #[trigger] entries@[j]@,
        )) by {
            assert(entries@[j]@ == entries_view(entries@)[j]);
            assert(rel_end_at(d, count, j) >= rel_start_at(d, j));
        }
        if count > 0 {
            assert(entries@[count - 1]@ == entries_view(entries@)[count - 1]);
            assert(rel_end_at(d, count, count - 1) >= rel_start_at(d, count - 1));
        }
    }
    let raw_tail = if entries.len() > 0 {
        let last_end = data_offset as usize + entries[entries.len() - 1].rel_end as usize;
        vstd::slice::slice_to_vec(&data.as_slice()[last_end..data.len()])
    } else {
        vstd::slice::slice_to_vec(&data.as_slice()[data_offset as usize..data.len()])
    };
    Ok(MsbFile { path, source_set, data, version, count_field, data_offset, entries, raw_tail })
}

// ── laws ──

/// The messages of a well-formed MES file lie back to back in the data
/// area: the first starts at the data offset, each ends where the next
/// starts, none ends past the file, and (for files whose size fits the
/// format's 32-bit offsets) the last ends at the end of the file.
#[verifier::rlimit(50)]
pub proof fn lemma_messages_tile(data: Seq<u8>, f: SpecMsbFile)
    requires
        spec_parse_msb(data) == Ok::<SpecMsbFile, MsbError>(f),
        data.len() <= usize::MAX,
    ensures
        forall|i: int|
            0 <= i < f.entries.len() ==> (#[trigger] f.entries[i]).abs_start <= f.entries[i].abs_end
                && f.entries[i].abs_end <= data.len() && f.entries[i].data == data.subrange(
                f.entries[i].abs_start as int,
                f.entries[i].abs_end as int,
            ),
        forall|i: int|
            0 <= i && i + 1 < f.entries.len() ==> (#[trigger] f.entries[i]).abs_end == f.entries[i + 1].abs_start,
        f.entries.len() > 0 ==> f.entries[0].abs_start == f.data_offset,
        f.entries.len() > 0 && data.len() <= u32::MAX ==> f.entries[f.entries.len() - 1].abs_end == data.len(),
{
    let count = msb_count(data) as int;
    let d0 = msb_data_offset(data) as int;
    assert(header_error(data) is None && table_error(data, count, 0) is None && range_error(data, count, 0) is None);
    assert(f.entries =~= Seq::new(count as nat, |i: int| spec_entry_at(data, count, i)));
    assert(f.data_offset == d0);
    lemma_ranges_ok(data, count, 0);
    assert forall|i: int| 0 <= i < f.entries.len() implies (#[trigger] f.entries[i]).abs_start <= f.entries[i].abs_end
        && f.entries[i].abs_end <= data.len() && f.entries[i].data == data.subrange(
        f.entries[i].abs_start as int,
        f.entries[i].abs_end as int,
    ) by {
        assert(rel_start_at(data, i) <= rel_end_at(data, count, i));
    }
    if count > 0 {
        assert(rel_start_at(data, 0) == 0);
    }
}

proof fn lemma_tokens_from_end(data: Seq<u8>, position: int, base: int)
    ensures
        ({
            let r = entry_tokens_from(data, position, base);
            &&& r.1 ==> r.0.len() > 0 && r.0.last().kind == "end"@
            &&& forall|i: int| 0 <= i < r.0.len() && (i < r.0.len() - 1 || !r.1) ==> (#[trigger] r.0[i]).kind != "end"@
        }),
    decreases data.len() - position,
{
    if 0 <= position < data.len() {
        let t = spec_decode_msb_token(data, position, base);
        if !is_stop_kind(t.kind) {
            let next = imax(t.end - base, position + 1);
            lemma_tokens_from_end(data, next, base);
            let r = entry_tokens_from(data, next, base);
            assert forall|i: int| 0 <= i < r.0.len() + 1 implies (seq![t] + r.0)[i] == if i == 0 {
                t
            } else {
                r.0[i - 1]
            } by {}
        }
    }
}

/// A message's tokens end with its end marker, or with the `unterminated`
/// marker when the bytes ran out first; no end marker comes earlier.
pub proof fn lemma_entry_tokens_end(e: SpecMsbEntry)
    ensures
        ({
            let ts = spec_entry_tokens(e);
            &&& ts.len() >= 1
            &&& ts.last().kind == "end"@ || ts.last().text == "unterminated()"@
            &&& forall|i: int| 0 <= i < ts.len() - 1 ==> (#[trigger] ts[i]).kind != "end"@
        }),
{
    lemma_tokens_from_end(e.data, 0, e.abs_start as int);
    let r = entry_tokens_from(e.data, 0, e.abs_start as int);
    if !r.1 {
        let ts = spec_entry_tokens(e);
        assert forall|i: int| 0 <= i < ts.len() - 1 implies (#[trigger] ts[i]).kind != "end"@ by {
            assert(ts[i] == r.0[i]);
        }
    }
}

/// Each token of a message takes at least one byte of it.
pub proof fn lemma_entry_tokens_len(data: Seq<u8>, position: int, base: int)
    requires
        0 <= position,
    ensures
        entry_tokens_from(data, position, base).0.len() <= imax(data.len() - position, 0),
    decreases data.len() - position,
{
    if position < data.len() {
        let t = spec_decode_msb_token(data, position, base);
        if !is_stop_kind(t.kind) {
            let next = imax(t.end - base, position + 1);
            lemma_entry_tokens_len(data, next, base);
        }
    }
}

proof fn lemma_token_offset(data: Seq<u8>, position: int, base: int)
    requires
        0 <= position < data.len(),
    ensures
        spec_decode_msb_token(data, position, base).offset == base + position,
{
}

proof fn lemma_tokens_from_ordered(data: Seq<u8>, position: int, base: int)
    requires
        0 <= position,
    ensures
        ({
            let ts = entry_tokens_from(data, position, base).0;
            &&& (position < data.len() ==> ts.len() > 0 && ts[0].offset == base + position)
            &&& forall|i: int| 0 <= i < ts.len() ==> base + position <= #[trigger] ts[i].offset < base + data.len()
            &&& forall|j: int| 0 < j < ts.len() ==> #[trigger] ts[j].offset == imax(ts[j - 1].end, ts[j - 1].offset + 1)
        }),
    decreases data.len() - position,
{
    if position < data.len() {
        lemma_token_offset(data, position, base);
        let t = spec_decode_msb_token(data, position, base);
        if !is_stop_kind(t.kind) {
            let next = imax(t.end - base, position + 1);
            lemma_tokens_from_ordered(data, next, base);
            let rest = entry_tokens_from(data, next, base).0;
            let ts = entry_tokens_from(data, position, base).0;
            assert(ts == seq![t] + rest);
            if next >= data.len() {
                assert(rest.len() == 0);
            }
            assert forall|i: int| 0 <= i < ts.len() implies base + position <= #[trigger] ts[i].offset < base + data.len() by {
                if i > 0 {
                    assert(ts[i] == rest[i - 1]);
                }
            }
            assert forall|j: int| 0 < j < ts.len() implies #[trigger] ts[j].offset == imax(ts[j - 1].end, ts[j - 1].offset + 1) by {
                assert(ts[j] == rest[j - 1]);
                if j > 1 {
                    assert(ts[j - 1] == rest[j - 2]);
                } else {
                    assert(ts[0] == t);
                    assert(rest[0].offset == base + next);
                }
            }
        }
    }
}

/// The tokens of a message follow one another: the first starts where the
/// message starts, each next one where the one before ended (or a byte
/// further on, at least), and each starts inside the message.
pub proof fn lemma_entry_tokens_ordered(e: SpecMsbEntry)
    ensures
        ({
            let ts = entry_tokens_from(e.data, 0, e.abs_start as int).0;
            &&& (e.data.len() > 0 ==> ts.len() > 0 && ts[0].offset == e.abs_start)
            &&& forall|i: int| 0 <= i < ts.len() ==> e.abs_start <= #[trigger] ts[i].offset < e.abs_start + e.data.len()
            &&& forall|j: int| 0 < j < ts.len() ==> #[trigger] ts[j].offset == imax(ts[j - 1].end, ts[j - 1].offset + 1)
        }),
{
    lemma_tokens_from_ordered(e.data, 0, e.abs_start as int);
}


/// No two messages start at the same offset.
pub open spec fn distinct_starts(entries: Seq<SpecMsbEntry>) -> bool {
    forall|i: int, j: int|
        0 <= i < j < entries.len() ==> #[trigger] entries[i].abs_start != #[trigger] entries[j].abs_start
}

/// Messages with distinct starts give one listing entry each: the listing
/// is keyed by exactly their starts, holds as many entries as there are
/// messages, and keeps each message at its own start.
#[verifier::spinoff_prover]
pub proof fn lemma_distinct_starts_one_instruction_each(entries: Seq<SpecMsbEntry>)
    requires
        distinct_starts(entries),
    ensures
        msb_instruction_map(entries).dom().finite(),
        msb_instruction_map(entries).dom().len() == entries.len(),
        forall|i: int|
            0 <= i < entries.len() ==> #[trigger] msb_instruction_map(entries).contains_key(entries[i].abs_start)
                && msb_instruction_map(entries)[entries[i].abs_start] == msb_instruction(entries[i]),
        forall|k: usize|
            #[trigger] msb_instruction_map(entries).contains_key(k) ==> exists|i: int|
                0 <= i < entries.len() && #[trigger] entries[i].abs_start == k,
    decreases entries.len(),
{
    if entries.len() > 0 {
        let p = entries.drop_last();
        let last = entries.last();
        assert(distinct_starts(p)) by {
            assert forall|i: int, j: int| 0 <= i < j < p.len() implies #[trigger] p[i].abs_start != #[trigger] p[j].abs_start by {
                assert(p[i] == entries[i]);
                assert(p[j] == entries[j]);
            }
        }
        lemma_distinct_starts_one_instruction_each(p);
        let m = msb_instruction_map(p);
        assert(!m.contains_key(last.abs_start)) by {
            if m.contains_key(last.abs_start) {
                let i = choose|i: int| 0 <= i < p.len() && #[trigger] p[i].abs_start == last.abs_start;
                assert(entries[i].abs_start != entries[entries.len() - 1].abs_start);
            }
        }
        let full = msb_instruction_map(entries);
        assert(full == m.insert(last.abs_start, msb_instruction(last)));
        assert(full.dom() =~= m.dom().insert(last.abs_start));
        assert forall|i: int| 0 <= i < entries.len() implies #[trigger] full.contains_key(entries[i].abs_start)
            && full[entries[i].abs_start] == msb_instruction(entries[i]) by {
            if i < entries.len() - 1 {
                assert(entries[i] == p[i]);
                assert(m.contains_key(p[i].abs_start));
                assert(entries[i].abs_start != entries[entries.len() - 1].abs_start);
            }
        }
        assert forall|k: usize| #[trigger] full.contains_key(k) implies exists|i: int|
            0 <= i < entries.len() && #[trigger] entries[i].abs_start == k by {
            if k == last.abs_start {
                assert(entries[entries.len() - 1].abs_start == k);
            } else {
                assert(m.contains_key(k));
                let i = choose|i: int| 0 <= i < p.len() && #[trigger] p[i].abs_start == k;
                assert(entries[i] == p[i]);
            }
        }
    } else {
        assert(msb_instruction_map(entries).dom() =~= Set::<usize>::empty());
    }
}


/// A one-byte control token at `position` with the given text.
pub open spec fn one_byte_ctrl(data: Seq<u8>, position: int, base: int, text: Seq<char>) -> SpecMsbToken {
    SpecMsbToken { offset: base + position, end: base + position + 1, kind: "ctrl"@, raw: data[position] as u32, text }
}

/// What follows the name of an inline-expression control: the payload's
/// length and its bytes.
pub open spec fn inline_payload_text(data: Seq<u8>, position: int) -> Seq<char> {
    let payload = data.subrange(position + 1, scan_end(data, position + 1));
    spec_fmt_u16(payload.len() as u16) + ", raw="@ + spec_preview_bytes(payload)
}

/// Each control byte decodes to its own name: the one-byte controls to
/// their fixed texts, and the controls with an argument to their name, the
/// argument's name and its value.
#[verifier::rlimit(60)]
pub proof fn lemma_control_names(data: Seq<u8>, position: int, base: int)
    requires
        0 <= position < data.len(),
    ensures
        data[position] == 0x00 ==> spec_decode_msb_token(data, position, base) == one_byte_ctrl(data, position, base, "newline()"@),
        data[position] == 0x01 ==> spec_decode_msb_token(data, position, base) == one_byte_ctrl(data, position, base, "begin_name_run()"@),
        data[position] == 0x02 ==> spec_decode_msb_token(data, position, base) == one_byte_ctrl(data, position, base, "end_name_run()"@),
        data[position] == 0x03 ==> spec_decode_msb_token(data, position, base) == one_byte_ctrl(data, position, base, "slot_runtime_mode_1()"@),
        data[position] == 0x05 ==> spec_decode_msb_token(data, position, base) == one_byte_ctrl(data, position, base, "slot_runtime_mode_0()"@),
        data[position] == 0x08 ==> spec_decode_msb_token(data, position, base) == one_byte_ctrl(data, position, base, "slot_runtime_mode_2()"@),
        data[position] == 0x09 ==> spec_decode_msb_token(data, position, base) == one_byte_ctrl(data, position, base, "name_run_offset_marker()"@),
        data[position] == 0x0A ==> spec_decode_msb_token(data, position, base) == one_byte_ctrl(data, position, base, "begin_side_run()"@),
        data[position] == 0x0B ==> spec_decode_msb_token(data, position, base) == one_byte_ctrl(data, position, base, "end_side_run()"@),
        data[position] == 0x0E ==> spec_decode_msb_token(data, position, base) == one_byte_ctrl(data, position, base, "spacing_segment_break()"@),
        data[position] == 0x0F ==> spec_decode_msb_token(data, position, base) == one_byte_ctrl(data, position, base, "align_center()"@),
        data[position] == 0x10 ==> spec_decode_msb_token(data, position, base) == one_byte_ctrl(data, position, base, "align_left()"@),
        data[position] == 0x18 ==> spec_decode_msb_token(data, position, base) == one_byte_ctrl(data, position, base, "slot_runtime_mode_3()"@),
        data[position] == 0x1E ==> spec_decode_msb_token(data, position, base) == one_byte_ctrl(data, position, base, "side_run_use_base_centers()"@),
        data[position] == 0x31 ==> spec_decode_msb_token(data, position, base) == one_byte_ctrl(data, position, base, "align_right()"@),
        data[position] == 0x07 && position + 2 <= data.len() ==> spec_decode_msb_token(data, position, base).text
            == "ctrl_07(value="@ + spec_fmt_u8(data[position + 1]) + ")"@,
        data[position] == 0x1B && position + 2 <= data.len() ==> spec_decode_msb_token(data, position, base).text
            == "select_style_set(index="@ + spec_fmt_u8(data[position + 1]) + ")"@,
        data[position] == 0x0C && position + 3 <= data.len() ==> spec_decode_msb_token(data, position, base).text
            == "set_glyph_height_scale(scale="@ + spec_fmt_u16(spec_u16_be(data, position + 1)) + ")"@,
        data[position] == 0x11 && position + 3 <= data.len() ==> spec_decode_msb_token(data, position, base).text
            == "advance_y(offset="@ + spec_fmt_u16(spec_u16_be(data, position + 1)) + ")"@,
        data[position] == 0x12 && position + 3 <= data.len() ==> spec_decode_msb_token(data, position, base).text
            == "advance_x(width="@ + spec_fmt_u16(spec_u16_be(data, position + 1)) + ")"@,
        data[position] == 0x13 && position + 3 <= data.len() ==> spec_decode_msb_token(data, position, base).text
            == "emit_var_decimal_charset0(var="@ + spec_fmt_u16(spec_u16_be(data, position + 1)) + ")"@,
        data[position] == 0x14 && position + 3 <= data.len() ==> spec_decode_msb_token(data, position, base).text
            == "emit_var_decimal_charset1(var="@ + spec_fmt_u16(spec_u16_be(data, position + 1)) + ")"@,
        data[position] == 0x16 && position + 3 <= data.len() ==> spec_decode_msb_token(data, position, base).text
            == "ctrl_16(value="@ + spec_fmt_u16(spec_u16_be(data, position + 1)) + ")"@,
        data[position] == 0x19 && position + 3 <= data.len() ==> spec_decode_msb_token(data, position, base).text
            == "slot_runtime_mode_4(value="@ + spec_fmt_u16(spec_u16_be(data, position + 1)) + ")"@,
        data[position] == 0x1A && position + 3 <= data.len() ==> spec_decode_msb_token(data, position, base).text
            == "slot_runtime_mode_5(value="@ + spec_fmt_u16(spec_u16_be(data, position + 1)) + ")"@,
        data[position] == 0x04 && scan_end(data, position + 1) < data.len() ==> spec_decode_msb_token(data, position, base).text
            == "set_text_color_expr(size="@ + inline_payload_text(data, position) + ")"@,
        data[position] == 0x15 && scan_end(data, position + 1) < data.len() ==> spec_decode_msb_token(data, position, base).text
            == "queue_inline_expr(size="@ + inline_payload_text(data, position) + ")"@,
        0x20 <= data[position] <= 0x29 ==> spec_decode_msb_token(data, position, base) == one_byte_ctrl(
            data,
            position,
            base,
            "select_special_slot("@ + dec_text(data[position] - 0x20) + ")"@,
        ),
        0x51 <= data[position] <= 0x57 ==> spec_decode_msb_token(data, position, base) == one_byte_ctrl(
            data,
            position,
            base,
            "emit_special_slot_glyph("@ + dec_text(data[position] - 0x50) + ")"@,
        ),
{
    reveal_strlit("(size=");
    reveal_strlit(")");
    reveal_strlit("(");
    reveal_strlit("=");
    reveal_strlit("advance_x");
    reveal_strlit("advance_x(width=");
    reveal_strlit("advance_y");
    reveal_strlit("advance_y(offset=");
    reveal_strlit("align_center()");
    reveal_strlit("align_left()");
    reveal_strlit("align_right()");
    reveal_strlit("begin_name_run()");
    reveal_strlit("begin_side_run()");
    reveal_strlit("ctrl");
    reveal_strlit("ctrl_07");
    reveal_strlit("ctrl_07(value=");
    reveal_strlit("ctrl_16");
    reveal_strlit("ctrl_16(value=");
    reveal_strlit("emit_var_decimal_charset0");
    reveal_strlit("emit_var_decimal_charset0(var=");
    reveal_strlit("emit_var_decimal_charset1");
    reveal_strlit("emit_var_decimal_charset1(var=");
    reveal_strlit("end_name_run()");
    reveal_strlit("end_side_run()");
    reveal_strlit("index");
    reveal_strlit("name_run_offset_marker()");
    reveal_strlit("newline()");
    reveal_strlit("offset");
    reveal_strlit("queue_inline_expr");
    reveal_strlit("queue_inline_expr(size=");
    reveal_strlit("scale");
    reveal_strlit("select_style_set");
    reveal_strlit("select_style_set(index=");
    reveal_strlit("set_glyph_height_scale");
    reveal_strlit("set_glyph_height_scale(scale=");
    reveal_strlit("set_text_color_expr");
    reveal_strlit("set_text_color_expr(size=");
    reveal_strlit("side_run_use_base_centers()");
    reveal_strlit("slot_runtime_mode_0()");
    reveal_strlit("slot_runtime_mode_1()");
    reveal_strlit("slot_runtime_mode_2()");
    reveal_strlit("slot_runtime_mode_3()");
    reveal_strlit("slot_runtime_mode_4");
    reveal_strlit("slot_runtime_mode_4(value=");
    reveal_strlit("slot_runtime_mode_5");
    reveal_strlit("slot_runtime_mode_5(value=");
    reveal_strlit("spacing_segment_break()");
    reveal_strlit("value");
    reveal_strlit("var");
    reveal_strlit("width");
    let b = data[position];
    if simple_control_text(b) is Some {
    } else if inline_expr_control(b) is Some {
        let name = inline_expr_control(b)->0;
        let payload = data.subrange(position + 1, scan_end(data, position + 1));
        assert(name + "(size="@ + spec_fmt_u16(payload.len() as u16) + ", raw="@ + spec_preview_bytes(payload) + ")"@
            =~= name + "(size="@ + inline_payload_text(data, position) + ")"@);
    } else if u8_arg_control(b) is Some {
        let (name, arg) = u8_arg_control(b)->0;
        assert(name + seq!['('] + arg + seq!['='] + spec_fmt_u8(data[position + 1]) + seq![')']
            =~= name + "("@ + arg + "="@ + spec_fmt_u8(data[position + 1]) + ")"@);
    } else if u16_arg_control(b) is Some {
        let (name, arg) = u16_arg_control(b)->0;
        let v = spec_fmt_u16(spec_u16_be(data, position + 1));
        assert(name + seq!['('] + arg + seq!['='] + v + seq![')'] =~= name + "("@ + arg + "="@ + v + ")"@);
    } else {
        assert(seq![')'] =~= ")"@);
    }
}

} // verus!
