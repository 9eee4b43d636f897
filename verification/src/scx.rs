//! SC3 (`.scx`) scripts: the header and label tables, the decoding of one
//! instruction, and the reachability sweep that builds the listing.
use vstd::prelude::*;
use vstd::std_specs::btree::spec_btree_map_iter;
use vstd::std_specs::iter::IteratorSpec;
use std::collections::{BTreeMap, HashSet};

use crate::expr::{read_expr_value, seq_starts_with, spec_has_unknown_tokens, spec_has_value_source, spec_read_expr_value};
use crate::format::{fmt_l0, fmt_u16, fmt_u8, read_u16_le, read_u32_le, spec_fmt_l0, spec_fmt_l2, spec_fmt_u16, spec_fmt_u8, spec_u16_le, spec_u32_le};
use crate::il::{spec_operand_value, text_op, lemma_operands_view_push, IlDocument, IlDocumentKind, pos_op, IlInstruction, IlOperand, IlValue, SpecIlValue, SpecInstruction, SpecOperand, operands_view, strings_view};
use crate::opcode::{decode_scx_known, spec_decode_scx_known};
use crate::text::{all_hex, hex_digit_value, hex_text, hex_value, lemma_hex_text_value, parse_hex_range, push_char, push_hex, spec_parse_hex, str_eq, str_starts_with, to_string};

verus! {

broadcast use vstd::std_specs::hash::group_hash_axioms, vstd::laws_cmp::group_laws_cmp,
    vstd::std_specs::btree::group_btree_axioms, vstd::seq_lib::lemma_seq_contains_after_push;

// ── constants ──

pub const SCX_TABLE0_START: usize = 0x0C;

pub const SCX_TABLE0_COUNT: usize = 0x1000;

/// The end of the first label table, where code begins.
pub const SCX_TABLE0_END: usize = 0x400C;

// ── ScxFile ──

pub struct ScxFile {
    pub path: String,
    pub data: Vec<u8>,
    pub off1: u32,
    pub off2: u32,
    pub table0: Vec<u32>,
    pub table1: Vec<u32>,
    pub table2: Vec<u32>,
}

impl ScxFile {
    pub fn code_start(&self) -> (r: usize)
        ensures
            r == SCX_TABLE0_END,
    {
        SCX_TABLE0_END
    }

    pub fn code_end(&self) -> (r: usize)
        ensures
            r == self.off1,
    {
        self.off1 as usize
    }
}

// ── parsing ──

/// Why the bytes are not a well-formed SC3 file.
#[derive(Debug, Clone, Copy, PartialEq, Eq)]
pub enum ScxError {
    /// Shorter than the 12-byte header, or without the `SC3\0` magic.
    NotSc3,
    /// The table offsets are out of order or past the end of the file.
    InvalidOffsets { off1: u32, off2: u32, size: u32 },
}

/// `x` rounded down to a multiple of four.
pub open spec fn align4(x: int) -> int {
    x - x % 4
}

/// The little-endian words from `start` up to `end` rounded down to a
/// multiple of four.
pub open spec fn spec_read_u32_array(data: Seq<u8>, start: int, end: int) -> Seq<u32> {
    let count = if align4(end) > start {
        (align4(end) - start) / 4
    } else {
        0
    };
    Seq::new(count as nat, |i: int| spec_u32_le(data, start + 4 * i))
}

fn read_u32_array(data: &[u8], start: usize, end: usize) -> (r: Vec<u32>)
    requires
        end <= data@.len(),
    ensures
        r@ == spec_read_u32_array(data@, start as int, end as int),
{
    let end_aligned = end - end % 4;
    let count = if end_aligned > start {
        (end_aligned - start) / 4
    } else {
        0
    };
    let mut out: Vec<u32> = Vec::new();
    let mut i: usize = 0;
    while i < count
        invariant
            i <= count,
            count * 4 + start <= end_aligned || count == 0,
            end_aligned <= data@.len(),
            end_aligned == align4(end as int),
            count == (if align4(end as int) > start {
                (align4(end as int) - start) / 4
            } else {
                0
            }),
            out@.len() == i,
            forall|k: int| 0 <= k < i ==> out@[k] == spec_u32_le(data@, start + 4 * k),
        decreases count - i,
    {
        out.push(read_u32_le(data, start + i * 4));
        i = i + 1;
    }
    assert(out@ =~= spec_read_u32_array(data@, start as int, end as int));
    out
}

pub open spec fn scx_off1(data: Seq<u8>) -> u32 {
    spec_u32_le(data, 4)
}

pub open spec fn scx_off2(data: Seq<u8>) -> u32 {
    spec_u32_le(data, 8)
}

/// The problem with the header, if any, in the order it is checked; the
/// size compared with is the length kept to its low 32 bits.
pub open spec fn scx_header_error(data: Seq<u8>) -> Option<ScxError> {
    if data.len() < 12 || data[0] != 0x53 || data[1] != 0x43 || data[2] != 0x33 || data[3] != 0 {
        Some(ScxError::NotSc3)
    } else {
        let off1 = scx_off1(data);
        let off2 = scx_off2(data);
        let size = data.len() as u32;
        if off1 < SCX_TABLE0_END || off1 > size || off2 > size || off2 < off1 {
            Some(ScxError::InvalidOffsets { off1, off2, size })
        } else {
            None
        }
    }
}

/// What a parsed file holds: the bytes, both offsets, and the three tables
/// (the first from `0x0C` to code, the second from `off1` to `off2`, the
/// third from `off2` to the end).
pub open spec fn scx_parsed(f: &ScxFile, path: Seq<char>, data: Seq<u8>) -> bool {
    &&& f.path@ == path
    &&& f.data@ == data
    &&& f.off1 == scx_off1(data)
    &&& f.off2 == scx_off2(data)
    &&& f.table0@ == spec_read_u32_array(data, SCX_TABLE0_START as int, SCX_TABLE0_END as int)
    &&& f.table1@ == spec_read_u32_array(data, f.off1 as int, f.off2 as int)
    &&& f.table2@ == spec_read_u32_array(data, f.off2 as int, data.len() as int)
}

/// A file whose code area lies between the first table and the end of
/// the bytes.
pub open spec fn scx_wf(f: &ScxFile) -> bool {
    SCX_TABLE0_END <= f.off1 <= f.data@.len()
}

/// Parses the bytes of an SC3 file read from `path`.
pub fn parse_scx_data(path: String, data: Vec<u8>) -> (r: Result<ScxFile, ScxError>)
    ensures
        match r {
            Ok(f) => scx_header_error(data@) is None && scx_parsed(&f, path@, data@) && scx_wf(&f),
            Err(e) => scx_header_error(data@) == Some(e),
        },
{
    if data.len() < 12 || data[0] != 0x53 || data[1] != 0x43 || data[2] != 0x33 || data[3] != 0 {
        return Err(ScxError::NotSc3);
    }
    let off1 = read_u32_le(data.as_slice(), 4);
    let off2 = read_u32_le(data.as_slice(), 8);
    let len = data.len();
    let size = len as u32;
    if (off1 as usize) < SCX_TABLE0_END || off1 > size || off2 > size || off2 < off1 {
        return Err(ScxError::InvalidOffsets { off1, off2, size });
    }
    let table0 = read_u32_array(data.as_slice(), SCX_TABLE0_START, SCX_TABLE0_END);
    let table1 = read_u32_array(data.as_slice(), off1 as usize, off2 as usize);
    let table2 = read_u32_array(data.as_slice(), off2 as usize, len);
    assert(table0@.len() == SCX_TABLE0_COUNT);
    Ok(ScxFile { path, data, off1, off2, table0, table1, table2 })
}

// ── instruction checks ──

/// An expression operand that reads no value or holds an unknown token.
pub open spec fn invalid_operand(op: SpecOperand) -> bool {
    match op.value {
        SpecIlValue::Expr(e) => spec_has_unknown_tokens(e) || !spec_has_value_source(e),
        SpecIlValue::Text(_) => false,
    }
}

pub open spec fn spec_has_invalid_expressions(inst: SpecInstruction) -> bool {
    exists|k: int| 0 <= k < inst.operands.len() && invalid_operand(#[trigger] inst.operands[k])
}

fn has_invalid_expressions(inst: &IlInstruction) -> (r: bool)
    ensures
        r == spec_has_invalid_expressions(inst@),
{
    let mut i: usize = 0;
    while i < inst.operands.len()
        invariant
            i <= inst.operands@.len(),
            forall|k: int| 0 <= k < i ==> !invalid_operand(#[trigger] inst@.operands[k]),
        decreases inst.operands@.len() - i,
    {
        let bad = match &inst.operands[i].value {
            IlValue::Expr(e) => e.has_unknown_tokens() || !e.has_value_source(),
            IlValue::Text(_) => false,
        };
        assert(inst@.operands[i as int] == inst.operands@[i as int]@);
        if bad {
            return true;
        }
        i = i + 1;
    }
    false
}

// ── one instruction ──

/// Two bytes that decode as nothing, shown as a little-endian word.
pub open spec fn data_u16_inst(offset: int, v: u16) -> SpecInstruction {
    SpecInstruction {
        offset: offset as usize,
        end: (offset + 2) as usize,
        mnemonic: "data_u16"@,
        operands: seq![text_op(""@, spec_fmt_u16(v))],
        comments: Seq::empty(),
    }
}

/// The last byte before the limit, which cannot hold an opcode.
pub open spec fn trunc_op_inst(offset: int, b: u8) -> SpecInstruction {
    SpecInstruction {
        offset: offset as usize,
        end: (offset + 1) as usize,
        mnemonic: "trunc_op"@,
        operands: seq![text_op(""@, spec_fmt_u8(b))],
        comments: Seq::empty(),
    }
}

/// The opcode number of the two bytes at `offset`: the first without its
/// top bit, then the second.
pub open spec fn opcode_number(data: Seq<u8>, offset: int) -> u16 {
    ((data[offset] % 128) as int * 256 + data[offset + 1] as int) as u16
}

/// The instruction at `offset` in code that ends at `limit`: a bare
/// expression after an `FE` byte, a decoded opcode of the four known
/// tables, or two bytes of data where neither decodes cleanly.
pub open spec fn spec_execute_scx_loop(data: Seq<u8>, table0: Seq<u32>, offset: int, limit: int) -> SpecInstruction {
    if offset >= limit {
        SpecInstruction {
            offset: offset as usize,
            end: offset as usize,
            mnemonic: "eof"@,
            operands: Seq::empty(),
            comments: Seq::empty(),
        }
    } else if data[offset] == 0xFE {
        let (e, end) = spec_read_expr_value(data, offset + 1, limit);
        if spec_has_unknown_tokens(e) || !spec_has_value_source(e) {
            if offset + 1 < limit {
                data_u16_inst(offset, spec_u16_le(data, offset))
            } else {
                trunc_op_inst(offset, data[offset])
            }
        } else {
            SpecInstruction {
                offset: offset as usize,
                end: end as usize,
                mnemonic: "expr"@,
                operands: seq![pos_op(e)],
                comments: seq!["raw=00FE"@],
            }
        }
    } else if offset + 1 >= limit {
        trunc_op_inst(offset, data[offset])
    } else {
        let major = data[offset] % 128;
        let id = opcode_number(data, offset);
        if major != 0x00 && major != 0x01 && major != 0x10 && major != 0x20 {
            data_u16_inst(offset, id)
        } else {
            let known = spec_decode_scx_known(data, table0, offset, limit);
            if known.mnemonic == "unknown_operands"@ || spec_has_invalid_expressions(known) {
                data_u16_inst(offset, id)
            } else {
                SpecInstruction { comments: known.comments.push("raw="@ + hex_text(id as nat, 4, true)), ..known }
            }
        }
    }
}

fn named_text(text: String) -> (r: IlOperand)
    ensures
        r@ == text_op(""@, text@),
{
    IlOperand::named("", text)
}

/// Decodes the instruction at `offset` in code that ends at `code_limit`.
pub fn execute_scx_loop(scx: &ScxFile, offset: usize, code_limit: usize) -> (r: IlInstruction)
    requires
        scx.data@.len() <= isize::MAX,
        offset < code_limit ==> offset < scx.data@.len(),
        offset + 1 < code_limit ==> offset + 1 < scx.data@.len(),
    ensures
        r@ == spec_execute_scx_loop(scx.data@, scx.table0@, offset as int, code_limit as int),
        r.offset == offset,
        offset < code_limit ==> r.end > offset,
        offset < code_limit ==> r.end <= code_limit,
{
    let data = scx.data.as_slice();
    if offset >= code_limit {
        return IlInstruction::new(offset, offset, "eof");
    }
    if data[offset] == 0xFE {
        let (expr, end) = read_expr_value(data, offset + 1, code_limit);
        if expr.has_unknown_tokens() || !expr.has_value_source() {
            if offset + 1 < code_limit {
                let mut inst = IlInstruction::new(offset, offset + 2, "data_u16");
                inst.operands.push(named_text(fmt_u16(read_u16_le(data, offset))));
                assert(inst@ == data_u16_inst(offset as int, spec_u16_le(data@, offset as int)));
                return inst;
            }
            let mut inst = IlInstruction::new(offset, offset + 1, "trunc_op");
            inst.operands.push(named_text(fmt_u8(data[offset])));
            assert(inst@ == trunc_op_inst(offset as int, data@[offset as int]));
            return inst;
        }
        let mut inst = IlInstruction::new(offset, end, "expr");
        inst.operands.push(IlOperand::pos_expr(expr));
        inst.comments.push(to_string("raw=00FE"));
        assert(inst@.comments =~= seq!["raw=00FE"@]);
        return inst;
    }
    if offset + 1 >= code_limit {
        let mut inst = IlInstruction::new(offset, offset + 1, "trunc_op");
        inst.operands.push(named_text(fmt_u8(data[offset])));
        assert(inst@ == trunc_op_inst(offset as int, data@[offset as int]));
        return inst;
    }
    let major = data[offset] % 128;
    let index = data[offset + 1];
    let opcode_id: u16 = (major as u16) * 256 + index as u16;
    if major != 0x00 && major != 0x01 && major != 0x10 && major != 0x20 {
        let mut inst = IlInstruction::new(offset, offset + 2, "data_u16");
        inst.operands.push(named_text(fmt_u16(opcode_id)));
        assert(inst@ == data_u16_inst(offset as int, opcode_number(data@, offset as int)));
        return inst;
    }
    let known = decode_scx_known(scx, offset, code_limit);
    if str_eq(known.mnemonic.as_str(), "unknown_operands") || has_invalid_expressions(&known) {
        let mut inst = IlInstruction::new(offset, offset + 2, "data_u16");
        inst.operands.push(named_text(fmt_u16(opcode_id)));
        assert(inst@ == data_u16_inst(offset as int, opcode_number(data@, offset as int)));
        return inst;
    }
    let mut result = known;
    let mut note = to_string("raw=");
    push_hex(&mut note, opcode_id as u64, 4, true);
    let ghost before = result@.comments;
    result.comments.push(note);
    assert(result@.comments =~= before.push("raw="@ + hex_text(opcode_id as nat, 4, true)));
    result
}

// ── labels ──

/// A `0x` or `0X` literal.
pub open spec fn spec_try_parse_u16_literal(v: Seq<char>) -> Option<usize> {
    if v.len() >= 2 && v[0] == '0' && (v[1] == 'x' || v[1] == 'X') {
        spec_parse_hex(v.subrange(2, v.len() as int), usize::MAX as nat)
    } else {
        None
    }
}

/// `table[<literal>]`, giving the literal's value.
pub open spec fn spec_try_parse_table_label(v: Seq<char>, table: Seq<char>) -> Option<usize> {
    let prefix = table.push('[');
    if seq_starts_with(v, prefix) && v.len() > 0 && v.last() == ']' {
        spec_try_parse_u16_literal(v.subrange(prefix.len() as int, v.len() - 1))
    } else {
        None
    }
}

/// Parses a `0x` literal.
fn try_parse_u16_literal(value: &str) -> (r: Option<usize>)
    ensures
        r == spec_try_parse_u16_literal(value@),
{
    assert(value@.subrange(0, value@.len() as int) =~= value@);
    parse_literal_range(value, 0, value.unicode_len())
}

fn parse_literal_range(s: &str, start: usize, end: usize) -> (r: Option<usize>)
    requires
        start <= end <= s@.len(),
    ensures
        r == spec_try_parse_u16_literal(s@.subrange(start as int, end as int)),
{
    let ghost v = s@.subrange(start as int, end as int);
    if end - start >= 2 && s.get_char(start) == '0' && (s.get_char(start + 1) == 'x' || s.get_char(start + 1) == 'X') {
        assert(v.subrange(2, v.len() as int) =~= s@.subrange(start + 2, end as int));
        parse_hex_range(s, start + 2, end, usize::MAX)
    } else {
        None
    }
}

/// Parses `table_name[0x..]`, giving the literal's value.
fn try_parse_table_label(value: &str, table_name: &str) -> (r: Option<usize>)
    ensures
        r == spec_try_parse_table_label(value@, table_name@),
{
    let mut prefix = to_string(table_name);
    push_char(&mut prefix, '[');
    let n = value.unicode_len();
    if !str_starts_with(value, prefix.as_str()) || n == 0 || value.get_char(n - 1) != ']' {
        return None;
    }
    let plen = prefix.as_str().unicode_len();
    if plen > n - 1 {
        assert(value@.subrange(0, plen as int)[plen - 1] == '[');
        return None;
    }
    parse_literal_range(value, plen, n - 1)
}

// ── control flow ──

/// An offset in the code area, between the first label table and `off1`.
pub open spec fn in_code(scx: &ScxFile, o: int) -> bool {
    SCX_TABLE0_END <= o < scx.off1
}

/// The code offset label `idx` of `table` names, when the label exists and
/// points into the code area.
pub open spec fn label_target(scx: &ScxFile, table: Seq<u32>, idx: int) -> Option<usize> {
    if 0 <= idx < table.len() && in_code(scx, table[idx] as int) {
        Some(table[idx] as usize)
    } else {
        None
    }
}

/// The label index a text operand names in the form `table[0x..]`.
pub open spec fn operand_label(inst: SpecInstruction, operand: Seq<char>, table: Seq<char>) -> Option<usize> {
    match spec_operand_value(inst.operands, operand) {
        Some(v) => spec_try_parse_table_label(v, table),
        None => None,
    }
}

pub open spec fn operand_target(
    scx: &ScxFile,
    inst: SpecInstruction,
    operand: Seq<char>,
    table_name: Seq<char>,
    table: Seq<u32>,
) -> Option<usize> {
    match operand_label(inst, operand, table_name) {
        Some(idx) => label_target(scx, table, idx as int),
        None => None,
    }
}

/// The mnemonics whose `target` operand names a label to continue at.
pub open spec fn is_jump(m: Seq<char>) -> bool {
    m == "jmp_table0"@ || m == "jmp_if_expr"@ || m == "call_table0"@ || m == "call_script"@ || m == "loop_jmp"@
        || m == "cmp_flag_jmp"@ || m == "call_context"@ || m == "cond_jmp_adv"@ || m == "op_0053"@
        || m == "jmp_if_tmp_eq"@
}

pub open spec fn is_call(m: Seq<char>) -> bool {
    m == "call_table0"@ || m == "call_script"@
}

/// Where decoding continues from an instruction, besides the next one: a
/// jump target, the case a switch selects, the return label of a call.
pub open spec fn collected_targets(scx: &ScxFile, inst: SpecInstruction) -> Set<usize> {
    Set::new(
        |t: usize|
            (is_jump(inst.mnemonic) && operand_target(scx, inst, "target"@, "table0"@, scx.table0@) == Some(t)) || (
            inst.mnemonic == "switch_jmp"@ && operand_target(scx, inst, "case_target"@, "table0"@, scx.table0@) == Some(
                t,
            )) || (is_call(inst.mnemonic) && operand_target(scx, inst, "ret"@, "table2"@, scx.table2@) == Some(t)),
    )
}

/// The label a jump continues at, read from its `target` operand.
pub open spec fn jump_label_target(scx: &ScxFile, inst: SpecInstruction) -> Option<usize> {
    if is_jump(inst.mnemonic) {
        operand_target(scx, inst, "target"@, "table0"@, scx.table0@)
    } else {
        None
    }
}

/// The label a switch selects, read from its `case_target` operand.
pub open spec fn switch_label_target(scx: &ScxFile, inst: SpecInstruction) -> Option<usize> {
    if inst.mnemonic == "switch_jmp"@ {
        operand_target(scx, inst, "case_target"@, "table0"@, scx.table0@)
    } else {
        None
    }
}

/// The label a call returns to, read from its `ret` operand.
pub open spec fn return_label_target(scx: &ScxFile, inst: SpecInstruction) -> Option<usize> {
    if is_call(inst.mnemonic) {
        operand_target(scx, inst, "ret"@, "table2"@, scx.table2@)
    } else {
        None
    }
}

/// The work list and the known set after offering `t`: a target not known
/// yet is appended to the list; every target becomes known.
pub open spec fn enqueue(q: (Seq<usize>, Set<usize>), t: Option<usize>) -> (Seq<usize>, Set<usize>) {
    match t {
        Some(o) => (
            if q.1.contains(o) {
                q.0
            } else {
                q.0.push(o)
            },
            q.1.insert(o),
        ),
        None => q,
    }
}

/// The label a switch case jumps to.
pub open spec fn case_targets(scx: &ScxFile, inst: SpecInstruction) -> Set<usize> {
    Set::new(
        |t: usize|
            inst.mnemonic == "switch_case"@ && operand_target(scx, inst, "target"@, "table0"@, scx.table0@) == Some(t),
    )
}

/// Whether execution can go on to the next instruction.
pub open spec fn spec_has_fallthrough(inst: SpecInstruction) -> bool {
    let m = inst.mnemonic;
    !(m == "ret"@ || m == "break_vm"@ || m == "set_ctx_flag_and_break"@ || m == "set_stop_flag"@ || m
        == "jmp_table0"@ || m == "call_table0"@ || m == "call_script"@)
}

fn has_fallthrough(inst: &IlInstruction) -> (r: bool)
    ensures
        r == spec_has_fallthrough(inst@),
{
    let m = inst.mnemonic.as_str();
    !(str_eq(m, "ret") || str_eq(m, "break_vm") || str_eq(m, "set_ctx_flag_and_break") || str_eq(m, "set_stop_flag")
        || str_eq(m, "jmp_table0") || str_eq(m, "call_table0") || str_eq(m, "call_script"))
}

fn in_code_exec(scx: &ScxFile, o: usize) -> (r: bool)
    ensures
        r == in_code(scx, o as int),
{
    o >= scx.code_start() && o < scx.code_end()
}

/// Adds the target of label `label_index` of the first table to `known`,
/// and to `pending` when it was not known yet.
fn queue_table0_label(scx: &ScxFile, label_index: usize, pending: &mut Vec<usize>, known: &mut HashSet<usize>)
    ensures
        match label_target(scx, scx.table0@, label_index as int) {
            Some(o) => {
                &&& final(known)@ == old(known)@.insert(o)
                &&& final(pending)@ == if old(known)@.contains(o) {
                    old(pending)@
                } else {
                    old(pending)@.push(o)
                }
            },
            None => final(known)@ == old(known)@ && final(pending)@ == old(pending)@,
        },
{
    if label_index >= scx.table0.len() {
        return;
    }
    let offset = scx.table0[label_index] as usize;
    if in_code_exec(scx, offset) && known.insert(offset) {
        pending.push(offset);
    }
}

/// The same for the third table, which holds return labels.
fn queue_table2_label(scx: &ScxFile, label_index: usize, pending: &mut Vec<usize>, known: &mut HashSet<usize>)
    ensures
        match label_target(scx, scx.table2@, label_index as int) {
            Some(o) => {
                &&& final(known)@ == old(known)@.insert(o)
                &&& final(pending)@ == if old(known)@.contains(o) {
                    old(pending)@
                } else {
                    old(pending)@.push(o)
                }
            },
            None => final(known)@ == old(known)@ && final(pending)@ == old(pending)@,
        },
{
    if label_index >= scx.table2.len() {
        return;
    }
    let offset = scx.table2[label_index] as usize;
    if in_code_exec(scx, offset) && known.insert(offset) {
        pending.push(offset);
    }
}

/// `known` grew by the set `added`, and exactly the new members were
/// appended to `pending`.
pub open spec fn queued(
    old_pending: Seq<usize>,
    old_known: Set<usize>,
    new_pending: Seq<usize>,
    new_known: Set<usize>,
    added: Set<usize>,
) -> bool {
    &&& new_known == old_known.union(added)
    &&& forall|x: usize| new_pending.contains(x) <==> (old_pending.contains(x) || (new_known.contains(x) && !old_known.contains(x)))
    &&& new_known == old_known ==> new_pending == old_pending
}

proof fn lemma_queued_step(
    p0: Seq<usize>,
    k0: Set<usize>,
    p1: Seq<usize>,
    k1: Set<usize>,
    p2: Seq<usize>,
    k2: Set<usize>,
    a: Set<usize>,
    t: Option<usize>,
)
    requires
        queued(p0, k0, p1, k1, a),
        match t {
            Some(o) => k2 == k1.insert(o) && p2 == if k1.contains(o) {
                p1
            } else {
                p1.push(o)
            },
            None => k2 == k1 && p2 == p1,
        },
    ensures
        queued(
            p0,
            k0,
            p2,
            k2,
            match t {
                Some(o) => a.insert(o),
                None => a,
            },
        ),
{
    match t {
        Some(o) => {
            assert(k2 =~= k0.union(a.insert(o)));
            if k1.contains(o) {
                assert(k2 =~= k1);
            } else {
                assert forall|x: usize| p2.contains(x) <==> (p0.contains(x) || (k2.contains(x) && !k0.contains(x))) by {
                    if x == o {
                        assert(p2[p2.len() - 1] == o);
                    }
                    if p1.contains(x) {
                        let i = choose|i: int| 0 <= i < p1.len() && p1[i] == x;
                        assert(p2[i] == x);
                    }
                    if p2.contains(x) && x != o {
                        let i = choose|i: int| 0 <= i < p2.len() && p2[i] == x;
                        assert(p1[i] == x);
                    }
                }
                assert(k2.contains(o) && !k0.contains(o));
                assert(k2 != k0);
            }
        },
        None => {},
    }
}

/// Queues the labels an instruction leads to.
#[verifier::rlimit(40)]
#[verifier::spinoff_prover]
fn collect_targets(scx: &ScxFile, inst: &IlInstruction, pending: &mut Vec<usize>, known: &mut HashSet<usize>)
    ensures
        queued(old(pending)@, old(known)@, final(pending)@, final(known)@, collected_targets(scx, inst@)),
        (final(pending)@, final(known)@) == enqueue(
            enqueue(
                enqueue((old(pending)@, old(known)@), jump_label_target(scx, inst@)),
                switch_label_target(scx, inst@),
            ),
            return_label_target(scx, inst@),
        ),
{
    let ghost p0 = pending@;
    let ghost k0 = known@;
    let ghost i = inst@;
    let ghost t1 = jump_label_target(scx, i);
    let ghost t2 = switch_label_target(scx, i);
    let ghost t3 = return_label_target(scx, i);
    assert(queued(p0, k0, p0, k0, Set::empty())) by {
        assert(k0 =~= k0.union(Set::empty()));
    }
    let op = inst.mnemonic.as_str();
    if str_eq(op, "jmp_table0") || str_eq(op, "jmp_if_expr") || str_eq(op, "call_table0") || str_eq(op, "call_script")
        || str_eq(op, "loop_jmp") || str_eq(op, "cmp_flag_jmp") || str_eq(op, "call_context") || str_eq(op, "cond_jmp_adv")
        || str_eq(op, "op_0053") || str_eq(op, "jmp_if_tmp_eq") {
        if let Some(target) = inst.get_operand_value("target") {
            if let Some(idx) = try_parse_table_label(target, "table0") {
                let ghost p1 = pending@;
                let ghost k1 = known@;
                queue_table0_label(scx, idx, pending, known);
                proof {
                    lemma_queued_step(p0, k0, p1, k1, pending@, known@, Set::empty(), t1);
                }
            }
        }
    }
    let ghost a1 = match t1 {
        Some(o) => Set::<usize>::empty().insert(o),
        None => Set::<usize>::empty(),
    };
    assert(queued(p0, k0, pending@, known@, a1));
    let ghost q1 = enqueue((p0, k0), t1);
    assert((pending@, known@) == q1);
    if str_eq(op, "switch_jmp") {
        if let Some(case_target) = inst.get_operand_value("case_target") {
            if let Some(idx) = try_parse_table_label(case_target, "table0") {
                let ghost p1 = pending@;
                let ghost k1 = known@;
                queue_table0_label(scx, idx, pending, known);
                proof {
                    lemma_queued_step(p0, k0, p1, k1, pending@, known@, a1, t2);
                }
            }
        }
    }
    let ghost a2 = match t2 {
        Some(o) => a1.insert(o),
        None => a1,
    };
    assert(queued(p0, k0, pending@, known@, a2));
    let ghost q2 = enqueue(q1, t2);
    assert((pending@, known@) == q2);
    if str_eq(op, "call_table0") || str_eq(op, "call_script") {
        if let Some(ret) = inst.get_operand_value("ret") {
            if let Some(idx) = try_parse_table_label(ret, "table2") {
                let ghost p1 = pending@;
                let ghost k1 = known@;
                queue_table2_label(scx, idx, pending, known);
                proof {
                    lemma_queued_step(p0, k0, p1, k1, pending@, known@, a2, t3);
                }
            }
        }
    }
    let ghost a3 = match t3 {
        Some(o) => a2.insert(o),
        None => a2,
    };
    assert(a3 =~= collected_targets(scx, i));
    assert((pending@, known@) == enqueue(q2, t3));
}

// ── entries ──

pub open spec fn add_entry(s: Seq<usize>, t: Option<usize>) -> Seq<usize> {
    match t {
        Some(o) => if s.contains(o) {
            s
        } else {
            s.push(o)
        },
        None => s,
    }
}

/// Where execution may start: the first two labels of the first table and
/// the first of the third, those that point into code, without repeats.
pub open spec fn spec_entry_candidates(scx: &ScxFile) -> Seq<usize> {
    add_entry(
        add_entry(
            add_entry(Seq::empty(), label_target(scx, scx.table0@, 0)),
            label_target(scx, scx.table0@, 1),
        ),
        label_target(scx, scx.table2@, 0),
    )
}

fn vec_contains(v: &Vec<usize>, x: usize) -> (r: bool)
    ensures
        r == v@.contains(x),
{
    let mut i: usize = 0;
    while i < v.len()
        invariant
            i <= v@.len(),
            forall|j: int| 0 <= j < i ==> v@[j] != x,
        decreases v@.len() - i,
    {
        if v[i] == x {
            return true;
        }
        i = i + 1;
    }
    false
}

fn push_entry(entries: &mut Vec<usize>, scx: &ScxFile, table: &Vec<u32>, idx: usize)
    requires
        table == &scx.table0 || table == &scx.table2,
    ensures
        final(entries)@ == add_entry(old(entries)@, label_target(scx, table@, idx as int)),
{
    if idx < table.len() {
        let offset = table[idx] as usize;
        if in_code_exec(scx, offset) && !vec_contains(entries, offset) {
            entries.push(offset);
        }
    }
}

fn entry_candidates(scx: &ScxFile) -> (r: Vec<usize>)
    ensures
        r@ == spec_entry_candidates(scx),
{
    let mut entries: Vec<usize> = Vec::new();
    push_entry(&mut entries, scx, &scx.table0, 0);
    push_entry(&mut entries, scx, &scx.table0, 1);
    push_entry(&mut entries, scx, &scx.table2, 0);
    entries
}

// ── the sweep ──

/// The form a data word takes when it is recognised as a switch case: the
/// word, read as a label of the first table, becomes the case's target.
pub open spec fn switch_case_of(inst: SpecInstruction) -> Option<SpecInstruction> {
    if inst.mnemonic == "data_u16"@ && inst.operands.len() == 1 {
        match inst.operands[0].value {
            SpecIlValue::Text(t) => match spec_try_parse_u16_literal(t) {
                Some(v) => Some(
                    SpecInstruction {
                        mnemonic: "switch_case"@,
                        operands: seq![text_op("target"@, spec_fmt_l0((v % 65536) as u16))],
                        ..inst
                    },
                ),
                None => None,
            },
            SpecIlValue::Expr(_) => None,
        }
    } else {
        None
    }
}

/// What the listing may hold at `k`: the instruction decoded there, or its
/// switch-case form.
pub open spec fn decoded_at(scx: &ScxFile, k: usize, inst: SpecInstruction) -> bool {
    let d = spec_execute_scx_loop(scx.data@, scx.table0@, k as int, scx.off1 as int);
    inst == d || switch_case_of(d) == Some(inst)
}

/// The next instruction, where execution goes on to it inside the code,
/// is known or listed.
pub open spec fn fallthrough_covered(
    scx: &ScxFile,
    k: usize,
    inst: SpecInstruction,
    known: Set<usize>,
    d: Map<usize, IlInstruction>,
) -> bool {
    spec_has_fallthrough(inst) && k < inst.end && inst.end < scx.off1 ==> known.contains(inst.end) || d.contains_key(
        inst.end,
    )
}

/// An entry of the listing: in code, decoded at its key, its targets known.
pub open spec fn entry_ok(scx: &ScxFile, k: usize, inst: SpecInstruction, known: Set<usize>) -> bool {
    &&& in_code(scx, k as int)
    &&& decoded_at(scx, k, inst)
    &&& collected_targets(scx, inst).subset_of(known)
}

/// What holds between the work list, the known starts and the listing
/// while the sweep runs.
pub open spec fn sweep_inv(scx: &ScxFile, pending: Seq<usize>, known: Set<usize>, d: Map<usize, IlInstruction>) -> bool {
    &&& forall|x: usize| #[trigger] known.contains(x) ==> in_code(scx, x as int)
    &&& forall|i: int| 0 <= i < pending.len() ==> known.contains(#[trigger] pending[i])
    &&& forall|x: usize| #[trigger] known.contains(x) ==> pending.contains(x) || d.contains_key(x)
    &&& forall|k: usize| #[trigger] d.contains_key(k) ==> entry_ok(scx, k, d[k]@, known)
    &&& forall|k: usize| #[trigger] d.contains_key(k) ==> fallthrough_covered(scx, k, d[k]@, known, d)
}

/// A set of offsets in `lo..hi` is finite and has at most `hi - lo`
/// members.
proof fn lemma_subset_range(s: Set<usize>, lo: int, hi: int)
    requires
        0 <= lo,
        forall|x: usize| s.contains(x) ==> lo <= x < hi,
    ensures
        s.finite(),
        s.len() <= if hi > lo {
            hi - lo
        } else {
            0
        },
    decreases hi - lo,
{
    if hi <= lo {
        assert(s =~= Set::empty());
    } else {
        if lo > usize::MAX {
            assert(s =~= Set::empty());
        } else {
            let x = lo as usize;
            let s2 = s.remove(x);
            lemma_subset_range(s2, lo + 1, hi);
            if s.contains(x) {
                assert(s =~= s2.insert(x));
            } else {
                assert(s =~= s2);
            }
        }
    }
}

proof fn lemma_strict_subset_len(a: Set<usize>, b: Set<usize>)
    requires
        b.finite(),
        a.subset_of(b),
        a != b,
    ensures
        a.len() < b.len(),
{
    assert(exists|x: usize| b.contains(x) && !a.contains(x)) by {
        if !(exists|x: usize| b.contains(x) && !a.contains(x)) {
            assert(a =~= b);
        }
    }
    let x = choose|x: usize| b.contains(x) && !a.contains(x);
    vstd::set_lib::lemma_len_subset(a, b.remove(x));
}

/// The smallest element.
fn vec_min(v: &Vec<usize>) -> (r: usize)
    requires
        v@.len() > 0,
    ensures
        v@.contains(r),
        forall|i: int| 0 <= i < v@.len() ==> r <= v@[i],
{
    let mut m = v[0];
    let mut i: usize = 1;
    while i < v.len()
        invariant
            1 <= i <= v@.len(),
            v@.contains(m),
            forall|j: int| 0 <= j < i ==> m <= v@[j],
        decreases v@.len() - i,
    {
        if v[i] < m {
            m = v[i];
        }
        i = i + 1;
    }
    m
}

/// Drops every copy of `x`, keeping the order of the rest.
fn remove_all(v: &mut Vec<usize>, x: usize)
    ensures
        forall|y: usize| final(v)@.contains(y) <==> (old(v)@.contains(y) && y != x),
        old(v)@.contains(x) ==> final(v)@.len() < old(v)@.len(),
        final(v)@.len() <= old(v)@.len(),
{
    let mut out: Vec<usize> = Vec::new();
    let mut i: usize = 0;
    let mut seen = false;
    while i < v.len()
        invariant
            i <= v@.len(),
            forall|y: usize| out@.contains(y) <==> (v@.subrange(0, i as int).contains(y) && y != x),
            out@.len() + (if seen {
                1int
            } else {
                0
            }) <= i,
            seen <==> v@.subrange(0, i as int).contains(x),
        decreases v@.len() - i,
    {
        let y = v[i];
        let ghost pre = v@.subrange(0, i as int);
        assert(v@.subrange(0, i + 1) =~= pre.push(y));
        if y != x {
            out.push(y);
        } else {
            seen = true;
        }
        i = i + 1;
    }
    assert(v@.subrange(0, v@.len() as int) =~= v@);
    *v = out;
}

/// The sweep invariant while walking a straight line from `start`, before
/// decoding at `pc`: `start` may still be missing from the listing, and the
/// instruction at `prev` may fall through to `pc`.
#[verifier::opaque]
pub open spec fn walk_inv(
    scx: &ScxFile,
    start: usize,
    pc: usize,
    prev: Option<usize>,
    pending: Seq<usize>,
    known: Set<usize>,
    d: Map<usize, IlInstruction>,
) -> bool {
    &&& in_code(scx, start as int)
    &&& start <= pc
    &&& pc == start ==> !d.contains_key(start) && prev is None
    &&& pc != start ==> d.contains_key(start)
    &&& prev matches Some(k) ==> d.contains_key(k) && d[k]@.end == pc
    &&& forall|x: usize| #[trigger] known.contains(x) ==> in_code(scx, x as int)
    &&& forall|i: int| 0 <= i < pending.len() ==> known.contains(#[trigger] pending[i])
    &&& forall|x: usize|
        #[trigger] known.contains(x) ==> pending.contains(x) || d.contains_key(x) || (x == start && pc == start)
    &&& forall|k: usize| #[trigger] d.contains_key(k) ==> entry_ok(scx, k, d[k]@, known)
    &&& forall|k: usize|
        #[trigger] d.contains_key(k) ==> fallthrough_covered(scx, k, d[k]@, known, d) || prev == Some(k)
}

/// Starting a walk at a start taken off the work list.
proof fn lemma_walk_begin(
    scx: &ScxFile,
    start: usize,
    p0: Seq<usize>,
    pending: Seq<usize>,
    known: Set<usize>,
    d: Map<usize, IlInstruction>,
)
    requires
        sweep_inv(scx, p0, known, d),
        p0.contains(start),
        forall|y: usize| pending.contains(y) <==> (p0.contains(y) && y != start),
        !d.contains_key(start),
    ensures
        walk_inv(scx, start, start, None, pending, known, d),
{
    reveal(walk_inv);
    assert forall|i: int| 0 <= i < pending.len() implies known.contains(#[trigger] pending[i]) by {
        assert(pending.contains(pending[i]));
        let j = choose|j: int| 0 <= j < p0.len() && p0[j] == pending[i];
    }
    assert forall|x: usize| #[trigger] known.contains(x) implies pending.contains(x) || d.contains_key(x) || (x == start
        && start == start) by {
        if x != start && p0.contains(x) {
            assert(pending.contains(x));
        }
    }
    let j = choose|j: int| 0 <= j < p0.len() && p0[j] == start;
    assert(known.contains(p0[j]));
}

/// Skipping a start taken off the work list that is already listed.
proof fn lemma_skip_start(
    scx: &ScxFile,
    start: usize,
    p0: Seq<usize>,
    pending: Seq<usize>,
    known: Set<usize>,
    d: Map<usize, IlInstruction>,
)
    requires
        sweep_inv(scx, p0, known, d),
        forall|y: usize| pending.contains(y) <==> (p0.contains(y) && y != start),
        d.contains_key(start),
    ensures
        sweep_inv(scx, pending, known, d),
{
    assert forall|i: int| 0 <= i < pending.len() implies known.contains(#[trigger] pending[i]) by {
        assert(pending.contains(pending[i]));
        let j = choose|j: int| 0 <= j < p0.len() && p0[j] == pending[i];
    }
    assert forall|x: usize| #[trigger] known.contains(x) implies pending.contains(x) || d.contains_key(x) by {
        if x != start && p0.contains(x) {
            assert(pending.contains(x));
        }
    }
}

/// Decoding at `pc` and listing the result keeps the walk invariant: with
/// the next position when execution falls through, or the whole sweep
/// invariant when the walk stops there.
proof fn lemma_walk_insert(
    scx: &ScxFile,
    start: usize,
    pc: usize,
    prev: Option<usize>,
    p1: Seq<usize>,
    k1: Set<usize>,
    d1: Map<usize, IlInstruction>,
    pending: Seq<usize>,
    known: Set<usize>,
    d: Map<usize, IlInstruction>,
    inst: IlInstruction,
)
    requires
        walk_inv(scx, start, pc, prev, p1, k1, d1),
        in_code(scx, pc as int),
        !d1.contains_key(pc),
        inst@ == spec_execute_scx_loop(scx.data@, scx.table0@, pc as int, scx.off1 as int),
        queued(p1, k1, pending, known, collected_targets(scx, inst@)),
        d == d1.insert(pc, inst),
    ensures
        !spec_has_fallthrough(inst@) || inst@.end <= pc ==> sweep_inv(scx, pending, known, d),
        spec_has_fallthrough(inst@) && inst@.end > pc ==> walk_inv(scx, start, inst@.end, Some(pc), pending, known, d),
{
    reveal(walk_inv);
    assert forall|k: usize| #[trigger] d.contains_key(k) implies entry_ok(scx, k, d[k]@, known) by {
        if k != pc {
            assert(d1.contains_key(k));
        }
    }
    assert forall|x: usize| #[trigger] known.contains(x) implies pending.contains(x) || d.contains_key(x) by {
        if k1.contains(x) && p1.contains(x) {
            assert(pending.contains(x));
        }
    }
    assert forall|i: int| 0 <= i < pending.len() implies known.contains(#[trigger] pending[i]) by {
        assert(pending.contains(pending[i]));
        if !(known.contains(pending[i]) && !k1.contains(pending[i])) {
            let j = choose|j: int| 0 <= j < p1.len() && p1[j] == pending[i];
            assert(k1.contains(p1[j]));
        }
    }
    assert forall|k: usize| #[trigger] d.contains_key(k) implies fallthrough_covered(scx, k, d[k]@, known, d) || (
    spec_has_fallthrough(inst@) && inst@.end > pc && k == pc) by {
        if k != pc {
            assert(d1.contains_key(k));
            assert(fallthrough_covered(scx, k, d1[k]@, k1, d1) || prev == Some(k));
        }
    }
}

/// A walk that reaches a known start, a listed instruction or the end of
/// the code leaves the sweep invariant in place.
proof fn lemma_walk_end(
    scx: &ScxFile,
    start: usize,
    pc: usize,
    prev: Option<usize>,
    pending: Seq<usize>,
    known: Set<usize>,
    d: Map<usize, IlInstruction>,
)
    requires
        walk_inv(scx, start, pc, prev, pending, known, d),
        pc != start,
        known.contains(pc) || d.contains_key(pc) || pc >= scx.off1,
    ensures
        sweep_inv(scx, pending, known, d),
{
    reveal(walk_inv);
}

/// Every entry of `a` is in `b` unchanged.
pub open spec fn keeps_entries(a: Map<usize, IlInstruction>, b: Map<usize, IlInstruction>) -> bool {
    forall|k: usize| a.contains_key(k) ==> #[trigger] b.contains_key(k) && b[k] == a[k]
}

/// Listing the instruction at a reached offset, with its targets queued,
/// keeps every known start and listed offset reached.
proof fn lemma_reach_insert(
    scx: &ScxFile,
    pc: usize,
    k1: Set<usize>,
    d1: Map<usize, IlInstruction>,
    known: Set<usize>,
    d: Map<usize, IlInstruction>,
)
    requires
        reach_inv(scx, k1, d1),
        flow_reachable(scx, d1, pc),
        !d1.contains_key(pc),
        d.contains_key(pc),
        d == d1.insert(pc, d[pc]),
        known == k1.union(collected_targets(scx, d[pc]@)),
    ensures
        reach_inv(scx, known, d),
        flow_reachable(scx, d, pc),
{
    assert(keeps_entries(d1, d));
    lemma_grows_keeps(scx, d1, d);
    lemma_reach_mono(scx, d1, d, pc);
    assert forall|x: usize| #[trigger] known.contains(x) implies flow_reachable(scx, d, x) by {
        if k1.contains(x) {
            lemma_reach_mono(scx, d1, d, x);
        } else {
            assert(branch_targets(scx, d[pc]@).contains(x));
            lemma_reach_step(scx, d, pc, x);
        }
    }
    assert forall|k: usize| #[trigger] d.contains_key(k) implies flow_reachable(scx, d, k) by {
        if k != pc {
            assert(d1.contains_key(k));
            lemma_reach_mono(scx, d1, d, k);
        }
    }
}

/// The known starts that lie in the code area.
pub open spec fn known_in_code(scx: &ScxFile, known: Set<usize>) -> Set<usize> {
    known.filter(|x: usize| in_code(scx, x as int))
}

/// The sweep's invariants: the work list and the listing agree with the
/// known starts, everything listed or known is reached from an entry, and
/// every switch case listed is justified.
pub open spec fn sweep_ready(
    scx: &ScxFile,
    pending: Seq<usize>,
    known: Set<usize>,
    d: Map<usize, IlInstruction>,
) -> bool {
    &&& sweep_inv(scx, pending, known, d)
    &&& reach_inv(scx, known, d)
    &&& cases_justified(scx, d)
}

/// Decodes from each pending start until control leaves the straight line
/// or reaches a known start or a listed instruction, queueing the labels
/// found on the way.
#[verifier::rlimit(40)]
#[verifier::spinoff_prover]
fn decode_pending(
    scx: &ScxFile,
    pending: &mut Vec<usize>,
    known: &mut HashSet<usize>,
    decoded: &mut BTreeMap<usize, IlInstruction>,
)
    requires
        scx_wf(scx),
        scx.data@.len() <= isize::MAX,
    ensures
        final(pending)@.len() == 0,
        old(known)@.subset_of(final(known)@),
        keeps_entries(old(decoded)@, final(decoded)@),
        forall|k: usize|
            #[trigger] final(decoded)@.contains_key(k) && !old(decoded)@.contains_key(k) ==> final(decoded)@[k]@ == raw_at(
                scx,
                k,
            ) && in_code(scx, k as int) && k < final(decoded)@[k]@.end <= scx.off1 && final(decoded)@[k]@.offset == k,
        offsets_match(old(decoded)@) ==> offsets_match(final(decoded)@),
        sweep_ready(scx, old(pending)@, old(known)@, old(decoded)@) ==> sweep_ready(
            scx,
            final(pending)@,
            final(known)@,
            final(decoded)@,
        ),
{
    let ghost size = scx.off1 - SCX_TABLE0_END;
    let ghost inv = sweep_ready(scx, pending@, known@, decoded@);
    while pending.len() > 0
        invariant
            scx_wf(scx),
            scx.data@.len() <= isize::MAX,
            size == scx.off1 - SCX_TABLE0_END,
            inv ==> sweep_ready(scx, pending@, known@, decoded@),
            forall|k: usize|
                #[trigger] decoded@.contains_key(k) && !old(decoded)@.contains_key(k) ==> decoded@[k]@ == raw_at(scx, k)
                    && in_code(scx, k as int) && k < decoded@[k]@.end <= scx.off1 && decoded@[k]@.offset == k,
            old(known)@.subset_of(known@),
            keeps_entries(old(decoded)@, decoded@),
        decreases size - known_in_code(scx, known@).len(), pending@.len(),
    {
        proof {
            lemma_subset_range(known_in_code(scx, known@), SCX_TABLE0_END as int, scx.off1 as int);
        }
        let start = vec_min(pending);
        let ghost k0 = known@;
        let ghost p0 = pending@;
        let ghost d0 = decoded@;
        remove_all(pending, start);
        let ghost pr = pending@;
        if decoded.contains_key(&start) || !in_code_exec(scx, start) {
            proof {
                if inv {
                    let j = choose|j: int| 0 <= j < p0.len() && p0[j] == start;
                    assert(known@.contains(p0[j]));
                    lemma_skip_start(scx, start, p0, pending@, known@, decoded@);
                }
            }
            continue;
        }
        proof {
            if inv {
                lemma_walk_begin(scx, start, p0, pending@, known@, decoded@);
                let j = choose|j: int| 0 <= j < p0.len() && p0[j] == start;
                assert(known@.contains(p0[j]));
            }
        }
        let mut pc = start;
        let ghost mut prev: Option<usize> = None;
        while pc < scx.code_end()
            invariant_except_break
                start <= pc,
                pc == start ==> !decoded@.contains_key(start),
                inv ==> walk_inv(scx, start, pc, prev, pending@, known@, decoded@),
            invariant
                scx_wf(scx),
                scx.data@.len() <= isize::MAX,
                in_code(scx, start as int),
                inv ==> reach_inv(scx, known@, decoded@),
                inv ==> flow_reachable(scx, decoded@, pc),
                inv ==> cases_justified(scx, decoded@),
                forall|k: usize|
                    #[trigger] decoded@.contains_key(k) && !old(decoded)@.contains_key(k) ==> decoded@[k]@ == raw_at(scx, k)
                        && in_code(scx, k as int) && k < decoded@[k]@.end <= scx.off1 && decoded@[k]@.offset == k,
                k0.subset_of(known@),
                forall|x: usize| #[trigger] known@.contains(x) && !k0.contains(x) ==> in_code(scx, x as int),
                old(known)@.subset_of(known@),
                known@ == k0 ==> pending@ == pr,
                keeps_entries(d0, decoded@),
            ensures
                inv ==> (sweep_inv(scx, pending@, known@, decoded@) || (pc >= scx.off1 && pc != start && walk_inv(
                    scx,
                    start,
                    pc,
                    prev,
                    pending@,
                    known@,
                    decoded@,
                ))),
                k0.subset_of(known@),
                forall|x: usize| #[trigger] known@.contains(x) && !k0.contains(x) ==> in_code(scx, x as int),
                old(known)@.subset_of(known@),
                known@ == k0 ==> pending@ == pr,
                keeps_entries(d0, decoded@),
            decreases usize::MAX - pc,
        {
            if pc != start && known.contains(&pc) {
                proof {
                    if inv {
                        lemma_walk_end(scx, start, pc, prev, pending@, known@, decoded@);
                    }
                }
                break;
            }
            if decoded.contains_key(&pc) {
                proof {
                    if inv {
                        lemma_walk_end(scx, start, pc, prev, pending@, known@, decoded@);
                    }
                }
                break;
            }
            let ghost k1 = known@;
            let ghost p1 = pending@;
            let ghost d1 = decoded@;
            let inst = execute_scx_loop(scx, pc, scx.code_end());
            collect_targets(scx, &inst, pending, known);
            let no_fallthrough = !has_fallthrough(&inst) || inst.end <= pc;
            let end = inst.end;
            decoded.insert(pc, inst);
            proof {
                let iv = decoded@[pc]@;
                assert(known@ =~= k1.union(collected_targets(scx, iv)));
                if known@ == k0 {
                    assert(k1 =~= k0);
                }
                assert forall|x: usize| #[trigger] known@.contains(x) && !k0.contains(x) implies in_code(scx, x as int) by {
                    if !k1.contains(x) {
                        assert(collected_targets(scx, iv).contains(x));
                    }
                }
                assert forall|k: usize| d0.contains_key(k) implies #[trigger] decoded@.contains_key(k) && decoded@[k]
                    == d0[k] by {
                    assert(d1.contains_key(k));
                }
                if inv {
                    lemma_walk_insert(scx, start, pc, prev, p1, k1, d1, pending@, known@, decoded@, decoded@[pc]);
                    lemma_reach_insert(scx, pc, k1, d1, known@, decoded@);
                    lemma_cases_insert(scx, d1, pc, decoded@[pc]);
                }
            }
            if no_fallthrough {
                break;
            }
            proof {
                prev = Some(pc);
                if inv {
                    lemma_reach_step(scx, decoded@, pc, end);
                }
            }
            pc = end;
        }
        proof {
            if inv && !sweep_inv(scx, pending@, known@, decoded@) {
                lemma_walk_end(scx, start, pc, prev, pending@, known@, decoded@);
            }
            lemma_subset_range(known_in_code(scx, known@), SCX_TABLE0_END as int, scx.off1 as int);
            if known@ != k0 {
                assert(exists|x: usize| known@.contains(x) && !k0.contains(x)) by {
                    if !(exists|x: usize| known@.contains(x) && !k0.contains(x)) {
                        assert(known@ =~= k0);
                    }
                }
                let x = choose|x: usize| known@.contains(x) && !k0.contains(x);
                assert(known_in_code(scx, known@).contains(x));
                assert(!known_in_code(scx, k0).contains(x));
                lemma_strict_subset_len(known_in_code(scx, k0), known_in_code(scx, known@));
            }
        }
    }
}

// ── switch tables ──

/// The label a switch's `table_base` operand names in the first table.
pub open spec fn switch_label(inst: SpecInstruction) -> Option<usize> {
    if inst.mnemonic == "switch_jmp"@ {
        operand_label(inst, "table_base"@, "table0"@)
    } else {
        None
    }
}

/// No switch of the listing has a case table that starts with a data word
/// still to be read as a case.
pub open spec fn rewrite_fixpoint(scx: &ScxFile, d: Map<usize, IlInstruction>) -> bool {
    forall|k: usize|
        #[trigger] d.contains_key(k) ==> match switch_label(d[k]@) {
            Some(idx) => idx < scx.table0@.len() ==> !(d.contains_key(scx.table0@[idx as int] as usize) && switch_case_of(
                d[scx.table0@[idx as int] as usize]@,
            ) is Some),
            None => true,
        }
}

/// Each entry of `b` is the entry of `a` or its switch-case form.
pub open spec fn rewritten_from(a: Map<usize, IlInstruction>, b: Map<usize, IlInstruction>) -> bool {
    &&& b.dom() == a.dom()
    &&& forall|k: usize| #[trigger] b.contains_key(k) ==> b[k] == a[k] || switch_case_of(a[k]@) == Some(b[k]@)
}

pub open spec fn is_switch_case(inst: SpecInstruction) -> bool {
    inst.mnemonic == "switch_case"@
}

/// Some listed switch uses label `idx` as its case table.
pub open spec fn is_listed_switch_label(d: Map<usize, IlInstruction>, idx: usize) -> bool {
    exists|k: usize| #[trigger] d.contains_key(k) && switch_label(d[k]@) == Some(idx)
}

/// The instruction decoded at `k` in the code.
pub open spec fn raw_at(scx: &ScxFile, k: usize) -> SpecInstruction {
    spec_execute_scx_loop(scx.data@, scx.table0@, k as int, scx.off1 as int)
}

/// The offset of word `j` of the case table at label `idx`.
pub open spec fn case_word(scx: &ScxFile, idx: usize, j: int) -> int {
    scx.table0@[idx as int] + 2 * j
}

/// The word at `o` is listed in its switch-case form.
pub open spec fn is_read_case(scx: &ScxFile, d: Map<usize, IlInstruction>, o: usize) -> bool {
    d.contains_key(o) && switch_case_of(raw_at(scx, o)) == Some(d[o]@)
}

/// Word `i` of the case table at label `idx` is listed as a switch case.
pub open spec fn case_word_read(scx: &ScxFile, d: Map<usize, IlInstruction>, idx: usize, i: int) -> bool {
    let o = case_word(scx, idx, i);
    0 <= o <= usize::MAX && is_read_case(scx, d, o as usize)
}

/// `k` is word `j` of the case table at label `idx`, and that word and
/// every word before it are listed as switch cases.
#[verifier::opaque]
pub open spec fn in_case_run(scx: &ScxFile, d: Map<usize, IlInstruction>, idx: usize, k: usize) -> bool {
    exists|j: int|
        0 <= j && k == case_word(scx, idx, j) && forall|i: int| 0 <= i <= j ==> #[trigger] case_word_read(scx, d, idx, i)
}

/// Every entry that is not the instruction decoded at its offset is a
/// switch case in the case table of a listed switch.
#[verifier::opaque]
pub open spec fn cases_justified(scx: &ScxFile, d: Map<usize, IlInstruction>) -> bool {
    forall|k: usize|
        #[trigger] d.contains_key(k) && d[k]@ != raw_at(scx, k) ==> exists|idx: usize|
            idx < scx.table0@.len() && is_listed_switch_label(d, idx) && in_case_run(scx, d, idx, k)
}

proof fn lemma_listed_label_rewrite(a: Map<usize, IlInstruction>, b: Map<usize, IlInstruction>, idx: usize)
    requires
        is_listed_switch_label(a, idx),
        rewritten_from(a, b),
    ensures
        is_listed_switch_label(b, idx),
{
    let k = choose|k: usize| #[trigger] a.contains_key(k) && switch_label(a[k]@) == Some(idx);
    assert(b.contains_key(k));
    if b[k] != a[k] {
        lemma_switch_case_form(a[k]@, b[k]@);
        reveal_strlit("data_u16");
        reveal_strlit("switch_jmp");
        assert("data_u16"@.len() != "switch_jmp"@.len());
    }
    assert(b.contains_key(k) && switch_label(b[k]@) == Some(idx));
}

proof fn lemma_label_keeps(a: Map<usize, IlInstruction>, b: Map<usize, IlInstruction>, idx: usize)
    requires
        is_listed_switch_label(a, idx),
        keeps_entries(a, b),
    ensures
        is_listed_switch_label(b, idx),
{
    let k = choose|k: usize| #[trigger] a.contains_key(k) && switch_label(a[k]@) == Some(idx);
    assert(b.contains_key(k) && b[k] == a[k]);
}

proof fn lemma_run_keeps(scx: &ScxFile, a: Map<usize, IlInstruction>, b: Map<usize, IlInstruction>, idx: usize, k: usize)
    requires
        in_case_run(scx, a, idx, k),
        keeps_entries(a, b),
    ensures
        in_case_run(scx, b, idx, k),
{
    reveal(in_case_run);
    let j = choose|j: int|
        0 <= j && k == case_word(scx, idx, j) && forall|i: int| 0 <= i <= j ==> #[trigger] case_word_read(scx, a, idx, i);
    assert forall|i: int| 0 <= i <= j implies #[trigger] case_word_read(scx, b, idx, i) by {
        assert(case_word_read(scx, a, idx, i));
        let o = case_word(scx, idx, i) as usize;
        assert(b.contains_key(o) && b[o] == a[o]);
    }
}

proof fn lemma_cases_insert(scx: &ScxFile, a: Map<usize, IlInstruction>, pc: usize, v: IlInstruction)
    requires
        cases_justified(scx, a),
        !a.contains_key(pc),
        v@ == raw_at(scx, pc),
    ensures
        cases_justified(scx, a.insert(pc, v)),
{
    reveal(cases_justified);
    let b = a.insert(pc, v);
    assert(keeps_entries(a, b));
    assert forall|k: usize| #[trigger] b.contains_key(k) && b[k]@ != raw_at(scx, k) implies exists|idx: usize|
        idx < scx.table0@.len() && is_listed_switch_label(b, idx) && in_case_run(scx, b, idx, k) by {
        assert(k != pc);
        assert(a.contains_key(k) && a[k] == b[k]);
        let idx = choose|idx: usize| idx < scx.table0@.len() && is_listed_switch_label(a, idx) && in_case_run(scx, a, idx, k);
        lemma_label_keeps(a, b, idx);
        lemma_run_keeps(scx, a, b, idx, k);
    }
}

/// Every entry but the one at `x` stays as it is.
pub open spec fn keeps_except(a: Map<usize, IlInstruction>, b: Map<usize, IlInstruction>, x: usize) -> bool {
    forall|o: usize| #[trigger] a.contains_key(o) && o != x ==> b.contains_key(o) && b[o] == a[o]
}

/// Reading the data word at word `n` of the case table at label `idx` as a
/// switch case, after the words before it, keeps every rewritten entry
/// justified.
proof fn lemma_cases_rewrite_one(
    scx: &ScxFile,
    a: Map<usize, IlInstruction>,
    b: Map<usize, IlInstruction>,
    idx: usize,
    n: int,
    x: usize,
)
    requires
        cases_justified(scx, a),
        idx < scx.table0@.len(),
        is_listed_switch_label(a, idx),
        0 <= n,
        x == case_word(scx, idx, n),
        forall|i: int| 0 <= i < n ==> #[trigger] case_word_read(scx, a, idx, i),
        a.contains_key(x),
        a[x]@ == raw_at(scx, x),
        b.dom() == a.dom(),
        keeps_except(a, b, x),
        switch_case_of(raw_at(scx, x)) == Some(b[x]@),
    ensures
        cases_justified(scx, b),
        forall|i: int| 0 <= i <= n ==> #[trigger] case_word_read(scx, b, idx, i),
        is_listed_switch_label(b, idx),
{
    reveal_strlit("data_u16");
    reveal_strlit("switch_jmp");
    assert("data_u16"@.len() != "switch_jmp"@.len());
    lemma_switch_case_form(raw_at(scx, x), b[x]@);
    assert(!is_read_case(scx, a, x));
    assert forall|o: usize| is_read_case(scx, a, o) implies is_read_case(scx, b, o) by {
        assert(o != x);
    }
    assert forall|i: int| 0 <= i <= n implies #[trigger] case_word_read(scx, b, idx, i) by {
        if i < n {
            assert(case_word_read(scx, a, idx, i));
        }
    }
    assert forall|l: usize| is_listed_switch_label(a, l) implies is_listed_switch_label(b, l) by {
        let w = choose|w: usize| #[trigger] a.contains_key(w) && switch_label(a[w]@) == Some(l);
        assert(w != x);
        assert(b.contains_key(w) && switch_label(b[w]@) == Some(l));
    }
    assert forall|l: usize, k: usize| in_case_run(scx, a, l, k) implies in_case_run(scx, b, l, k) by {
        reveal(in_case_run);
        let j = choose|j: int|
            0 <= j && k == case_word(scx, l, j) && forall|i: int| 0 <= i <= j ==> #[trigger] case_word_read(scx, a, l, i);
        assert forall|i: int| 0 <= i <= j implies #[trigger] case_word_read(scx, b, l, i) by {
            assert(case_word_read(scx, a, l, i));
        }
    }
    assert(in_case_run(scx, b, idx, x)) by {
        reveal(in_case_run);
    }
    reveal(cases_justified);
    assert forall|k: usize| #[trigger] b.contains_key(k) && b[k]@ != raw_at(scx, k) implies exists|l: usize|
        l < scx.table0@.len() && is_listed_switch_label(b, l) && in_case_run(scx, b, l, k) by {
        if k != x {
            assert(a.contains_key(k) && a[k] == b[k]);
            let l = choose|l: usize| l < scx.table0@.len() && is_listed_switch_label(a, l) && in_case_run(scx, a, l, k);
        }
    }
}

/// Each word listed as a switch case, two bytes long, is followed by a word
/// listed as a switch case wherever the next word is listed and reads as
/// a data word; `f` is exempt as the next word when `active`.
pub open spec fn case_runs_extend_except(scx: &ScxFile, d: Map<usize, IlInstruction>, f: usize, active: bool) -> bool {
    forall|k: usize|
        #[trigger] is_read_case(scx, d, k) && d[k]@.end == k + 2 && d.contains_key(d[k]@.end) && switch_case_of(
            raw_at(scx, d[k]@.end),
        ) is Some && !(active && d[k]@.end == f) ==> is_read_case(scx, d, d[k]@.end)
}

/// A run of switch cases goes on over every data word that follows it.
pub open spec fn case_runs_extend(scx: &ScxFile, d: Map<usize, IlInstruction>) -> bool {
    case_runs_extend_except(scx, d, 0, false)
}

/// Every fall-through inside the code is listed.
pub open spec fn fallthrough_closed(scx: &ScxFile, d: Map<usize, IlInstruction>) -> bool {
    forall|k: usize|
        #[trigger] d.contains_key(k) ==> (spec_has_fallthrough(d[k]@) && k < d[k]@.end && d[k]@.end < scx.off1
            ==> d.contains_key(d[k]@.end))
}

proof fn lemma_read_case_not_raw(scx: &ScxFile, d: Map<usize, IlInstruction>, k: usize)
    requires
        is_read_case(scx, d, k),
    ensures
        d[k]@ != raw_at(scx, k),
        spec_has_fallthrough(d[k]@),
        d[k]@.end == raw_at(scx, k).end,
{
    lemma_switch_case_form(raw_at(scx, k), d[k]@);
}

/// Listing new offsets, each with the instruction decoded there, keeps the
/// runs of switch cases going on, when every fall-through was listed.
proof fn lemma_extend_insert(scx: &ScxFile, a: Map<usize, IlInstruction>, b: Map<usize, IlInstruction>)
    requires
        fallthrough_closed(scx, a),
        case_runs_extend(scx, a),
        keeps_entries(a, b),
        forall|k: usize| #[trigger] b.contains_key(k) ==> k < scx.off1,
        forall|k: usize| #[trigger] b.contains_key(k) && !a.contains_key(k) ==> b[k]@ == raw_at(scx, k),
    ensures
        case_runs_extend(scx, b),
{
    assert forall|k: usize|
        #[trigger] is_read_case(scx, b, k) && b[k]@.end == k + 2 && b.contains_key(b[k]@.end) && switch_case_of(
            raw_at(scx, b[k]@.end),
        ) is Some && !(false && b[k]@.end == 0) implies is_read_case(scx, b, b[k]@.end) by {
        lemma_read_case_not_raw(scx, b, k);
        assert(a.contains_key(k));
        assert(b[k] == a[k]);
        let e = a[k]@.end;
        assert(a.contains_key(k) && spec_has_fallthrough(a[k]@) && k < e && e < scx.off1);
        assert(a.contains_key(e));
        assert(b[e] == a[e]);
        assert(is_read_case(scx, a, k));
    }
}

/// Reading the word at `x` as a switch case moves the exempt next word to
/// the one after it.
proof fn lemma_extend_step(
    scx: &ScxFile,
    a: Map<usize, IlInstruction>,
    b: Map<usize, IlInstruction>,
    x: usize,
    active: bool,
)
    requires
        case_runs_extend_except(scx, a, x, active),
        a.contains_key(x),
        !is_read_case(scx, a, x),
        b.dom() == a.dom(),
        keeps_except(a, b, x),
        is_read_case(scx, b, x),
        x + 2 <= usize::MAX,
    ensures
        case_runs_extend_except(scx, b, (x + 2) as usize, true),
{
    assert forall|k: usize|
        #[trigger] is_read_case(scx, b, k) && b[k]@.end == k + 2 && b.contains_key(b[k]@.end) && switch_case_of(
            raw_at(scx, b[k]@.end),
        ) is Some && !(true && b[k]@.end == (x + 2) as usize) implies is_read_case(scx, b, b[k]@.end) by {
        if k != x {
            assert(a[k] == b[k]);
            assert(is_read_case(scx, a, k));
            let e = b[k]@.end;
            if e != x {
                assert(a.contains_key(e));
                assert(a[e] == b[e]);
            }
        }
    }
}

/// A run stops only where the next word is not a data word in its first
/// form.
proof fn lemma_extend_close(scx: &ScxFile, d: Map<usize, IlInstruction>, f: usize, active: bool)
    requires
        case_runs_extend_except(scx, d, f, active),
        forall|k: usize| #[trigger] d.contains_key(k) ==> decoded_at(scx, k, d[k]@),
        d.contains_key(f) ==> switch_case_of(d[f]@) is None,
    ensures
        case_runs_extend(scx, d),
{
    assert forall|k: usize|
        #[trigger] is_read_case(scx, d, k) && d[k]@.end == k + 2 && d.contains_key(d[k]@.end) && switch_case_of(
            raw_at(scx, d[k]@.end),
        ) is Some && !(false && d[k]@.end == 0) implies is_read_case(scx, d, d[k]@.end) by {
        let e = d[k]@.end;
        if active && e == f {
            assert(decoded_at(scx, e, d[e]@));
            if d[e]@ == raw_at(scx, e) {
                assert(switch_case_of(d[f]@) is Some);
            }
        }
    }
}

/// Reading words as switch cases keeps every fall-through listed.
proof fn lemma_closed_rewrite(scx: &ScxFile, a: Map<usize, IlInstruction>, b: Map<usize, IlInstruction>)
    requires
        fallthrough_closed(scx, a),
        rewritten_from(a, b),
    ensures
        fallthrough_closed(scx, b),
{
    assert forall|k: usize| #[trigger] b.contains_key(k) implies (spec_has_fallthrough(b[k]@) && k < b[k]@.end && b[k]@.end
        < scx.off1 ==> b.contains_key(b[k]@.end)) by {
        if b[k] != a[k] {
            lemma_switch_case_form(a[k]@, b[k]@);
        }
    }
}

proof fn lemma_decoded_at_rewrite(scx: &ScxFile, a: Map<usize, IlInstruction>, b: Map<usize, IlInstruction>)
    requires
        forall|k: usize| #[trigger] a.contains_key(k) ==> decoded_at(scx, k, a[k]@),
        rewritten_from(a, b),
    ensures
        forall|k: usize| #[trigger] b.contains_key(k) ==> decoded_at(scx, k, b[k]@),
{
    assert forall|k: usize| #[trigger] b.contains_key(k) implies decoded_at(scx, k, b[k]@) by {
        assert(a.contains_key(k));
        if b[k] != a[k] {
            lemma_switch_case_form(a[k]@, b[k]@);
            if a[k]@ != raw_at(scx, k) {
                lemma_switch_case_form(raw_at(scx, k), a[k]@);
            }
        }
    }
}

/// The labels that switches of the listing use as case tables.
fn switch_base_labels(decoded: &BTreeMap<usize, IlInstruction>) -> (r: Vec<usize>)
    ensures
        forall|k: usize|
            #[trigger] decoded@.contains_key(k) ==> match switch_label(decoded@[k]@) {
                Some(idx) => r@.contains(idx),
                None => true,
            },
        forall|i: int| 0 <= i < r@.len() ==> is_listed_switch_label(decoded@, #[trigger] r@[i]),
{
    let mut labels: Vec<usize> = Vec::new();
    let ghost all = spec_btree_map_iter(decoded).remaining();
    for kv in it: decoded.iter()
        invariant
            it.seq() == all,
            forall|j: int|
                0 <= j < it.index() ==> match switch_label((*(#[trigger] all[j]).1)@) {
                    Some(idx) => labels@.contains(idx),
                    None => true,
                },
            forall|i: int| 0 <= i < labels@.len() ==> is_listed_switch_label(decoded@, #[trigger] labels@[i]),
    {
        let (_k, inst) = kv;
        let ghost j = it.index();
        let ghost before = labels@;
        if str_eq(inst.mnemonic.as_str(), "switch_jmp") {
            if let Some(tb) = inst.get_operand_value("table_base") {
                if let Some(idx) = try_parse_table_label(tb, "table0") {
                    if !vec_contains(&labels, idx) {
                        proof {
                            let k = *all[j as int].0;
                            assert(decoded@.contains_key(k));
                            assert(switch_label(decoded@[k]@) == Some(idx));
                        }
                        labels.push(idx);
                    }
                }
            }
        }
        assert forall|i: int|
            0 <= i < j + 1 implies match switch_label((*(#[trigger] all[i]).1)@) {
            Some(idx) => labels@.contains(idx),
            None => true,
        } by {
            if i < j {
                match switch_label((*all[i].1)@) {
                    Some(idx) => {
                        assert(before.contains(idx));
                    },
                    None => {},
                }
            }
        }
    }
    proof {
        assert forall|k: usize| #[trigger] decoded@.contains_key(k) implies match switch_label(decoded@[k]@) {
            Some(idx) => labels@.contains(idx),
            None => true,
        } by {
            assert(all.contains((&k, &decoded@[k])));
            let j = choose|j: int| 0 <= j < all.len() && all[j] == (&k, &decoded@[k]);
        }
    }
    labels
}

/// Each entry of the listing sits at its own offset.
pub open spec fn offsets_match(d: Map<usize, IlInstruction>) -> bool {
    forall|k: usize| #[trigger] d.contains_key(k) ==> d[k]@.offset == k
}

proof fn lemma_offsets_rewrite(a: Map<usize, IlInstruction>, b: Map<usize, IlInstruction>)
    requires
        offsets_match(a),
        rewritten_from(a, b),
    ensures
        offsets_match(b),
{
    assert forall|k: usize| #[trigger] b.contains_key(k) implies b[k]@.offset == k by {
        assert(a.contains_key(k));
    }
}

/// At a fixpoint, the first word of a listed switch's case table is not a
/// data word still to be read as a case.
proof fn lemma_fixpoint_first_word(scx: &ScxFile, d: Map<usize, IlInstruction>, idx: usize)
    requires
        rewrite_fixpoint(scx, d),
        is_listed_switch_label(d, idx),
        idx < scx.table0@.len(),
    ensures
        !(d.contains_key(scx.table0@[idx as int] as usize) && switch_case_of(d[scx.table0@[idx as int] as usize]@) is Some),
{
    let k = choose|k: usize| #[trigger] d.contains_key(k) && switch_label(d[k]@) == Some(idx);
    assert(d.contains_key(k));
}

/// A listing whose offsets lie in the code, each holding the instruction
/// decoded there or its switch-case form, whose switch cases are each
/// justified by a listed switch, and whose runs of cases go on over every
/// data word that follows them.
pub open spec fn sound_listing(scx: &ScxFile, d: Map<usize, IlInstruction>) -> bool {
    &&& scx.off1 <= scx.data@.len() <= isize::MAX
    &&& forall|k: usize| #[trigger] d.contains_key(k) ==> k < scx.off1
    &&& forall|k: usize| #[trigger] d.contains_key(k) ==> decoded_at(scx, k, d[k]@)
    &&& cases_justified(scx, d)
    &&& case_runs_extend(scx, d)
}

/// Reads the data words that start the case tables of the listed switches
/// as switch cases, up to the first word that is not data; true when any
/// word was read so.
#[verifier::rlimit(80)]
#[verifier::spinoff_prover]
fn rewrite_switch_tables(scx: &ScxFile, decoded: &mut BTreeMap<usize, IlInstruction>) -> (r: bool)
    requires
        forall|k: usize| #[trigger] old(decoded)@.contains_key(k) ==> k + 2 <= usize::MAX,
    ensures
        rewritten_from(old(decoded)@, final(decoded)@),
        sound_listing(scx, old(decoded)@) ==> cases_justified(scx, final(decoded)@),
        sound_listing(scx, old(decoded)@) ==> case_runs_extend(scx, final(decoded)@),
        rewrite_fixpoint(scx, old(decoded)@) ==> !r,
        r ==> exists|k: usize|
            #[trigger] final(decoded)@.contains_key(k) && !is_switch_case(old(decoded)@[k]@) && is_switch_case(
                final(decoded)@[k]@,
            ),
        !r ==> final(decoded)@ == old(decoded)@ && rewrite_fixpoint(scx, final(decoded)@),
{
    let labels = switch_base_labels(decoded);
    let ghost orig = decoded@;
    let ghost inv = sound_listing(scx, orig);
    let ghost fix = rewrite_fixpoint(scx, orig);
    let mut changed = false;
    let mut li: usize = 0;
    while li < labels.len()
        invariant
            inv == sound_listing(scx, orig),
            fix == rewrite_fixpoint(scx, orig),
            fix ==> !changed,
            forall|k: usize| #[trigger] orig.contains_key(k) ==> k + 2 <= usize::MAX,
            li <= labels@.len(),
            forall|k: usize|
                #[trigger] orig.contains_key(k) ==> match switch_label(orig[k]@) {
                    Some(idx) => labels@.contains(idx),
                    None => true,
                },
            rewritten_from(orig, decoded@),
            inv ==> cases_justified(scx, decoded@),
            inv ==> case_runs_extend(scx, decoded@),
            forall|i: int| 0 <= i < labels@.len() ==> is_listed_switch_label(orig, #[trigger] labels@[i]),
            changed ==> exists|k: usize|
                #[trigger] decoded@.contains_key(k) && !is_switch_case(orig[k]@) && is_switch_case(decoded@[k]@),
            !changed ==> decoded@ == orig,
            !changed ==> forall|j: int|
                0 <= j < li && labels@[j] < scx.table0@.len() ==> !(orig.contains_key(
                    scx.table0@[labels@[j] as int] as usize,
                ) && switch_case_of(orig[scx.table0@[labels@[j] as int] as usize]@) is Some),
        decreases labels@.len() - li,
    {
        let idx = labels[li];
        if idx < scx.table0.len() {
            let mut offset = scx.table0[idx] as usize;
            let ghost first = offset;
            let ghost changed_before = changed;
            let ghost mut n: int = 0;
            proof {
                assert(is_listed_switch_label(orig, labels@[li as int]));
                lemma_listed_label_rewrite(orig, decoded@, idx);
            }
            loop
                invariant
                    inv == sound_listing(scx, orig),
                    fix == rewrite_fixpoint(scx, orig),
                    fix ==> !changed,
                    forall|k: usize| #[trigger] orig.contains_key(k) ==> k + 2 <= usize::MAX,
                    rewritten_from(orig, decoded@),
                    inv ==> cases_justified(scx, decoded@),
                    idx < scx.table0@.len(),
                    is_listed_switch_label(orig, idx),
                    is_listed_switch_label(decoded@, idx),
                    first == scx.table0@[idx as int] as usize,
                    0 <= n,
                    offset as int == case_word(scx, idx, n),
                    inv ==> case_runs_extend_except(scx, decoded@, offset, n > 0),
                    inv ==> forall|i: int| 0 <= i < n ==> #[trigger] case_word_read(scx, decoded@, idx, i),
                    changed ==> exists|k: usize|
                        #[trigger] decoded@.contains_key(k) && !is_switch_case(orig[k]@) && is_switch_case(decoded@[k]@),
                    !changed ==> decoded@ == orig && offset == first,
                    changed_before ==> changed,
                ensures
                    rewritten_from(orig, decoded@),
                    inv ==> cases_justified(scx, decoded@),
                    inv ==> case_runs_extend(scx, decoded@),
                    changed ==> exists|k: usize|
                        #[trigger] decoded@.contains_key(k) && !is_switch_case(orig[k]@) && is_switch_case(decoded@[k]@),
                    !changed ==> decoded@ == orig && !(orig.contains_key(first) && switch_case_of(orig[first]@) is Some),
                    changed_before ==> changed,
                    fix ==> !changed,
                decreases usize::MAX - offset,
            {
                proof {
                    if inv {
                        lemma_decoded_at_rewrite(scx, orig, decoded@);
                    }
                }
                let target = match decoded.get(&offset) {
                    None => {
                        proof {
                            if inv {
                                lemma_extend_close(scx, decoded@, offset, n > 0);
                            }
                        }
                        break;
                    },
                    Some(inst) => {
                        if !str_eq(inst.mnemonic.as_str(), "data_u16") || inst.operands.len() != 1 {
                            proof {
                                if inv {
                                    lemma_extend_close(scx, decoded@, offset, n > 0);
                                }
                            }
                            break;
                        }
                        let text = match inst.operands[0].try_get_text() {
                            Some(t) => t,
                            None => {
                                proof {
                                    if inv {
                                        lemma_extend_close(scx, decoded@, offset, n > 0);
                                    }
                                }
                                break;
                            },
                        };
                        let case_label = match try_parse_u16_literal(text) {
                            Some(v) => v,
                            None => {
                                proof {
                                    if inv {
                                        lemma_extend_close(scx, decoded@, offset, n > 0);
                                    }
                                }
                                break;
                            },
                        };
                        fmt_l0((case_label % 65536) as u16)
                    },
                };
                let ghost before = decoded@;
                let ghost old_inst = decoded@[offset];
                let mut inst = match decoded.remove(&offset) {
                    Some(i) => i,
                    None => {
                        break;
                    },
                };
                inst.mnemonic = to_string("switch_case");
                inst.operands = vec![IlOperand::named("target", target)];
                decoded.insert(offset, inst);
                proof {
                    reveal_strlit("data_u16");
                    reveal_strlit("switch_case");
                    assert(old_inst == orig[offset]);
                    assert(decoded@[offset]@ == switch_case_of(orig[offset]@)->0);
                    assert(decoded@ == before.insert(offset, decoded@[offset]));
                    assert(decoded@.dom() =~= orig.dom());
                    assert forall|k: usize| #[trigger] decoded@.contains_key(k) implies decoded@[k] == orig[k]
                        || switch_case_of(orig[k]@) == Some(decoded@[k]@) by {
                        if k != offset {
                            assert(before.contains_key(k));
                        }
                    }
                    assert(orig[offset]@.mnemonic == "data_u16"@);
                    assert("data_u16"@.len() != "switch_case"@.len());
                    assert(!is_switch_case(orig[offset]@));
                    assert(is_switch_case(decoded@[offset]@));
                    assert(keeps_except(before, decoded@, offset));
                    assert(offset + 2 <= usize::MAX);
                    if fix {
                        lemma_fixpoint_first_word(scx, orig, idx);
                        if !changed {
                            assert(offset == first);
                            assert(orig.contains_key(offset));
                            assert(switch_case_of(orig[offset]@) is Some);
                        }
                    }
                    lemma_listed_label_rewrite(orig, decoded@, idx);
                    if inv {
                        assert(orig[offset]@ == raw_at(scx, offset)) by {
                            if orig[offset]@ != raw_at(scx, offset) {
                                lemma_switch_case_form(raw_at(scx, offset), orig[offset]@);
                            }
                        }
                        lemma_cases_rewrite_one(scx, before, decoded@, idx, n, offset);
                        lemma_switch_case_form(raw_at(scx, offset), decoded@[offset]@);
                        lemma_extend_step(scx, before, decoded@, offset, n > 0);
                    }
                    n = n + 1;
                }
                changed = true;
                offset = offset + 2;
            }
        }
        li = li + 1;
    }
    proof {
        if !changed {
            assert forall|k: usize| #[trigger] decoded@.contains_key(k) implies match switch_label(decoded@[k]@) {
                Some(idx) => idx < scx.table0@.len() ==> !(decoded@.contains_key(scx.table0@[idx as int] as usize)
                    && switch_case_of(decoded@[scx.table0@[idx as int] as usize]@) is Some),
                None => true,
            } by {
                match switch_label(orig[k]@) {
                    Some(idx) => {
                        let j = choose|j: int| 0 <= j < labels@.len() && labels@[j] == idx;
                    },
                    None => {},
                }
            }
        }
    }
    changed
}

/// The targets of the switch cases of the listing.
pub open spec fn listed_case_targets(scx: &ScxFile, d: Map<usize, IlInstruction>) -> Set<usize> {
    Set::new(|t: usize| exists|k: usize| #[trigger] d.contains_key(k) && case_targets(scx, d[k]@).contains(t))
}

/// The case targets of the first `n` instructions of `all`.
pub open spec fn prefix_case_targets(scx: &ScxFile, all: Seq<(&usize, &IlInstruction)>, n: int) -> Set<usize> {
    Set::new(|t: usize| exists|j: int| 0 <= j < n && case_targets(scx, (*(#[trigger] all[j]).1)@).contains(t))
}

/// Queues the targets of the switch cases of the listing.
#[verifier::rlimit(40)]
#[verifier::spinoff_prover]
fn queue_switch_case_targets(
    scx: &ScxFile,
    decoded: &BTreeMap<usize, IlInstruction>,
    pending: &mut Vec<usize>,
    known: &mut HashSet<usize>,
)
    ensures
        queued(old(pending)@, old(known)@, final(pending)@, final(known)@, listed_case_targets(scx, decoded@)),
{
    let ghost all = spec_btree_map_iter(decoded).remaining();
    let ghost p0 = pending@;
    let ghost k0 = known@;
    assert(queued(p0, k0, p0, k0, prefix_case_targets(scx, all, 0))) by {
        assert(prefix_case_targets(scx, all, 0) =~= Set::empty());
        assert(k0 =~= k0.union(Set::empty()));
    }
    for kv in it: decoded.iter()
        invariant
            it.seq() == all,
            queued(p0, k0, pending@, known@, prefix_case_targets(scx, all, it.index() as int)),
    {
        let (_k, inst) = kv;
        let ghost j = it.index();
        let ghost a = prefix_case_targets(scx, all, j as int);
        let ghost t_opt = if inst@.mnemonic == "switch_case"@ {
            operand_target(scx, inst@, "target"@, "table0"@, scx.table0@)
        } else {
            None
        };
        if str_eq(inst.mnemonic.as_str(), "switch_case") {
            if let Some(target) = inst.get_operand_value("target") {
                if let Some(idx) = try_parse_table_label(target, "table0") {
                    let ghost p1 = pending@;
                    let ghost k1 = known@;
                    queue_table0_label(scx, idx, pending, known);
                    proof {
                        lemma_queued_step(p0, k0, p1, k1, pending@, known@, a, t_opt);
                    }
                }
            }
        }
        proof {
            let a2 = match t_opt {
                Some(o) => a.insert(o),
                None => a,
            };
            assert(queued(p0, k0, pending@, known@, a2));
            assert(a2 =~= prefix_case_targets(scx, all, j + 1)) by {
                assert forall|t: usize| a2.contains(t) implies prefix_case_targets(scx, all, j + 1).contains(t) by {
                    if t_opt == Some(t) {
                        assert(case_targets(scx, (*all[j as int].1)@).contains(t));
                    } else {
                        let i = choose|i: int| 0 <= i < j && case_targets(scx, (*(#[trigger] all[i]).1)@).contains(t);
                    }
                }
                assert forall|t: usize| prefix_case_targets(scx, all, j + 1).contains(t) implies a2.contains(t) by {
                    let i = choose|i: int| 0 <= i < j + 1 && case_targets(scx, (*(#[trigger] all[i]).1)@).contains(t);
                    if i == j {
                        assert(t_opt == Some(t));
                    }
                }
            }
        }
    }
    proof {
        let a = prefix_case_targets(scx, all, all.len() as int);
        assert(a =~= listed_case_targets(scx, decoded@)) by {
            assert forall|t: usize| a.contains(t) implies listed_case_targets(scx, decoded@).contains(t) by {
                let j = choose|j: int| 0 <= j < all.len() && case_targets(scx, (*(#[trigger] all[j]).1)@).contains(t);
                assert(decoded@.contains_key(*all[j].0));
            }
            assert forall|t: usize| listed_case_targets(scx, decoded@).contains(t) implies a.contains(t) by {
                let k = choose|k: usize| #[trigger] decoded@.contains_key(k) && case_targets(scx, decoded@[k]@).contains(t);
                assert(all.contains((&k, &decoded@[k])));
                let j = choose|j: int| 0 <= j < all.len() && all[j] == (&k, &decoded@[k]);
                assert(case_targets(scx, (*all[j].1)@).contains(t));
            }
        }
    }
}

// ── the listing ──

/// Where execution can go from an instruction besides the next one.
pub open spec fn branch_targets(scx: &ScxFile, inst: SpecInstruction) -> Set<usize> {
    collected_targets(scx, inst).union(case_targets(scx, inst))
}

/// Whether control passes from `a` to `b` in the listing: a branch of the
/// instruction at `a`, or its fall-through.
pub open spec fn flow_edge(scx: &ScxFile, d: Map<usize, IlInstruction>, a: usize, b: usize) -> bool {
    d.contains_key(a) && (branch_targets(scx, d[a]@).contains(b) || (spec_has_fallthrough(d[a]@) && a < d[a]@.end
        && d[a]@.end == b))
}

/// A path of control flow through the listing that starts at an entry point.
pub open spec fn is_flow_path(scx: &ScxFile, d: Map<usize, IlInstruction>, p: Seq<usize>) -> bool {
    &&& p.len() > 0
    &&& spec_entry_candidates(scx).contains(p[0])
    &&& forall|j: int| #![trigger p[j]] 0 < j < p.len() ==> flow_edge(scx, d, p[j - 1], p[j])
}

/// Whether control reaches `x` from an entry point through the listing.
#[verifier::opaque]
pub open spec fn flow_reachable(scx: &ScxFile, d: Map<usize, IlInstruction>, x: usize) -> bool {
    exists|p: Seq<usize>| #[trigger] is_flow_path(scx, d, p) && p.last() == x
}

/// Every edge of `a` is an edge of `b`.
pub open spec fn flow_grows(scx: &ScxFile, a: Map<usize, IlInstruction>, b: Map<usize, IlInstruction>) -> bool {
    forall|x: usize, y: usize| #[trigger] flow_edge(scx, a, x, y) ==> flow_edge(scx, b, x, y)
}

/// The known starts and the listed offsets are all reached from an entry.
pub open spec fn reach_inv(scx: &ScxFile, known: Set<usize>, d: Map<usize, IlInstruction>) -> bool {
    &&& forall|x: usize| #[trigger] known.contains(x) ==> flow_reachable(scx, d, x)
    &&& forall|k: usize| #[trigger] d.contains_key(k) ==> flow_reachable(scx, d, k)
}

proof fn lemma_reach_entry(scx: &ScxFile, d: Map<usize, IlInstruction>, e: usize)
    requires
        spec_entry_candidates(scx).contains(e),
    ensures
        flow_reachable(scx, d, e),
{
    reveal(flow_reachable);
    let p = seq![e];
    assert(is_flow_path(scx, d, p));
}

proof fn lemma_reach_step(scx: &ScxFile, d: Map<usize, IlInstruction>, a: usize, b: usize)
    requires
        flow_reachable(scx, d, a),
        flow_edge(scx, d, a, b),
    ensures
        flow_reachable(scx, d, b),
{
    reveal(flow_reachable);
    let p = choose|p: Seq<usize>| #[trigger] is_flow_path(scx, d, p) && p.last() == a;
    let q = p.push(b);
    assert forall|j: int| #![trigger q[j]] 0 < j < q.len() implies flow_edge(scx, d, q[j - 1], q[j]) by {
        if j < p.len() {
            assert(q[j] == p[j]);
            assert(q[j - 1] == p[j - 1]);
        } else {
            assert(q[j - 1] == a);
        }
    }
    assert(q[0] == p[0]);
    assert(is_flow_path(scx, d, q));
}

proof fn lemma_reach_mono(scx: &ScxFile, a: Map<usize, IlInstruction>, b: Map<usize, IlInstruction>, x: usize)
    requires
        flow_reachable(scx, a, x),
        flow_grows(scx, a, b),
    ensures
        flow_reachable(scx, b, x),
{
    reveal(flow_reachable);
    let p = choose|p: Seq<usize>| #[trigger] is_flow_path(scx, a, p) && p.last() == x;
    assert forall|j: int| #![trigger p[j]] 0 < j < p.len() implies flow_edge(scx, b, p[j - 1], p[j]) by {
        assert(flow_edge(scx, a, p[j - 1], p[j]));
    }
    assert(is_flow_path(scx, b, p));
}

proof fn lemma_grows_keeps(scx: &ScxFile, a: Map<usize, IlInstruction>, b: Map<usize, IlInstruction>)
    requires
        keeps_entries(a, b),
    ensures
        flow_grows(scx, a, b),
{
    assert forall|x: usize, y: usize| #[trigger] flow_edge(scx, a, x, y) implies flow_edge(scx, b, x, y) by {
        assert(b.contains_key(x) && b[x] == a[x]);
    }
}

proof fn lemma_reach_inv_grows(
    scx: &ScxFile,
    known: Set<usize>,
    a: Map<usize, IlInstruction>,
    b: Map<usize, IlInstruction>,
)
    requires
        reach_inv(scx, known, a),
        flow_grows(scx, a, b),
        b.dom() == a.dom(),
    ensures
        reach_inv(scx, known, b),
{
    assert forall|x: usize| #[trigger] known.contains(x) implies flow_reachable(scx, b, x) by {
        lemma_reach_mono(scx, a, b, x);
    }
    assert forall|k: usize| #[trigger] b.contains_key(k) implies flow_reachable(scx, b, k) by {
        assert(a.contains_key(k));
        lemma_reach_mono(scx, a, b, k);
    }
}

proof fn lemma_data_word_no_branch(scx: &ScxFile, inst: SpecInstruction, t: usize)
    requires
        inst.mnemonic == "data_u16"@,
    ensures
        !branch_targets(scx, inst).contains(t),
{
    reveal_strlit("data_u16");
    reveal_strlit("switch_jmp");
    reveal_strlit("switch_case");
    reveal_strlit("jmp_table0");
    reveal_strlit("jmp_if_expr");
    reveal_strlit("call_table0");
    reveal_strlit("call_script");
    reveal_strlit("loop_jmp");
    reveal_strlit("cmp_flag_jmp");
    reveal_strlit("call_context");
    reveal_strlit("cond_jmp_adv");
    reveal_strlit("op_0053");
    reveal_strlit("jmp_if_tmp_eq");
    let m = inst.mnemonic;
    assert(m[0] == 'd');
    assert("loop_jmp"@[0] == 'l');
    assert("call_context"@[0] == 'c');
    assert(m != "loop_jmp"@);
    assert(!is_jump(m));
    assert(!is_call(m));
    assert(m != "switch_jmp"@);
    assert(m != "switch_case"@);
}

proof fn lemma_grows_rewrite(scx: &ScxFile, a: Map<usize, IlInstruction>, b: Map<usize, IlInstruction>)
    requires
        rewritten_from(a, b),
    ensures
        flow_grows(scx, a, b),
{
    assert forall|x: usize, y: usize| #[trigger] flow_edge(scx, a, x, y) implies flow_edge(scx, b, x, y) by {
        assert(b.contains_key(x));
        if b[x] != a[x] {
            lemma_switch_case_form(a[x]@, b[x]@);
            lemma_data_word_no_branch(scx, a[x]@, y);
        }
    }
}

/// A listing closed under control flow: each entry is the instruction
/// decoded at its offset (or its switch-case form); the entry points, every
/// branch target and every fall-through inside the code are listed; no case
/// table of a listed switch still starts with an unread data word; nothing
/// is listed that control does not reach from an entry point; every switch
/// case stands in the case table of a listed switch, after cases only; and
/// a run of switch cases goes on over every data word that follows it.
pub open spec fn reachable_listing(scx: &ScxFile, d: Map<usize, IlInstruction>) -> bool {
    &&& forall|k: usize| #[trigger] d.contains_key(k) ==> in_code(scx, k as int) && decoded_at(scx, k, d[k]@)
    &&& forall|i: int|
        0 <= i < spec_entry_candidates(scx).len() ==> d.contains_key(#[trigger] spec_entry_candidates(scx)[i])
    &&& forall|k: usize| #[trigger] d.contains_key(k) ==> branch_targets(scx, d[k]@).subset_of(d.dom())
    &&& forall|k: usize|
        #[trigger] d.contains_key(k) ==> (spec_has_fallthrough(d[k]@) && k < d[k]@.end && d[k]@.end < scx.off1
            ==> d.contains_key(d[k]@.end))
    &&& rewrite_fixpoint(scx, d)
    &&& forall|k: usize| #[trigger] d.contains_key(k) ==> flow_reachable(scx, d, k)
    &&& cases_justified(scx, d)
    &&& case_runs_extend(scx, d)
}

/// The keys whose entries are switch cases.
pub open spec fn case_keys(d: Map<usize, IlInstruction>) -> Set<usize> {
    Set::new(|k: usize| d.contains_key(k) && is_switch_case(d[k]@))
}

proof fn lemma_switch_case_form(inst: SpecInstruction, y: SpecInstruction)
    requires
        switch_case_of(inst) == Some(y),
    ensures
        inst.mnemonic == "data_u16"@,
        is_switch_case(y),
        !is_switch_case(inst),
        y.end == inst.end,
        spec_has_fallthrough(inst),
        spec_has_fallthrough(y),
        !is_jump(y.mnemonic),
        !is_call(y.mnemonic),
        y.mnemonic != "switch_jmp"@,
        switch_case_of(y) is None,
{
    reveal_strlit("data_u16");
    reveal_strlit("switch_case");
    reveal_strlit("switch_jmp");
    reveal_strlit("ret");
    reveal_strlit("break_vm");
    reveal_strlit("set_ctx_flag_and_break");
    reveal_strlit("set_stop_flag");
    reveal_strlit("jmp_table0");
    reveal_strlit("call_table0");
    reveal_strlit("call_script");
    reveal_strlit("jmp_if_expr");
    reveal_strlit("loop_jmp");
    reveal_strlit("cmp_flag_jmp");
    reveal_strlit("call_context");
    reveal_strlit("cond_jmp_adv");
    reveal_strlit("op_0053");
    reveal_strlit("jmp_if_tmp_eq");
    assert("data_u16"@.len() != "switch_case"@.len());
    assert("data_u16"@.len() != "ret"@.len());
    assert("data_u16"@[0] != "break_vm"@[0]);
    assert("data_u16"@.len() != "set_ctx_flag_and_break"@.len());
    assert("data_u16"@.len() != "set_stop_flag"@.len());
    assert("data_u16"@.len() != "jmp_table0"@.len());
    assert("data_u16"@.len() != "call_table0"@.len());
    assert("data_u16"@.len() != "call_script"@.len());
    assert("switch_case"@.len() != "data_u16"@.len());
    assert("switch_case"@.len() != "switch_jmp"@.len());
    assert("switch_case"@.len() != "ret"@.len());
    assert("switch_case"@.len() != "break_vm"@.len());
    assert("switch_case"@.len() != "set_ctx_flag_and_break"@.len());
    assert("switch_case"@.len() != "set_stop_flag"@.len());
    assert("switch_case"@.len() != "jmp_table0"@.len());
    assert("switch_case"@[0] != "call_table0"@[0]);
    assert("switch_case"@[0] != "call_script"@[0]);
    assert("switch_case"@[0] != "jmp_if_expr"@[0]);
    assert("switch_case"@.len() != "loop_jmp"@.len());
    assert("switch_case"@.len() != "cmp_flag_jmp"@.len());
    assert("switch_case"@.len() != "call_context"@.len());
    assert("switch_case"@.len() != "cond_jmp_adv"@.len());
    assert("switch_case"@.len() != "op_0053"@.len());
    assert("switch_case"@.len() != "jmp_if_tmp_eq"@.len());
}

/// Reading data words as switch cases keeps the sweep invariant.
proof fn lemma_rewrite_keeps_sweep(
    scx: &ScxFile,
    pending: Seq<usize>,
    known: Set<usize>,
    a: Map<usize, IlInstruction>,
    b: Map<usize, IlInstruction>,
)
    requires
        sweep_inv(scx, pending, known, a),
        rewritten_from(a, b),
    ensures
        sweep_inv(scx, pending, known, b),
        case_keys(a).subset_of(case_keys(b)),
{
    assert forall|k: usize| #[trigger] b.contains_key(k) implies entry_ok(scx, k, b[k]@, known) && fallthrough_covered(
        scx,
        k,
        b[k]@,
        known,
        b,
    ) by {
        assert(a.contains_key(k));
        if b[k] != a[k] {
            lemma_switch_case_form(a[k]@, b[k]@);
            let d = spec_execute_scx_loop(scx.data@, scx.table0@, k as int, scx.off1 as int);
            if a[k]@ != d {
                lemma_switch_case_form(d, a[k]@);
            }
            assert(collected_targets(scx, b[k]@) =~= Set::empty());
        }
    }
    assert forall|k: usize| case_keys(a).contains(k) implies case_keys(b).contains(k) by {
        if b[k] != a[k] {
            lemma_switch_case_form(a[k]@, b[k]@);
        }
    }
}

/// Queueing new starts keeps the sweep invariant.
proof fn lemma_queue_keeps_sweep(
    scx: &ScxFile,
    k0: Set<usize>,
    pending: Seq<usize>,
    known: Set<usize>,
    d: Map<usize, IlInstruction>,
    added: Set<usize>,
)
    requires
        sweep_inv(scx, Seq::empty(), k0, d),
        queued(Seq::empty(), k0, pending, known, added),
        forall|t: usize| #[trigger] added.contains(t) ==> in_code(scx, t as int),
    ensures
        sweep_inv(scx, pending, known, d),
        pending.len() == 0 ==> added.subset_of(k0) && known == k0,
        pending.len() > 0 ==> known != k0,
{
    if pending.len() > 0 {
        assert(pending.contains(pending[0]));
        assert(known.contains(pending[0]) && !k0.contains(pending[0]));
    }
    assert forall|i: int| 0 <= i < pending.len() implies known.contains(#[trigger] pending[i]) by {
        assert(pending.contains(pending[i]));
    }
    assert forall|k: usize| #[trigger] d.contains_key(k) implies fallthrough_covered(scx, k, d[k]@, known, d) by {
        assert(fallthrough_covered(scx, k, d[k]@, k0, d));
    }
    if pending.len() == 0 {
        assert forall|t: usize| added.contains(t) implies k0.contains(t) by {
            if !k0.contains(t) {
                assert(known.contains(t));
                assert(pending.contains(t));
            }
        }
        assert(known =~= k0);
    }
}

proof fn lemma_case_targets_in_code(scx: &ScxFile, d: Map<usize, IlInstruction>)
    ensures
        forall|t: usize| #[trigger] listed_case_targets(scx, d).contains(t) ==> in_code(scx, t as int),
{
    assert forall|t: usize| #[trigger] listed_case_targets(scx, d).contains(t) implies in_code(scx, t as int) by {
        let k = choose|k: usize| #[trigger] d.contains_key(k) && case_targets(scx, d[k]@).contains(t);
    }
}

proof fn lemma_entries_in_code(scx: &ScxFile)
    ensures
        forall|i: int|
            0 <= i < spec_entry_candidates(scx).len() ==> in_code(scx, #[trigger] spec_entry_candidates(scx)[i] as int),
{
    let s0 = add_entry(Seq::empty(), label_target(scx, scx.table0@, 0));
    let s1 = add_entry(s0, label_target(scx, scx.table0@, 1));
    assert(forall|i: int| 0 <= i < s0.len() ==> in_code(scx, #[trigger] s0[i] as int));
    assert(forall|i: int| 0 <= i < s1.len() ==> in_code(scx, #[trigger] s1[i] as int));
}

proof fn lemma_reach_queue(
    scx: &ScxFile,
    k0: Set<usize>,
    known: Set<usize>,
    d: Map<usize, IlInstruction>,
)
    requires
        reach_inv(scx, k0, d),
        known == k0.union(listed_case_targets(scx, d)),
    ensures
        reach_inv(scx, known, d),
{
    assert forall|x: usize| #[trigger] known.contains(x) implies flow_reachable(scx, d, x) by {
        if !k0.contains(x) {
            let k = choose|k: usize| #[trigger] d.contains_key(k) && case_targets(scx, d[k]@).contains(x);
            assert(branch_targets(scx, d[k]@).contains(x));
            lemma_reach_step(scx, d, k, x);
        }
    }
}

/// When the sweep has nothing left to do and no case table changed, the
/// listing is closed under control flow.
proof fn lemma_listing_done(scx: &ScxFile, known: Set<usize>, d: Map<usize, IlInstruction>)
    requires
        sweep_inv(scx, Seq::empty(), known, d),
        reach_inv(scx, known, d),
        listed_case_targets(scx, d).subset_of(known),
        forall|j: int| 0 <= j < spec_entry_candidates(scx).len() ==> known.contains(#[trigger] spec_entry_candidates(scx)[j]),
        rewrite_fixpoint(scx, d),
        cases_justified(scx, d),
        case_runs_extend(scx, d),
    ensures
        reachable_listing(scx, d),
{
    assert forall|k: usize| #[trigger] d.contains_key(k) implies branch_targets(scx, d[k]@).subset_of(d.dom()) by {
        assert forall|t: usize| branch_targets(scx, d[k]@).contains(t) implies d.dom().contains(t) by {
            if case_targets(scx, d[k]@).contains(t) {
                assert(listed_case_targets(scx, d).contains(t));
            }
            assert(known.contains(t));
        }
    }
    assert forall|k: usize| #[trigger] d.contains_key(k) implies (spec_has_fallthrough(d[k]@) && k < d[k]@.end && d[k]@.end
        < scx.off1 ==> d.contains_key(d[k]@.end)) by {
        assert(fallthrough_covered(scx, k, d[k]@, known, d));
    }
    assert forall|j: int| 0 <= j < spec_entry_candidates(scx).len() implies d.contains_key(
        #[trigger] spec_entry_candidates(scx)[j],
    ) by {
        assert(known.contains(spec_entry_candidates(scx)[j]));
    }
}

/// With nothing left to decode, every fall-through inside the code is
/// listed.
proof fn lemma_sweep_closed(scx: &ScxFile, known: Set<usize>, d: Map<usize, IlInstruction>)
    requires
        sweep_inv(scx, Seq::empty(), known, d),
    ensures
        fallthrough_closed(scx, d),
        forall|k: usize| #[trigger] d.contains_key(k) ==> k < scx.off1,
{
    assert forall|k: usize| #[trigger] d.contains_key(k) implies (spec_has_fallthrough(d[k]@) && k < d[k]@.end && d[k]@.end
        < scx.off1 ==> d.contains_key(d[k]@.end)) by {
        assert(fallthrough_covered(scx, k, d[k]@, known, d));
    }
    assert forall|k: usize| #[trigger] d.contains_key(k) implies k < scx.off1 by {
        assert(entry_ok(scx, k, d[k]@, known));
    }
}

/// Decodes everything reachable from the entry points, reading the case
/// tables of switches as they are found, until nothing new turns up.
#[verifier::rlimit(40)]
#[verifier::spinoff_prover]
fn decode_reachable(scx: &ScxFile) -> (r: BTreeMap<usize, IlInstruction>)
    requires
        scx_wf(scx),
        scx.data@.len() <= isize::MAX,
    ensures
        reachable_listing(scx, r@),
        offsets_match(r@),
{
    let entries = entry_candidates(scx);
    let mut pending: Vec<usize> = Vec::new();
    let mut known: HashSet<usize> = HashSet::new();
    let mut decoded: BTreeMap<usize, IlInstruction> = BTreeMap::new();
    proof {
        lemma_entries_in_code(scx);
    }
    let mut i: usize = 0;
    while i < entries.len()
        invariant
            i <= entries@.len(),
            entries@ == spec_entry_candidates(scx),
            forall|j: int| 0 <= j < entries@.len() ==> in_code(scx, #[trigger] entries@[j] as int),
            pending@ == entries@.subrange(0, i as int),
            forall|x: usize| #[trigger] known@.contains(x) <==> pending@.contains(x),
            decoded@ == Map::<usize, IlInstruction>::empty(),
        decreases entries@.len() - i,
    {
        let e = entries[i];
        known.insert(e);
        pending.push(e);
        assert(entries@.subrange(0, i + 1) =~= entries@.subrange(0, i as int).push(e));
        i = i + 1;
    }
    assert(entries@.subrange(0, entries@.len() as int) =~= entries@);
    assert(cases_justified(scx, decoded@)) by {
        reveal(cases_justified);
    }
    assert(reach_inv(scx, known@, decoded@)) by {
        assert forall|x: usize| #[trigger] known@.contains(x) implies flow_reachable(scx, decoded@, x) by {
            let j = choose|j: int| 0 <= j < pending@.len() && pending@[j] == x;
            assert(entries@[j] == x);
            lemma_reach_entry(scx, decoded@, x);
        }
    }
    assert(sweep_inv(scx, pending@, known@, decoded@)) by {
        assert forall|x: usize| #[trigger] known@.contains(x) implies in_code(scx, x as int) by {
            let j = choose|j: int| 0 <= j < pending@.len() && pending@[j] == x;
        }
        assert forall|i: int| 0 <= i < pending@.len() implies known@.contains(#[trigger] pending@[i]) by {
            assert(pending@.contains(pending@[i]));
        }
    }
    let ghost empty = decoded@;
    decode_pending(scx, &mut pending, &mut known, &mut decoded);
    proof {
        assert forall|k: usize| #[trigger] decoded@.contains_key(k) implies decoded@[k]@.offset == k by {
            assert(!empty.contains_key(k));
        }
    }
    proof {
        lemma_sweep_closed(scx, known@, decoded@);
        lemma_extend_insert(scx, empty, decoded@);
    }
    let ghost size = scx.off1 - SCX_TABLE0_END;
    loop
        invariant
            scx_wf(scx),
            scx.data@.len() <= isize::MAX,
            size == scx.off1 - SCX_TABLE0_END,
            entries@ == spec_entry_candidates(scx),
            forall|j: int| 0 <= j < entries@.len() ==> known@.contains(#[trigger] entries@[j]),
            sweep_inv(scx, pending@, known@, decoded@),
            reach_inv(scx, known@, decoded@),
            cases_justified(scx, decoded@),
            case_runs_extend(scx, decoded@),
            offsets_match(decoded@),
            pending@.len() == 0,
        ensures
            reachable_listing(scx, decoded@),
            offsets_match(decoded@),
        decreases size - known@.len(), size - case_keys(decoded@).len(),
    {
        proof {
            lemma_subset_range(known@, SCX_TABLE0_END as int, scx.off1 as int);
            lemma_subset_range(case_keys(decoded@), SCX_TABLE0_END as int, scx.off1 as int);
        }
        let ghost k0 = known@;
        let ghost d0 = decoded@;
        let ghost c0 = case_keys(decoded@);
        proof {
            assert(pending@ =~= Seq::<usize>::empty());
            lemma_sweep_closed(scx, known@, decoded@);
        }
        let changed = rewrite_switch_tables(scx, &mut decoded);
        proof {
            lemma_closed_rewrite(scx, d0, decoded@);
            lemma_offsets_rewrite(d0, decoded@);
            lemma_rewrite_keeps_sweep(scx, pending@, known@, d0, decoded@);
            lemma_grows_rewrite(scx, d0, decoded@);
            lemma_reach_inv_grows(scx, known@, d0, decoded@);
        }
        pending.clear();
        assert(pending@ =~= Seq::<usize>::empty());
        let ghost d1 = decoded@;
        queue_switch_case_targets(scx, &decoded, &mut pending, &mut known);
        proof {
            lemma_case_targets_in_code(scx, d1);
            lemma_queue_keeps_sweep(scx, k0, pending@, known@, d1, listed_case_targets(scx, d1));
            lemma_reach_queue(scx, k0, known@, d1);
        }
        if pending.len() == 0 && !changed {
            proof {
                assert(listed_case_targets(scx, decoded@).subset_of(known@));
                lemma_listing_done(scx, known@, decoded@);
            }
            break;
        }
        let ghost k1 = known@;
        let ghost did_decode = pending.len() > 0;
        if pending.len() > 0 {
            decode_pending(scx, &mut pending, &mut known, &mut decoded);
            proof {
                assert(pending@ =~= Seq::<usize>::empty());
                lemma_sweep_closed(scx, known@, decoded@);
                lemma_extend_insert(scx, d1, decoded@);
            }
        }
        proof {
            lemma_subset_range(known@, SCX_TABLE0_END as int, scx.off1 as int);
            lemma_subset_range(case_keys(decoded@), SCX_TABLE0_END as int, scx.off1 as int);
            assert(k0.subset_of(k1));
            assert(k1.subset_of(known@));
            if known@ != k0 {
                lemma_strict_subset_len(k0, known@);
            } else {
                assert(k1 =~= k0);
                assert(!did_decode);
                assert(decoded@ == d1);
                assert(changed);
                let k = choose|k: usize|
                    #[trigger] d1.contains_key(k) && !is_switch_case(d0[k]@) && is_switch_case(d1[k]@);
                assert(case_keys(decoded@).contains(k));
                assert(!c0.contains(k));
                lemma_strict_subset_len(c0, case_keys(decoded@));
            }
        }
    }
    decoded
}

/// The first offset the listing starts at: the smallest entry point, or
/// the start of the code when there is none.
pub open spec fn spec_sweep_start(scx: &ScxFile) -> usize {
    let e = spec_entry_candidates(scx);
    if e.len() == 0 {
        SCX_TABLE0_END
    } else {
        choose|m: usize| e.contains(m) && forall|i: int| 0 <= i < e.len() ==> m <= #[trigger] e[i]
    }
}

/// The listing of an SC3 script: its header values and every instruction
/// reachable from its entry points.
pub fn build_scx_document(scx: &ScxFile) -> (r: IlDocument)
    requires
        scx_wf(scx),
        scx.data@.len() <= isize::MAX,
    ensures
        r.kind == IlDocumentKind::Scx,
        r.source_path@ == scx.path@,
        r.size == scx.data@.len(),
        r.off_table1 == scx.off1,
        r.off_table2 == scx.off2,
        r.code_start == SCX_TABLE0_END,
        r.code_end == scx.off1,
        r.sweep_start == spec_sweep_start(scx),
        r.msb_source_set is None,
        r.msb_raw_tail is None,
        reachable_listing(scx, r.instructions@),
        offsets_match(r.instructions@),
{
    let entries = entry_candidates(scx);
    let sweep_start = if entries.len() == 0 {
        scx.code_start()
    } else {
        vec_min(&entries)
    };
    proof {
        if entries@.len() > 0 {
            let e = entries@;
            assert forall|m1: usize, m2: usize|
                (e.contains(m1) && forall|i: int| 0 <= i < e.len() ==> m1 <= #[trigger] e[i]) && (e.contains(m2)
                    && forall|i: int| 0 <= i < e.len() ==> m2 <= #[trigger] e[i]) implies m1 == m2 by {
                let i1 = choose|i: int| 0 <= i < e.len() && e[i] == m1;
                let i2 = choose|i: int| 0 <= i < e.len() && e[i] == m2;
            }
        }
    }
    let decoded = decode_reachable(scx);
    IlDocument {
        kind: IlDocumentKind::Scx,
        source_path: scx.path.clone(),
        size: scx.data.len(),
        off_table1: scx.off1,
        off_table2: scx.off2,
        code_start: scx.code_start(),
        code_end: scx.code_end(),
        sweep_start,
        msb_source_set: None,
        msb_raw_tail: None,
        instructions: decoded,
    }
}

// ── laws ──

/// A word written as `0xNNNN` reads back as the same number.
pub proof fn lemma_u16_literal_round_trip(v: u16)
    ensures
        spec_try_parse_u16_literal(spec_fmt_u16(v)) == Some(v as usize),
{
    let t = spec_fmt_u16(v);
    let h = hex_text(v as nat, 4, true);
    lemma_hex_text_value(v as nat, 4, true);
    assert(t.subrange(2, t.len() as int) =~= h);
    assert(hex_digit_value(h[0]) is Some);
}

/// A label written as `<table>[0xNNNN]`, whatever the table's name, reads
/// back under that name as the same index.
pub proof fn lemma_table_label_round_trip(table: Seq<char>, i: u16)
    ensures
        spec_try_parse_table_label(table.push('[') + spec_fmt_u16(i) + seq![']'], table) == Some(i as usize),
{
    let prefix = table.push('[');
    let v = prefix + spec_fmt_u16(i) + seq![']'];
    assert(v.subrange(0, prefix.len() as int) =~= prefix);
    assert(v.subrange(prefix.len() as int, v.len() - 1) =~= spec_fmt_u16(i));
    lemma_u16_literal_round_trip(i);
}

/// A label written as `table0[0xNNNN]` reads back as the same index: the
/// targets the decoder prints are the labels the sweep follows.
pub proof fn lemma_table0_label_round_trip(i: u16)
    ensures
        spec_try_parse_table_label(spec_fmt_l0(i), "table0"@) == Some(i as usize),
{
    reveal_strlit("table0");
    assert("table0"@.push('[') =~= seq!['t', 'a', 'b', 'l', 'e', '0', '[']);
    lemma_table_label_round_trip("table0"@, i);
}

/// A label written under one table's name does not read as a label of
/// another table whose name has the same length.
pub proof fn lemma_table_label_other_table(written: Seq<char>, read: Seq<char>, i: u16)
    requires
        written.len() == read.len(),
        written != read,
    ensures
        spec_try_parse_table_label(written.push('[') + spec_fmt_u16(i) + seq![']'], read) is None,
{
    let v = written.push('[') + spec_fmt_u16(i) + seq![']'];
    let prefix = read.push('[');
    if seq_starts_with(v, prefix) {
        assert forall|j: int| 0 <= j < written.len() implies written[j] == read[j] by {
            assert(v[j] == written[j]);
            assert(v.subrange(0, prefix.len() as int)[j] == prefix[j]);
        }
        assert(written =~= read);
    }
}

/// A jump label of the first table does not read as a return label, nor a
/// return label as a jump label.
pub proof fn lemma_table0_table2_labels_distinct(i: u16)
    ensures
        spec_try_parse_table_label(spec_fmt_l0(i), "table2"@) is None,
        spec_try_parse_table_label(spec_fmt_l2(i), "table0"@) is None,
{
    reveal_strlit("table0");
    reveal_strlit("table2");
    assert("table0"@[5] != "table2"@[5]);
    assert("table0"@.push('[') =~= seq!['t', 'a', 'b', 'l', 'e', '0', '[']);
    assert("table2"@.push('[') =~= seq!['t', 'a', 'b', 'l', 'e', '2', '[']);
    lemma_table_label_other_table("table0"@, "table2"@, i);
    lemma_table_label_other_table("table2"@, "table0"@, i);
}

/// The same for return labels, `table2[0xNNNN]`.
pub proof fn lemma_table2_label_round_trip(i: u16)
    ensures
        spec_try_parse_table_label(spec_fmt_l2(i), "table2"@) == Some(i as usize),
{
    reveal_strlit("table2");
    assert("table2"@.push('[') =~= seq!['t', 'a', 'b', 'l', 'e', '2', '[']);
    lemma_table_label_round_trip("table2"@, i);
}

/// Two bytes of data read as a switch case jump to the label the word
/// holds.
pub proof fn lemma_data_word_case(k: int, v: u16)
    ensures
        switch_case_of(data_u16_inst(k, v)) == Some(
            SpecInstruction {
                offset: k as usize,
                end: (k + 2) as usize,
                mnemonic: "switch_case"@,
                operands: seq![text_op("target"@, spec_fmt_l0(v))],
                comments: Seq::empty(),
            },
        ),
{
    lemma_u16_literal_round_trip(v);
    assert((v as usize) % 65536 == v);
}


/// The mnemonics that continue at the label their `target` operand names:
/// the jumps, conditional or not, and the calls.
pub open spec fn jumps_to_target(m: Seq<char>) -> bool {
    ||| m == "jmp_table0"@
    ||| m == "jmp_if_expr"@
    ||| m == "jmp_if_tmp_eq"@
    ||| m == "loop_jmp"@
    ||| m == "cmp_flag_jmp"@
    ||| m == "cond_jmp_adv"@
    ||| m == "op_0053"@
    ||| m == "call_table0"@
    ||| m == "call_script"@
    ||| m == "call_context"@
}

/// Every jump in a reachable listing has its target listed: where a listed
/// jump names `table0[i]` and that label points into the code, the
/// instruction at the label is listed too.
pub proof fn lemma_listing_follows_jumps(scx: &ScxFile, d: Map<usize, IlInstruction>, k: usize, i: u16)
    requires
        reachable_listing(scx, d),
        d.contains_key(k),
        jumps_to_target(d[k]@.mnemonic),
        spec_operand_value(d[k]@.operands, "target"@) == Some(spec_fmt_l0(i)),
        (i as int) < scx.table0@.len(),
        SCX_TABLE0_END <= scx.table0@[i as int] < scx.off1,
    ensures
        d.contains_key(scx.table0@[i as int] as usize),
{
    lemma_table0_label_round_trip(i);
    let t = scx.table0@[i as int] as usize;
    assert(is_jump(d[k]@.mnemonic));
    assert(operand_target(scx, d[k]@, "target"@, "table0"@, scx.table0@) == Some(t));
    assert(collected_targets(scx, d[k]@).contains(t));
    assert(branch_targets(scx, d[k]@).contains(t));
}

} // verus!
