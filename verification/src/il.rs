//! The intermediate listing shared by both disassemblers: instructions with
//! named or positional operands, documents keyed by offset, and their text
//! rendering.
use vstd::prelude::*;
use vstd::string::*;
use vstd::std_specs::btree::spec_btree_map_iter;
use vstd::std_specs::iter::IteratorSpec;
use std::collections::BTreeMap;

use crate::expr::{push_expr, spec_render_expr, ExprValue, SpecExprToken};
use crate::order::{enumerates, lemma_increasing_seq_usize, lemma_sorted_keys_is, sorted_keys};
use crate::text::{ascii_lower, dec_text, hex_bytes, hex_text, join, lemma_join_push, push_char, push_dec_u64,
    push_hex, push_hex_bytes, str_eq, to_ascii_lowercase};

verus! {

broadcast use vstd::laws_cmp::group_laws_cmp, vstd::std_specs::btree::group_btree_axioms;

// ── IL value types ──

#[derive(Clone, Debug)]
pub enum IlValue {
    Text(String),
    Expr(ExprValue),
}

pub enum SpecIlValue {
    Text(Seq<char>),
    Expr(Seq<SpecExprToken>),
}

impl View for IlValue {
    type V = SpecIlValue;

    open spec fn view(&self) -> SpecIlValue {
        match self {
            IlValue::Text(t) => SpecIlValue::Text(t@),
            IlValue::Expr(e) => SpecIlValue::Expr(e@),
        }
    }
}

#[derive(Clone, Debug)]
pub struct IlOperand {
    pub name: Option<String>,
    pub value: IlValue,
}

pub struct SpecOperand {
    pub name: Option<Seq<char>>,
    pub value: SpecIlValue,
}

pub open spec fn opt_string_view(s: Option<String>) -> Option<Seq<char>> {
    match s {
        Some(t) => Some(t@),
        None => None,
    }
}

impl View for IlOperand {
    type V = SpecOperand;

    open spec fn view(&self) -> SpecOperand {
        SpecOperand { name: opt_string_view(self.name), value: self.value@ }
    }
}

/// A named text operand.
pub open spec fn text_op(name: Seq<char>, text: Seq<char>) -> SpecOperand {
    SpecOperand { name: Some(name), value: SpecIlValue::Text(text) }
}

/// A named expression operand.
pub open spec fn expr_op(name: Seq<char>, e: Seq<SpecExprToken>) -> SpecOperand {
    SpecOperand { name: Some(name), value: SpecIlValue::Expr(e) }
}

/// A positional expression operand.
pub open spec fn pos_op(e: Seq<SpecExprToken>) -> SpecOperand {
    SpecOperand { name: None, value: SpecIlValue::Expr(e) }
}

/// A positional text operand.
pub open spec fn pos_text_op(text: Seq<char>) -> SpecOperand {
    SpecOperand { name: None, value: SpecIlValue::Text(text) }
}

impl IlOperand {
    pub fn named(name: &str, text: String) -> (r: Self)
        ensures
            r@ == text_op(name@, text@),
    {
        Self { name: Some(to_string_of(name)), value: IlValue::Text(text) }
    }

    pub fn named_expr(name: &str, expr: ExprValue) -> (r: Self)
        ensures
            r@ == expr_op(name@, expr@),
    {
        Self { name: Some(to_string_of(name)), value: IlValue::Expr(expr) }
    }

    pub fn pos_expr(expr: ExprValue) -> (r: Self)
        ensures
            r@ == pos_op(expr@),
    {
        Self { name: None, value: IlValue::Expr(expr) }
    }

    pub fn try_get_text(&self) -> (r: Option<&str>)
        ensures
            match self.value@ {
                SpecIlValue::Text(t) => r is Some && r->0@ == t,
                _ => r is None,
            },
    {
        match &self.value {
            IlValue::Text(t) => Some(t.as_str()),
            _ => None,
        }
    }
}

fn to_string_of(s: &str) -> (r: String)
    ensures
        r@ == s@,
{
    String::from_str(s)
}

// ── IL instruction ──

#[derive(Clone, Debug)]
pub struct IlInstruction {
    pub offset: usize,
    pub end: usize,
    pub mnemonic: String,
    pub operands: Vec<IlOperand>,
    pub comments: Vec<String>,
}

#[verifier::ext_equal]
pub struct SpecInstruction {
    pub offset: usize,
    pub end: usize,
    pub mnemonic: Seq<char>,
    pub operands: Seq<SpecOperand>,
    pub comments: Seq<Seq<char>>,
}

pub open spec fn strings_view(v: Seq<String>) -> Seq<Seq<char>> {
    v.map_values(|s: String| s@)
}

pub open spec fn operands_view(v: Seq<IlOperand>) -> Seq<SpecOperand> {
    v.map_values(|o: IlOperand| o@)
}

/// Appending an operand appends its view.
pub broadcast proof fn lemma_operands_view_push(v: Seq<IlOperand>, x: IlOperand)
    ensures
        #[trigger] operands_view(v.push(x)) == operands_view(v).push(x@),
{
    assert(operands_view(v.push(x)) =~= operands_view(v).push(x@));
}

impl View for IlInstruction {
    type V = SpecInstruction;

    open spec fn view(&self) -> SpecInstruction {
        SpecInstruction {
            offset: self.offset,
            end: self.end,
            mnemonic: self.mnemonic@,
            operands: operands_view(self.operands@),
            comments: strings_view(self.comments@),
        }
    }
}

/// The index of the first operand from `i` on named `name`.
pub open spec fn find_named(ops: Seq<SpecOperand>, name: Seq<char>, i: int) -> Option<int>
    decreases ops.len() - i,
{
    if i < 0 || i >= ops.len() {
        None
    } else if ops[i].name == Some(name) {
        Some(i)
    } else {
        find_named(ops, name, i + 1)
    }
}

/// The text of the first operand named `name`, when that operand is text.
pub open spec fn spec_operand_value(ops: Seq<SpecOperand>, name: Seq<char>) -> Option<Seq<char>> {
    match find_named(ops, name, 0) {
        Some(i) => match ops[i].value {
            SpecIlValue::Text(t) => Some(t),
            _ => None,
        },
        None => None,
    }
}

impl IlInstruction {
    pub fn new(offset: usize, end: usize, mnemonic: &str) -> (r: Self)
        ensures
            r@.offset == offset,
            r@.end == end,
            r@.mnemonic == mnemonic@,
            r@.operands == Seq::<SpecOperand>::empty(),
            r@.comments == Seq::<Seq<char>>::empty(),
    {
        let r = Self {
            offset,
            end,
            mnemonic: to_string_of(mnemonic),
            operands: Vec::new(),
            comments: Vec::new(),
        };
        assert(r@.operands =~= Seq::<SpecOperand>::empty());
        assert(r@.comments =~= Seq::<Seq<char>>::empty());
        r
    }

    pub fn get_operand_value(&self, name: &str) -> (r: Option<&str>)
        ensures
            match spec_operand_value(self@.operands, name@) {
                Some(t) => r is Some && r->0@ == t,
                None => r is None,
            },
    {
        let ghost ops = self@.operands;
        let mut i: usize = 0;
        while i < self.operands.len()
            invariant
                i <= self.operands@.len(),
                ops == self@.operands,
                ops.len() == self.operands@.len(),
                find_named(ops, name@, 0) == find_named(ops, name@, i as int),
            decreases self.operands@.len() - i,
        {
            let hit = match &self.operands[i].name {
                Some(n) => str_eq(n.as_str(), name),
                None => false,
            };
            assert(ops[i as int] == self.operands@[i as int]@);
            if hit {
                return self.operands[i].try_get_text();
            }
            i = i + 1;
        }
        None
    }
}

// ── IL document ──

#[derive(Clone, Copy, Debug, PartialEq, Eq)]
pub enum IlDocumentKind {
    Scx,
    Msb,
}

pub struct IlDocument {
    pub kind: IlDocumentKind,
    pub source_path: String,
    pub size: usize,
    pub off_table1: u32,
    pub off_table2: u32,
    pub code_start: usize,
    pub code_end: usize,
    pub sweep_start: usize,
    pub msb_source_set: Option<String>,
    pub msb_raw_tail: Option<Vec<u8>>,
    pub instructions: BTreeMap<usize, IlInstruction>,
}

// ── emit helpers ──

/// An instruction with the given operands, no comments, and the mnemonic in
/// ASCII lower case.
pub fn emit(offset: usize, end: usize, mnemonic: &str, operands: Vec<IlOperand>) -> (r: IlInstruction)
    ensures
        r@ == (SpecInstruction {
            offset,
            end,
            mnemonic: ascii_lower(mnemonic@),
            operands: operands_view(operands@),
            comments: Seq::empty(),
        }),
{
    let r = IlInstruction {
        offset,
        end,
        mnemonic: to_ascii_lowercase(mnemonic),
        operands,
        comments: Vec::new(),
    };
    assert(r@.comments =~= Seq::<Seq<char>>::empty());
    r
}

// ── text renderer ──

/// ` ; c1 | c2 | ...`, or nothing without comments.
pub open spec fn comments_suffix(comments: Seq<Seq<char>>) -> Seq<char> {
    if comments.len() == 0 {
        Seq::empty()
    } else {
        " ; "@ + join(comments, " | "@)
    }
}

/// `name=value` or `value`, an expression written as `expr(...)`.
pub open spec fn spec_render_operand(op: SpecOperand) -> Seq<char> {
    let value = match op.value {
        SpecIlValue::Text(t) => t,
        SpecIlValue::Expr(e) => spec_render_expr(e),
    };
    match op.name {
        Some(n) => n + seq!['='] + value,
        None => value,
    }
}

/// `mnemonic(op, op, ...)` with the comments after ` ; `; an `expr`
/// instruction holding one positional expression is written as that
/// expression alone.
pub open spec fn spec_render_instruction(inst: SpecInstruction) -> Seq<char> {
    if inst.mnemonic == "expr"@ && inst.operands.len() == 1
        && inst.operands[0].name is None && inst.operands[0].value is Expr {
        spec_render_expr(inst.operands[0].value->Expr_0) + comments_suffix(inst.comments)
    } else {
        inst.mnemonic + seq!['('] + join(
            inst.operands.map_values(|o: SpecOperand| spec_render_operand(o)),
            seq![',', ' '],
        ) + seq![')'] + comments_suffix(inst.comments)
    }
}

pub fn push_joined_strings(out: &mut String, parts: &Vec<String>, sep: &str)
    ensures
        final(out)@ == old(out)@ + join(strings_view(parts@), sep@),
{
    let mut i: usize = 0;
    while i < parts.len()
        invariant
            i <= parts@.len(),
            out@ == old(out)@ + join(strings_view(parts@.subrange(0, i as int)), sep@),
        decreases parts@.len() - i,
    {
        if i > 0 {
            out.append(sep);
        }
        out.append(parts[i].as_str());
        proof {
            let pre = parts@.subrange(0, i as int);
            assert(strings_view(parts@.subrange(0, i + 1)) =~= strings_view(pre).push(parts@[i as int]@));
            lemma_join_push(strings_view(pre), sep@, parts@[i as int]@);
        }
        i = i + 1;
        assert(out@ =~= old(out)@ + join(strings_view(parts@.subrange(0, i as int)), sep@));
    }
    assert(parts@.subrange(0, parts@.len() as int) =~= parts@);
}

fn push_comments(out: &mut String, comments: &Vec<String>)
    ensures
        final(out)@ == old(out)@ + comments_suffix(strings_view(comments@)),
{
    if comments.len() > 0 {
        out.append(" ; ");
        push_joined_strings(out, comments, " | ");
    }
    assert(out@ =~= old(out)@ + comments_suffix(strings_view(comments@)));
}

fn push_operand(out: &mut String, op: &IlOperand)
    ensures
        final(out)@ == old(out)@ + spec_render_operand(op@),
{
    match &op.name {
        Some(n) => {
            out.append(n.as_str());
            push_char(out, '=');
        },
        None => {},
    }
    match &op.value {
        IlValue::Text(t) => {
            out.append(t.as_str());
        },
        IlValue::Expr(e) => {
            push_expr(out, e);
        },
    }
    assert(out@ =~= old(out)@ + spec_render_operand(op@));
}

pub fn render_instruction(inst: &IlInstruction) -> (r: String)
    ensures
        r@ == spec_render_instruction(inst@),
{
    let mut out = String::new();
    if str_eq(inst.mnemonic.as_str(), "expr") && inst.operands.len() == 1 && inst.operands[0].name.is_none() {
        if let IlValue::Expr(ev) = &inst.operands[0].value {
            push_expr(&mut out, ev);
            push_comments(&mut out, &inst.comments);
            assert(out@ =~= spec_render_instruction(inst@));
            return out;
        }
    }
    out.append(inst.mnemonic.as_str());
    push_char(&mut out, '(');
    let ghost f = |o: SpecOperand| spec_render_operand(o);
    let ghost ops = inst@.operands;
    let ghost start = out@;
    let mut i: usize = 0;
    while i < inst.operands.len()
        invariant
            i <= inst.operands@.len(),
            ops == inst@.operands,
            ops.len() == inst.operands@.len(),
            f == (|o: SpecOperand| spec_render_operand(o)),
            out@ == start + join(ops.subrange(0, i as int).map_values(f), seq![',', ' ']),
        decreases inst.operands@.len() - i,
    {
        if i > 0 {
            push_char(&mut out, ',');
            push_char(&mut out, ' ');
        }
        push_operand(&mut out, &inst.operands[i]);
        proof {
            let pre = ops.subrange(0, i as int);
            assert(ops[i as int] == inst.operands@[i as int]@);
            assert(ops.subrange(0, i + 1).map_values(f) =~= pre.map_values(f).push(f(ops[i as int])));
            lemma_join_push(pre.map_values(f), seq![',', ' '], f(ops[i as int]));
        }
        i = i + 1;
        assert(out@ =~= start + join(ops.subrange(0, i as int).map_values(f), seq![',', ' ']));
    }
    assert(ops.subrange(0, ops.len() as int) =~= ops);
    push_char(&mut out, ')');
    push_comments(&mut out, &inst.comments);
    assert(out@ =~= spec_render_instruction(inst@));
    out
}

/// `OOOOOOOO: <instruction>` with the offset in eight upper-case hex digits.
pub open spec fn instruction_line(inst: SpecInstruction) -> Seq<char> {
    hex_text(inst.offset as nat, 8, true) + seq![':', ' '] + spec_render_instruction(inst)
}

/// The listing lines of instructions in order: a blank line before an
/// instruction that starts after the end of the previous one.
pub open spec fn body_lines(insts: Seq<SpecInstruction>) -> Seq<Seq<char>>
    decreases insts.len(),
{
    if insts.len() == 0 {
        Seq::empty()
    } else {
        let inst = insts.last();
        let gap = insts.len() >= 2 && inst.offset > insts[insts.len() - 2].end;
        body_lines(insts.drop_last()) + (if gap {
            seq![Seq::<char>::empty()]
        } else {
            Seq::<Seq<char>>::empty()
        }) + seq![instruction_line(inst)]
    }
}

/// The instructions of the document in increasing order of offset.
pub open spec fn ordered_instructions(m: Map<usize, IlInstruction>) -> Seq<SpecInstruction> {
    sorted_keys(m.dom()).map_values(|k: usize| m[k]@)
}

/// `0x` and upper-case hex digits without padding.
pub open spec fn hex0x(v: nat) -> Seq<char> {
    seq!['0', 'x'] + hex_text(v, 0, true)
}

pub open spec fn scx_header(doc: &IlDocument) -> Seq<Seq<char>> {
    seq![
        "; file="@ + doc.source_path@,
        "; size="@ + dec_text(doc.size as int) + " ("@ + hex0x(doc.size as nat) + ")"@,
        "; magic=SC3\\0"@,
        "; off_table1="@ + hex0x(doc.off_table1 as nat),
        "; off_table2="@ + hex0x(doc.off_table2 as nat),
        "; code_region=["@ + hex0x(doc.code_start as nat) + ", "@ + hex0x(doc.code_end as nat) + ")"@,
        "; sweep_start="@ + hex0x(doc.sweep_start as nat),
        Seq::<char>::empty(),
    ]
}

/// The raw-tail lines of an MES listing: the bytes when at most 32, else the
/// length and the first 32 bytes.
pub open spec fn raw_tail_lines(tail: Option<Vec<u8>>) -> Seq<Seq<char>> {
    match tail {
        Some(t) => if t@.len() == 0 {
            Seq::empty()
        } else if t@.len() <= 0x20 {
            seq!["; raw_tail="@ + hex_bytes(t@)]
        } else {
            seq![
                "; raw_tail_len="@ + hex0x(t@.len()),
                "; raw_tail_preview="@ + hex_bytes(t@.subrange(0, 0x20)) + " ..."@,
            ]
        },
        None => Seq::empty(),
    }
}

pub open spec fn msb_header(doc: &IlDocument) -> Seq<Seq<char>> {
    let count = dec_text(doc.instructions@.dom().len() as int);
    seq![
        "; file="@ + doc.source_path@,
        "; source_set="@ + match doc.msb_source_set {
            Some(s) => s@,
            None => Seq::empty(),
        },
        "; size="@ + dec_text(doc.size as int) + " ("@ + hex0x(doc.size as nat) + ")"@,
        "; magic=MES\\0"@,
        "; version=1"@,
        "; count_field="@ + count,
        "; entry_count="@ + count,
        "; data_offset="@ + hex0x(doc.code_start as nat),
        "; layout=count_field relative start offsets; each message ends at next start or EOF"@,
        "; token_lexer=0x80..0xFE => 4-byte token | 0x00..0x7F => ctrl | 0xFF => end"@,
        "; decode_policy=bn_semantics_conservative"@,
    ] + raw_tail_lines(doc.msb_raw_tail) + seq![Seq::<char>::empty()]
}

/// The whole listing: the header of the document's kind, then the
/// instructions in increasing order of offset.
pub open spec fn spec_render_document(doc: &IlDocument) -> Seq<Seq<char>> {
    (match doc.kind {
        IlDocumentKind::Scx => scx_header(doc),
        IlDocumentKind::Msb => msb_header(doc),
    }) + body_lines(ordered_instructions(doc.instructions@))
}

fn line2(a: &str, b: &str) -> (r: String)
    ensures
        r@ == a@ + b@,
{
    let mut s = String::new();
    s.append(a);
    s.append(b);
    assert(s@ =~= a@ + b@);
    s
}

fn push_hex0x(out: &mut String, v: u64)
    ensures
        final(out)@ == old(out)@ + hex0x(v as nat),
{
    push_char(out, '0');
    push_char(out, 'x');
    push_hex(out, v, 0, true);
    assert(out@ =~= old(out)@ + hex0x(v as nat));
}

fn line_hex(prefix: &str, v: u64) -> (r: String)
    ensures
        r@ == prefix@ + hex0x(v as nat),
{
    let mut s = String::new();
    s.append(prefix);
    push_hex0x(&mut s, v);
    assert(s@ =~= prefix@ + hex0x(v as nat));
    s
}

fn size_line(size: usize) -> (r: String)
    ensures
        r@ == "; size="@ + dec_text(size as int) + " ("@ + hex0x(size as nat) + ")"@,
{
    let mut s = String::new();
    s.append("; size=");
    push_dec_u64(&mut s, size as u64);
    s.append(" (");
    push_hex0x(&mut s, size as u64);
    s.append(")");
    assert(s@ =~= "; size="@ + dec_text(size as int) + " ("@ + hex0x(size as nat) + ")"@);
    s
}

fn push_line(lines: &mut Vec<String>, s: String)
    ensures
        strings_view(final(lines)@) == strings_view(old(lines)@).push(s@),
{
    lines.push(s);
    assert(strings_view(lines@) =~= strings_view(old(lines)@).push(s@));
}

fn render_scx_header(doc: &IlDocument) -> (r: Vec<String>)
    ensures
        strings_view(r@) == scx_header(doc),
{
    let mut lines: Vec<String> = Vec::new();
    push_line(&mut lines, line2("; file=", doc.source_path.as_str()));
    push_line(&mut lines, size_line(doc.size));
    push_line(&mut lines, to_string_of("; magic=SC3\\0"));
    push_line(&mut lines, line_hex("; off_table1=", doc.off_table1 as u64));
    push_line(&mut lines, line_hex("; off_table2=", doc.off_table2 as u64));
    let mut region = String::new();
    region.append("; code_region=[");
    push_hex0x(&mut region, doc.code_start as u64);
    region.append(", ");
    push_hex0x(&mut region, doc.code_end as u64);
    region.append(")");
    push_line(&mut lines, region);
    push_line(&mut lines, line_hex("; sweep_start=", doc.sweep_start as u64));
    push_line(&mut lines, String::new());
    assert(strings_view(lines@) =~= scx_header(doc));
    lines
}

fn render_msb_raw_tail(lines: &mut Vec<String>, raw_tail: &Option<Vec<u8>>)
    ensures
        strings_view(final(lines)@) == strings_view(old(lines)@) + raw_tail_lines(*raw_tail),
{
    match raw_tail {
        Some(tail) => {
            if tail.len() == 0 {
                assert(strings_view(lines@) =~= strings_view(old(lines)@) + raw_tail_lines(*raw_tail));
                return;
            }
            if tail.len() <= 0x20 {
                let mut s = String::new();
                s.append("; raw_tail=");
                push_hex_bytes(&mut s, tail.as_slice());
                push_line(lines, s);
            } else {
                push_line(lines, line_hex("; raw_tail_len=", tail.len() as u64));
                let mut s = String::new();
                s.append("; raw_tail_preview=");
                push_hex_bytes(&mut s, &tail.as_slice()[0..0x20]);
                s.append(" ...");
                push_line(lines, s);
            }
        },
        None => {},
    }
    assert(strings_view(lines@) =~= strings_view(old(lines)@) + raw_tail_lines(*raw_tail));
}

fn render_msb_header(doc: &IlDocument) -> (r: Vec<String>)
    ensures
        strings_view(r@) == msb_header(doc),
{
    let mut lines: Vec<String> = Vec::new();
    push_line(&mut lines, line2("; file=", doc.source_path.as_str()));
    match &doc.msb_source_set {
        Some(s) => push_line(&mut lines, line2("; source_set=", s.as_str())),
        None => push_line(&mut lines, line2("; source_set=", "")),
    }
    push_line(&mut lines, size_line(doc.size));
    push_line(&mut lines, to_string_of("; magic=MES\\0"));
    push_line(&mut lines, to_string_of("; version=1"));
    let count = doc.instructions.len();
    let mut c1 = String::new();
    c1.append("; count_field=");
    push_dec_u64(&mut c1, count as u64);
    push_line(&mut lines, c1);
    let mut c2 = String::new();
    c2.append("; entry_count=");
    push_dec_u64(&mut c2, count as u64);
    push_line(&mut lines, c2);
    push_line(&mut lines, line_hex("; data_offset=", doc.code_start as u64));
    push_line(
        &mut lines,
        to_string_of("; layout=count_field relative start offsets; each message ends at next start or EOF"),
    );
    push_line(
        &mut lines,
        to_string_of("; token_lexer=0x80..0xFE => 4-byte token | 0x00..0x7F => ctrl | 0xFF => end"),
    );
    push_line(&mut lines, to_string_of("; decode_policy=bn_semantics_conservative"));
    proof {
        reveal_strlit("");
    }
    let ghost before_tail = strings_view(lines@);
    render_msb_raw_tail(&mut lines, &doc.msb_raw_tail);
    push_line(&mut lines, String::new());
    assert(strings_view(lines@) =~= msb_header(doc));
    lines
}

#[verifier::rlimit(40)]
#[verifier::spinoff_prover]
pub fn render_document(doc: &IlDocument) -> (r: Vec<String>)
    ensures
        strings_view(r@) == spec_render_document(doc),
        enumerates(sorted_keys(doc.instructions@.dom()), doc.instructions@.dom()),
{
    let mut lines = match doc.kind {
        IlDocumentKind::Scx => render_scx_header(doc),
        IlDocumentKind::Msb => render_msb_header(doc),
    };
    let ghost header = strings_view(lines@);
    let ghost all = spec_btree_map_iter(&doc.instructions).remaining();
    let ghost insts = all.map_values(|kv: (&usize, &IlInstruction)| (*kv.1)@);
    let mut previous_end: Option<usize> = None;
    for kv in it: doc.instructions.iter()
        invariant
            it.seq() == all,
            insts == all.map_values(|kv: (&usize, &IlInstruction)| (*kv.1)@),
            strings_view(lines@) == header + body_lines(insts.subrange(0, it.index())),
            previous_end == (if it.index() == 0 {
                None::<usize>
            } else {
                Some(insts[it.index() - 1].end)
            }),
    {
        let (_off, inst) = kv;
        let ghost k = it.index();
        let ghost before = strings_view(lines@);
        assert(insts[k] == inst@);
        match previous_end {
            Some(prev) => {
                if inst.offset > prev {
                    push_line(&mut lines, String::new());
                }
            },
            None => {},
        }
        let mut line = String::new();
        push_hex(&mut line, inst.offset as u64, 8, true);
        push_char(&mut line, ':');
        push_char(&mut line, ' ');
        let text = render_instruction(inst);
        line.append(text.as_str());
        assert(line@ =~= instruction_line(inst@));
        push_line(&mut lines, line);
        previous_end = Some(inst.end);
        proof {
            let pre = insts.subrange(0, k + 1);
            assert(pre.drop_last() =~= insts.subrange(0, k));
            assert(pre.last() == inst@);
            if k >= 1 {
                assert(pre[pre.len() - 2] == insts[k - 1]);
            }
        }
        assert(strings_view(lines@) =~= header + body_lines(insts.subrange(0, k + 1)));
    }
    proof {
        let ks = all.map_values(|kv: (&usize, &IlInstruction)| *kv.0);
        lemma_increasing_seq_usize(ks);
        assert(ks.to_set() =~= doc.instructions@.dom()) by {
            assert forall|x: usize| ks.to_set().contains(x) implies doc.instructions@.dom().contains(x) by {
                let i = choose|i: int| 0 <= i < ks.len() && ks[i] == x;
                assert(doc.instructions@.contains_key(*all[i].0));
            }
            assert forall|x: usize| doc.instructions@.dom().contains(x) implies ks.to_set().contains(x) by {
                assert(doc.instructions@.contains_key(x));
                assert(all.contains((&x, &doc.instructions@[x])));
                let i = choose|i: int| 0 <= i < all.len() && all[i] == (&x, &doc.instructions@[x]);
                assert(ks[i] == x);
            }
        }
        assert(enumerates(ks, doc.instructions@.dom()));
        lemma_sorted_keys_is(ks, doc.instructions@.dom());
        assert(insts =~= ordered_instructions(doc.instructions@)) by {
            assert forall|i: int| 0 <= i < insts.len() implies insts[i] == ordered_instructions(
                doc.instructions@,
            )[i] by {
                assert(doc.instructions@.contains_key(*all[i].0));
                assert(doc.instructions@[*all[i].0] == *all[i].1);
            }
        }
        assert(insts.subrange(0, insts.len() as int) =~= insts);
    }
    lines
}


/// How many lines the raw tail of an MES listing takes: none without a
/// tail, one for at most 32 bytes, two for more.
pub open spec fn raw_tail_line_count(tail: Option<Vec<u8>>) -> int {
    match tail {
        Some(t) => if t@.len() == 0 {
            0
        } else if t@.len() <= 0x20 {
            1
        } else {
            2
        },
        None => 0,
    }
}

/// How many header lines come before the instructions: eight for an SC3
/// listing, twelve and the raw-tail lines for an MES listing.
pub open spec fn header_line_count(doc: &IlDocument) -> int {
    match doc.kind {
        IlDocumentKind::Scx => 8,
        IlDocumentKind::Msb => 12 + raw_tail_line_count(doc.msb_raw_tail),
    }
}

/// A rendered listing is its header, ending in a blank line, followed by
/// the lines of the instructions in increasing order of offset.
pub proof fn lemma_render_document_layout(doc: &IlDocument)
    ensures
        header_line_count(doc) >= 8,
        spec_render_document(doc).len() == header_line_count(doc) + body_lines(
            ordered_instructions(doc.instructions@),
        ).len(),
        spec_render_document(doc)[header_line_count(doc) - 1] == Seq::<char>::empty(),
        spec_render_document(doc).subrange(header_line_count(doc), spec_render_document(doc).len() as int)
            == body_lines(ordered_instructions(doc.instructions@)),
{
    let h = match doc.kind {
        IlDocumentKind::Scx => scx_header(doc),
        IlDocumentKind::Msb => msb_header(doc),
    };
    assert(h.len() == header_line_count(doc));
    let b = body_lines(ordered_instructions(doc.instructions@));
    assert(spec_render_document(doc) == h + b);
    assert((h + b).subrange(h.len() as int, (h + b).len() as int) =~= b);
}

} // verus!
