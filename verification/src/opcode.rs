//! The operand layouts of the SC3 opcodes: one decoder per opcode table,
//! each stated as a function of the bytes after the two opcode bytes.
use vstd::prelude::*;

use crate::expr::{read_expr_value, render_expr, spec_read_expr_value, spec_render_expr, ExprValue, SpecExprToken};
use crate::format::{
    decode_u16, fmt_l0, fmt_l1, fmt_l2, fmt_u16, format_hex, hex8, read_cstring, read_u16_le, spec_decode_u16,
    spec_fmt_l0, spec_fmt_l1, spec_fmt_l2, spec_fmt_u16, spec_fmt_u8, spec_read_cstring, spec_u16_le,
};
use crate::il::{emit, expr_op, lemma_operands_view_push, operands_view, pos_op, text_op, IlInstruction, IlOperand, SpecInstruction, SpecOperand};
use crate::scx::ScxFile;
use crate::text::{ascii_lower, dec_text, hex_bytes, hex_text, push_char, push_dec, push_hex, to_ascii_lowercase, to_string};

verus! {

broadcast use lemma_operands_view_push;

// ── the decoding context ──

/// What a decoder reads: the script bytes, the first label table, the
/// offset of the opcode and the position reading must stay below.
pub struct OpCtx {
    pub data: Seq<u8>,
    pub table0: Seq<u32>,
    pub offset: int,
    pub max: int,
}

impl OpCtx {
    /// The opcode table, the first byte without its top bit.
    pub open spec fn major(self) -> u8 {
        (self.data[self.offset] % 128) as u8
    }

    /// The opcode within its table, the second byte.
    pub open spec fn index(self) -> u8 {
        self.data[self.offset + 1]
    }

    /// The position of the first operand byte.
    pub open spec fn start(self) -> int {
        self.offset + 2
    }
}

/// The next byte and the position after it.
#[verifier::opaque]
pub open spec fn sp_byte(c: OpCtx, p: int) -> (Option<u8>, int) {
    if p >= c.max {
        (None, p)
    } else {
        (Some(c.data[p]), p + 1)
    }
}

#[verifier::opaque]
pub open spec fn sp_expr(c: OpCtx, p: int) -> (Seq<SpecExprToken>, int) {
    spec_read_expr_value(c.data, p, c.max)
}

#[verifier::opaque]
pub open spec fn sp_u16(c: OpCtx, p: int) -> (Option<u16>, int) {
    spec_decode_u16(c.data, p, c.max)
}

#[verifier::opaque]
pub open spec fn sp_cstring(c: OpCtx, p: int) -> (Seq<char>, int) {
    spec_read_cstring(c.data, p, c.max)
}

/// Up to `len` bytes in lower-case hex, and the position after them.
#[verifier::opaque]
pub open spec fn sp_raw(c: OpCtx, p: int, len: int) -> (Seq<char>, int) {
    let actual = if len <= c.max - p {
        len
    } else {
        c.max - p
    };
    (hex_bytes(c.data.subrange(p, p + actual)), p + actual)
}

/// `OP_MMII` with the opcode's two bytes in upper-case hex.
pub open spec fn op_name(c: OpCtx) -> Seq<char> {
    seq!['O', 'P', '_'] + hex_text(c.major() as nat, 2, true) + hex_text(c.index() as nat, 2, true)
}

pub open spec fn low_name(c: OpCtx) -> Seq<char> {
    ascii_lower(op_name(c))
}

/// The instruction from the opcode to `p`.
pub open spec fn sp_fin(c: OpCtx, p: int, mnemonic: Seq<char>, ops: Seq<SpecOperand>) -> SpecInstruction {
    SpecInstruction {
        offset: c.offset as usize,
        end: p as usize,
        mnemonic: ascii_lower(mnemonic),
        operands: ops,
        comments: Seq::empty(),
    }
}

pub open spec fn sp_fin0(c: OpCtx, p: int, mnemonic: Seq<char>) -> SpecInstruction {
    sp_fin(c, p, mnemonic, Seq::empty())
}

pub open spec fn tx(name: Seq<char>, text: Seq<char>) -> SpecOperand {
    text_op(name, text)
}

pub open spec fn ex(name: Seq<char>, e: Seq<SpecExprToken>) -> SpecOperand {
    expr_op(name, e)
}

pub open spec fn px(e: Seq<SpecExprToken>) -> SpecOperand {
    pos_op(e)
}

/// A named byte in `0xNN` form.
pub open spec fn hx(name: Seq<char>, b: u8) -> SpecOperand {
    text_op(name, spec_fmt_u8(b))
}

/// The marker of an instruction cut short by the end of the input.
pub open spec fn tr() -> SpecOperand {
    text_op("trunc"@, "1"@)
}

pub open spec fn sp_trunc(c: OpCtx, p: int, mnemonic: Seq<char>) -> SpecInstruction {
    sp_fin(c, p, mnemonic, seq![tr()])
}

pub open spec fn sp_mode(c: OpCtx, p: int, mnemonic: Seq<char>, m: u8) -> SpecInstruction {
    sp_fin(c, p, mnemonic, seq![hx("mode"@, m)])
}

pub open spec fn sp_subcmd(c: OpCtx, p: int, mnemonic: Seq<char>, sc: u8) -> SpecInstruction {
    sp_fin(c, p, mnemonic, seq![hx("subcmd"@, sc)])
}

/// One byte, then the instruction with it as `mode`; cut short without it.
pub open spec fn sp_mode_op(c: OpCtx, p: int, mnemonic: Seq<char>) -> SpecInstruction {
    match sp_byte(c, p) {
        (Some(m), p1) => sp_mode(c, p1, mnemonic, m),
        (None, _) => sp_trunc(c, p, mnemonic),
    }
}

/// One byte, then the instruction with it as `subcmd`; cut short without it.
pub open spec fn sp_subcmd_op(c: OpCtx, p: int, mnemonic: Seq<char>) -> SpecInstruction {
    match sp_byte(c, p) {
        (Some(sc), p1) => sp_subcmd(c, p1, mnemonic, sc),
        (None, _) => sp_trunc(c, p, mnemonic),
    }
}

// ── the decoding state ──

struct St<'a> {
    scx: &'a ScxFile,
    offset: usize,
    max: usize,
    major: u8,
    opcode_id: u8,
    p: usize,
}

impl<'a> St<'a> {
    spec fn ctx(self) -> OpCtx {
        OpCtx { data: self.scx.data@, table0: self.scx.table0@, offset: self.offset as int, max: self.max as int }
    }

    spec fn ok(self) -> bool {
        &&& self.max <= self.scx.data@.len() <= isize::MAX
        &&& self.offset + 1 < self.scx.data@.len()
        &&& self.offset <= self.max
        &&& self.major == self.ctx().major()
        &&& self.opcode_id == self.ctx().index()
        &&& self.p <= self.max + 2
        &&& self.p >= self.offset + 2
        &&& self.offset + 2 <= self.max ==> self.p <= self.max
    }

    /// Everything but the position is kept.
    spec fn same(self, other: Self) -> bool {
        &&& self.scx == other.scx
        &&& self.offset == other.offset
        &&& self.max == other.max
        &&& self.major == other.major
        &&& self.opcode_id == other.opcode_id
    }

    fn new(scx: &'a ScxFile, offset: usize, max: usize) -> (r: Self)
        requires
            offset <= max <= scx.data@.len() <= isize::MAX,
            offset + 1 < scx.data@.len(),
        ensures
            r.ok(),
            r.scx == scx,
            r.offset == offset,
            r.max == max,
            r.p == offset + 2,
    {
        let major = scx.data[offset] % 128;
        let index = scx.data[offset + 1];
        St { scx, offset, max, major, opcode_id: index, p: offset + 2 }
    }

    fn byte(&mut self) -> (r: Option<u8>)
        requires
            old(self).ok(),
        ensures
            final(self).ok(),
            final(self).same(*old(self)),
            (r, final(self).p as int) == sp_byte(old(self).ctx(), old(self).p as int),
            r is None ==> final(self).p == old(self).p,
            r is Some ==> final(self).p <= final(self).max,
            old(self).p < old(self).max ==> r is Some,
    {
        proof {
            reveal(sp_byte);
        }
        if self.p >= self.max {
            None
        } else {
            let b = self.scx.data[self.p];
            self.p = self.p + 1;
            Some(b)
        }
    }

    fn expr(&mut self) -> (r: ExprValue)
        requires
            old(self).ok(),
        ensures
            final(self).ok(),
            final(self).same(*old(self)),
            (r@, final(self).p as int) == sp_expr(old(self).ctx(), old(self).p as int),
    {
        proof {
            reveal(sp_expr);
        }
        let (e, next) = read_expr_value(self.scx.data.as_slice(), self.p, self.max);
        self.p = next;
        e
    }

    fn u16_val(&mut self) -> (r: Option<u16>)
        requires
            old(self).ok(),
        ensures
            final(self).ok(),
            final(self).same(*old(self)),
            (r, final(self).p as int) == sp_u16(old(self).ctx(), old(self).p as int),
            r is None ==> final(self).p == old(self).p,
            r is Some ==> final(self).p <= final(self).max,
    {
        proof {
            reveal(sp_u16);
        }
        let (v, next) = decode_u16(self.scx.data.as_slice(), self.p, self.max);
        self.p = next;
        v
    }

    fn cstring(&mut self) -> (r: String)
        requires
            old(self).ok(),
            old(self).p <= old(self).max,
        ensures
            final(self).ok(),
            final(self).same(*old(self)),
            (r@, final(self).p as int) == sp_cstring(old(self).ctx(), old(self).p as int),
    {
        proof {
            reveal(sp_cstring);
        }
        let (s, next) = read_cstring(self.scx.data.as_slice(), self.p, self.max);
        self.p = next;
        s
    }

    fn raw_bytes(&mut self, len: usize) -> (r: String)
        requires
            old(self).ok(),
            old(self).p <= old(self).max,
        ensures
            final(self).ok(),
            final(self).same(*old(self)),
            (r@, final(self).p as int) == sp_raw(old(self).ctx(), old(self).p as int, len as int),
    {
        proof {
            reveal(sp_raw);
        }
        let actual = if len <= self.max - self.p {
            len
        } else {
            self.max - self.p
        };
        let d = self.scx.data.as_slice();
        let s = format_hex(&d[self.p..self.p + actual]);
        self.p = self.p + actual;
        s
    }

    /// `OP_MMII` in lower case.
    fn low_name(&self) -> (r: String)
        requires
            self.ok(),
        ensures
            r@ == low_name(self.ctx()),
    {
        let mut s = String::new();
        push_char(&mut s, 'O');
        push_char(&mut s, 'P');
        push_char(&mut s, '_');
        push_hex(&mut s, self.major as u64, 2, true);
        push_hex(&mut s, self.opcode_id as u64, 2, true);
        assert(s@ =~= op_name(self.ctx()));
        to_ascii_lowercase(s.as_str())
    }

    fn fin(&self, mnemonic: &str, ops: Vec<IlOperand>) -> (r: IlInstruction)
        requires
            self.ok(),
        ensures
            r.end >= self.offset + 2,
            r@ == sp_fin(self.ctx(), self.p as int, mnemonic@, operands_view(ops@)),
    {
        emit(self.offset, self.p, mnemonic, ops)
    }

    fn fin0(&self, mnemonic: &str) -> (r: IlInstruction)
        requires
            self.ok(),
        ensures
            r.end >= self.offset + 2,
            r@ == sp_fin0(self.ctx(), self.p as int, mnemonic@),
    {
        let r = emit(self.offset, self.p, mnemonic, Vec::new());
        assert(r@.operands =~= Seq::<SpecOperand>::empty());
        r
    }

    fn stub(&self) -> (r: IlInstruction)
        requires
            self.ok(),
        ensures
            r.end >= self.offset + 2,
            r@ == sp_fin0(self.ctx(), self.p as int, low_name(self.ctx())),
    {
        let nm = self.low_name();
        self.fin0(nm.as_str())
    }

    fn trunc(&self, mnemonic: &str) -> (r: IlInstruction)
        requires
            self.ok(),
        ensures
            r.end >= self.offset + 2,
            r@ == sp_trunc(self.ctx(), self.p as int, mnemonic@),
    {
        self.fin(mnemonic, vec![trunc_op()])
    }

    fn mode(&self, mnemonic: &str, m: u8) -> (r: IlInstruction)
        requires
            self.ok(),
        ensures
            r.end >= self.offset + 2,
            r@ == sp_mode(self.ctx(), self.p as int, mnemonic@, m),
    {
        self.fin(mnemonic, vec![n("mode", hex8(m))])
    }

    fn subcmd(&self, mnemonic: &str, sc: u8) -> (r: IlInstruction)
        requires
            self.ok(),
        ensures
            r.end >= self.offset + 2,
            r@ == sp_subcmd(self.ctx(), self.p as int, mnemonic@, sc),
    {
        self.fin(mnemonic, vec![n("subcmd", hex8(sc))])
    }

    /// A mode byte and nothing else.
    fn mode_op(&mut self, mnemonic: &str) -> (r: IlInstruction)
        requires
            old(self).ok(),
        ensures
            final(self).ok(),
            final(self).same(*old(self)),
            final(self).p == r.end,
            r.end >= old(self).offset + 2,
            r@ == sp_mode_op(old(self).ctx(), old(self).p as int, mnemonic@),
    {
        match self.byte() {
            Some(m) => self.mode(mnemonic, m),
            None => self.trunc(mnemonic),
        }
    }

    /// A sub-command byte and nothing else.
    fn subcmd_op(&mut self, mnemonic: &str) -> (r: IlInstruction)
        requires
            old(self).ok(),
        ensures
            final(self).ok(),
            final(self).same(*old(self)),
            final(self).p == r.end,
            r.end >= old(self).offset + 2,
            r@ == sp_subcmd_op(old(self).ctx(), old(self).p as int, mnemonic@),
    {
        match self.byte() {
            Some(sc) => self.subcmd(mnemonic, sc),
            None => self.trunc(mnemonic),
        }
    }
}

// ── operand shorthands ──

pub fn n(name: &str, val: String) -> (r: IlOperand)
    ensures
        r@ == text_op(name@, val@),
{
    IlOperand::named(name, val)
}

pub fn ne(name: &str, val: ExprValue) -> (r: IlOperand)
    ensures
        r@ == expr_op(name@, val@),
{
    IlOperand::named_expr(name, val)
}

pub fn pe(val: ExprValue) -> (r: IlOperand)
    ensures
        r@ == pos_op(val@),
{
    IlOperand::pos_expr(val)
}

fn trunc_op() -> (r: IlOperand)
    ensures
        r@ == tr(),
{
    n("trunc", to_string("1"))
}

// ── shared operand shapes ──

/// `argN`.
pub open spec fn arg_name(i: int) -> Seq<char> {
    "arg"@ + dec_text(i)
}

/// Named expressions `arg{i}` .. `arg{k-1}`, and the position after them.
pub open spec fn sp_args(c: OpCtx, p: int, i: int, k: int) -> (Seq<SpecOperand>, int)
    decreases k - i,
{
    if i >= k {
        (Seq::empty(), p)
    } else {
        let (e, p1) = sp_expr(c, p);
        let (rest, p2) = sp_args(c, p1, i + 1, k);
        (seq![ex(arg_name(i), e)] + rest, p2)
    }
}

/// The operands `ops` followed by `k` named expressions.
pub open spec fn sp_fin_args(c: OpCtx, p: int, mnemonic: Seq<char>, ops: Seq<SpecOperand>, k: int) -> SpecInstruction {
    let (args, p1) = sp_args(c, p, 0, k);
    sp_fin(c, p1, mnemonic, ops + args)
}

/// A byte named `label`, then `k` named expressions; cut short without the
/// byte.
pub open spec fn sp_byte_args(c: OpCtx, p: int, mnemonic: Seq<char>, label: Seq<char>, k: int) -> SpecInstruction {
    match sp_byte(c, p) {
        (Some(b), p1) => sp_fin_args(c, p1, mnemonic, seq![hx(label, b)], k),
        (None, _) => sp_trunc(c, p, mnemonic),
    }
}

pub open spec fn quoted(t: Seq<char>) -> Seq<char> {
    seq!['"'] + t + seq!['"']
}

/// `peek_expr_text_id(<expression>)`.
pub open spec fn peek_text(e: Seq<SpecExprToken>) -> Seq<char> {
    "peek_expr_text_id("@ + spec_render_expr(e) + ")"@
}

fn arg_label(i: usize) -> (r: String)
    requires
        i < 100,
    ensures
        r@ == arg_name(i as int),
{
    let mut s = to_string("arg");
    push_dec(&mut s, i as i64);
    s
}

fn quote(t: String) -> (r: String)
    ensures
        r@ == quoted(t@),
{
    let mut q = String::new();
    push_char(&mut q, '"');
    q.append(t.as_str());
    push_char(&mut q, '"');
    assert(q@ =~= quoted(t@));
    q
}

fn dec_u8(v: u8) -> (r: String)
    ensures
        r@ == dec_text(v as int),
{
    let mut s = String::new();
    push_dec(&mut s, v as i64);
    s
}

fn dec_i64(v: i64) -> (r: String)
    ensures
        r@ == dec_text(v as int),
{
    let mut s = String::new();
    push_dec(&mut s, v);
    s
}

fn peek_label(key: &ExprValue) -> (r: String)
    ensures
        r@ == peek_text(key@),
{
    let mut s = to_string("peek_expr_text_id(");
    let body = render_expr(key);
    s.append(body.as_str());
    s.append(")");
    assert(s@ =~= peek_text(key@));
    s
}

impl<'a> St<'a> {
    /// Appends the named expressions `arg{i}` .. `arg{k-1}` to `ops`.
    fn push_args(&mut self, ops: &mut Vec<IlOperand>, i: usize, k: usize)
        requires
            old(self).ok(),
            k < 100,
        ensures
            final(self).ok(),
            final(self).same(*old(self)),
            ({
                let a = sp_args(old(self).ctx(), old(self).p as int, i as int, k as int);
                operands_view(final(ops)@) == operands_view(old(ops)@) + a.0 && final(self).p == a.1
            }),
    {
        let ghost c = self.ctx();
        let ghost p0 = self.p as int;
        let ghost pre = operands_view(ops@);
        let mut j: usize = i;
        assert(pre + Seq::<SpecOperand>::empty() =~= pre);
        while j < k
            invariant
                self.ok(),
                self.ctx() == c,
                self.same(*old(self)),
                j >= i || j >= k,
                k < 100,
                sp_args(c, p0, i as int, k as int) == ({
                    let rest = sp_args(c, self.p as int, j as int, k as int);
                    (operands_view(ops@).subrange(pre.len() as int, operands_view(ops@).len() as int) + rest.0, rest.1)
                }),
                operands_view(ops@).subrange(0, pre.len() as int) == pre,
                pre.len() <= ops@.len(),
            decreases k - j,
        {
            let ghost before = operands_view(ops@);
            let name = arg_label(j);
            let e = self.expr();
            ops.push(ne(name.as_str(), e));
            assert(operands_view(ops@).subrange(0, pre.len() as int) =~= pre);
            assert(operands_view(ops@).subrange(pre.len() as int, operands_view(ops@).len() as int) =~= before.subrange(
                pre.len() as int,
                before.len() as int,
            ).push(ex(arg_name(j as int), e@)));
            j = j + 1;
        }
        assert(operands_view(ops@) =~= pre + operands_view(ops@).subrange(pre.len() as int, operands_view(ops@).len() as int));
    }

    /// Appends `k` named expressions to `ops` and ends the instruction.
    fn fin_args(&mut self, mnemonic: &str, ops: Vec<IlOperand>, k: usize) -> (r: IlInstruction)
        requires
            old(self).ok(),
            k < 100,
        ensures
            final(self).ok(),
            final(self).same(*old(self)),
            final(self).p == r.end,
            r.end >= old(self).offset + 2,
            r@ == sp_fin_args(old(self).ctx(), old(self).p as int, mnemonic@, operands_view(ops@), k as int),
    {
        let ghost c = self.ctx();
        let ghost p0 = self.p as int;
        let ghost pre = operands_view(ops@);
        let mut ops = ops;
        let mut i: usize = 0;
        while i < k
            invariant
                self.ok(),
                self.ctx() == c,
                self.same(*old(self)),
                i <= k < 100,
                sp_args(c, p0, 0, k as int) == ({
                    let rest = sp_args(c, self.p as int, i as int, k as int);
                    (operands_view(ops@).subrange(pre.len() as int, operands_view(ops@).len() as int) + rest.0, rest.1)
                }),
                operands_view(ops@).subrange(0, pre.len() as int) == pre,
                pre.len() <= ops@.len(),
            decreases k - i,
        {
            let ghost before = operands_view(ops@);
            let name = arg_label(i);
            let e = self.expr();
            ops.push(ne(name.as_str(), e));
            assert(operands_view(ops@) =~= before.push(ops@[ops@.len() - 1]@));
            assert(operands_view(ops@).subrange(0, pre.len() as int) =~= pre);
            assert(operands_view(ops@).subrange(pre.len() as int, operands_view(ops@).len() as int) =~= before.subrange(
                pre.len() as int,
                before.len() as int,
            ).push(ex(arg_name(i as int), e@)));
            i = i + 1;
        }
        assert(operands_view(ops@) =~= pre + operands_view(ops@).subrange(pre.len() as int, operands_view(ops@).len() as int));
        self.fin(mnemonic, ops)
    }

    fn args_op(&mut self, mnemonic: &str, k: usize) -> (r: IlInstruction)
        requires
            old(self).ok(),
            k < 100,
        ensures
            final(self).ok(),
            final(self).same(*old(self)),
            final(self).p == r.end,
            r.end >= old(self).offset + 2,
            r@ == sp_fin_args(old(self).ctx(), old(self).p as int, mnemonic@, Seq::empty(), k as int),
    {
        let ops: Vec<IlOperand> = Vec::new();
        assert(operands_view(ops@) =~= Seq::<SpecOperand>::empty());
        self.fin_args(mnemonic, ops, k)
    }

    /// A byte named `label`, then `k` named expressions.
    fn byte_args(&mut self, mnemonic: &str, label: &str, k: usize) -> (r: IlInstruction)
        requires
            old(self).ok(),
            k < 100,
        ensures
            final(self).ok(),
            final(self).same(*old(self)),
            final(self).p == r.end,
            r.end >= old(self).offset + 2,
            r@ == sp_byte_args(old(self).ctx(), old(self).p as int, mnemonic@, label@, k as int),
    {
        match self.byte() {
            Some(b) => self.fin_args(mnemonic, vec![n(label, hex8(b))], k),
            None => self.trunc(mnemonic),
        }
    }
}

// ── Table 00 ──

/// Table 00, opcodes 00 to 0F.
pub open spec fn spec_t00_a(c: OpCtx) -> Option<SpecInstruction> {
    let p = c.start();
    match c.index() {
        0x00 => Some(sp_fin0(c, p, "break_vm"@)),
        0x01 => Some(
            match sp_byte(c, p) {
                (None, _) => sp_trunc(c, p, "call_context"@),
                (Some(sub), p1) => {
                    let (slot, p2) = sp_expr(c, p1);
                    let (script, p3) = sp_expr(c, p2);
                    let head = seq![hx("sub"@, sub), ex("slot"@, slot), ex("script"@, script)];
                    match sp_u16(c, p3) {
                        (None, p4) => sp_fin(c, p4, "call_context"@, head.push(tr())),
                        (Some(t), p4) => if sub >= 0x80 {
                            let (name, p5) = sp_cstring(c, p4);
                            sp_fin(
                                c,
                                p5,
                                "call_context"@,
                                head.push(tx("target"@, spec_fmt_l0(t))).push(tx("name"@, quoted(name))),
                            )
                        } else {
                            sp_fin(c, p4, "call_context"@, head.push(tx("target"@, spec_fmt_l0(t))))
                        },
                    }
                },
            },
        ),
        0x02 => {
            let (e, p1) = sp_expr(c, p);
            Some(sp_fin(c, p1, "free_context_by_expr"@, seq![px(e)]))
        },
        0x03 => Some(sp_fin0(c, p, "set_stop_flag"@)),
        0x04 => Some(
            match sp_byte(c, p) {
                (None, _) => sp_trunc(c, p, "load_script_async"@),
                (Some(m), p1) => {
                    let (a0, p2) = sp_expr(c, p1);
                    let (a1, p3) = sp_expr(c, p2);
                    sp_fin(c, p3, "load_script_async"@, seq![hx("mode"@, m), px(a0), px(a1)])
                },
            },
        ),
        0x05 => {
            let (e, p1) = sp_expr(c, p);
            Some(sp_fin(c, p1, "wait_expr"@, seq![px(e)]))
        },
        0x06 => Some(sp_fin0(c, p, "set_ctx_flag_and_break"@)),
        0x07 => Some(
            match sp_u16(c, p) {
                (None, _) => sp_trunc(c, p, "jmp_table0"@),
                (Some(t), p1) => sp_fin(c, p1, "jmp_table0"@, seq![tx("target"@, spec_fmt_l0(t))]),
            },
        ),
        0x08 => {
            let (sel, p1) = sp_expr(c, p);
            Some(
                match sp_u16(c, p1) {
                    (None, p2) => sp_fin(c, p2, "switch_jmp"@, seq![ex("selector"@, sel), tr()]),
                    (Some(tb), p2) => {
                        let base = seq![ex("selector"@, sel), tx("table_base"@, spec_fmt_l0(tb))];
                        match switch_case_offset(c, sel, tb) {
                            Some(case_off) => sp_fin(
                                c,
                                p2,
                                "switch_jmp"@,
                                base.push(tx("case_target"@, spec_fmt_l0(spec_u16_le(c.data, case_off)))),
                            ),
                            None => sp_fin(c, p2, "switch_jmp"@, base),
                        }
                    },
                },
            )
        },
        0x09 => Some(sp_fin0(c, p, low_name(c))),
        0x0A => Some(
            match sp_byte(c, p) {
                (None, _) => sp_trunc(c, p, "jmp_if_expr"@),
                (Some(sense), p1) => {
                    let (cond, p2) = sp_expr(c, p1);
                    match sp_u16(c, p2) {
                        (None, p3) => sp_fin(c, p3, "jmp_if_expr"@, seq![hx("sense"@, sense), px(cond), tr()]),
                        (Some(t), p3) => sp_fin(
                            c,
                            p3,
                            "jmp_if_expr"@,
                            seq![hx("sense"@, sense), px(cond), tx("target"@, spec_fmt_l0(t))],
                        ),
                    }
                },
            },
        ),
        0x0B => Some(
            match sp_u16(c, p) {
                (None, _) => sp_trunc(c, p, "call_table0"@),
                (Some(t), p1) => match sp_u16(c, p1) {
                    (None, _) => sp_trunc(c, p1, "call_table0"@),
                    (Some(ret), p2) => sp_fin(
                        c,
                        p2,
                        "call_table0"@,
                        seq![tx("target"@, spec_fmt_l0(t)), tx("ret"@, spec_fmt_l2(ret))],
                    ),
                },
            },
        ),
        0x0C => {
            let (e, p1) = sp_expr(c, p);
            Some(
                match sp_u16(c, p1) {
                    (None, p2) => sp_fin(c, p2, "op_000c"@, seq![ex("arg0"@, e), tr()]),
                    (Some(a1), p2) => sp_fin(c, p2, "op_000c"@, seq![ex("arg0"@, e), tx("arg1"@, spec_fmt_u16(a1))]),
                },
            )
        },
        0x0D => {
            let (script, p1) = sp_expr(c, p);
            Some(
                match sp_u16(c, p1) {
                    (None, p2) => sp_fin(c, p2, "call_script"@, seq![ex("script"@, script), tr()]),
                    (Some(t), p2) => match sp_u16(c, p2) {
                        (None, p3) => sp_fin(c, p3, "call_script"@, seq![ex("script"@, script), tr()]),
                        (Some(ret), p3) => sp_fin(
                            c,
                            p3,
                            "call_script"@,
                            seq![ex("script"@, script), tx("target"@, spec_fmt_l0(t)), tx("ret"@, spec_fmt_l2(ret))],
                        ),
                    },
                },
            )
        },
        0x0E => Some(sp_fin0(c, p, "ret"@)),
        0x0F => Some(
            match sp_u16(c, p) {
                (None, _) => sp_trunc(c, p, "loop_jmp"@),
                (Some(cid), p1) => match sp_u16(c, p1) {
                    (None, _) => sp_trunc(c, p1, "loop_jmp"@),
                    (Some(t), p2) => {
                        let (cnt, p3) = sp_expr(c, p2);
                        sp_fin(
                            c,
                            p3,
                            "loop_jmp"@,
                            seq![tx("counter"@, spec_fmt_u16(cid)), tx("target"@, spec_fmt_l0(t)), ex("count"@, cnt)],
                        )
                    },
                },
            },
        ),
        _ => None,
    }
}

/// The position of the case label a switch with an immediate selector
/// reads: entry `sel` of the word table at label `tb`, when it lies before
/// the end of the input.
pub open spec fn switch_case_offset(c: OpCtx, sel: Seq<SpecExprToken>, tb: u16) -> Option<int> {
    if sel.len() == 1 && sel[0] is Immediate && sel[0]->Immediate_0 >= 0 && (tb as int) < c.table0.len() {
        let case_off = c.table0[tb as int] + 2 * sel[0]->Immediate_0;
        if case_off + 2 <= c.max {
            Some(case_off)
        } else {
            None
        }
    } else {
        None
    }
}

#[verifier::rlimit(100)]
#[verifier::spinoff_prover]
fn t00_a(s: &mut St) -> (r: Option<IlInstruction>)
    requires
        old(s).ok(),
        old(s).p == old(s).offset + 2,
    ensures
        final(s).ok(),
        final(s).same(*old(s)),
        r is Some ==> final(s).p == r->0.end,
        r is Some ==> r->0.end >= old(s).offset + 2,
        r is Some <==> spec_t00_a(old(s).ctx()) is Some,
        r is Some ==> r->0@ == spec_t00_a(old(s).ctx())->0,
{
    match s.opcode_id {
        0x00 => Some(s.fin0("break_vm")),
        0x01 => {
            let subcmd = match s.byte() {
                Some(b) => b,
                None => {
                    return Some(s.trunc("call_context"));
                },
            };
            let slot = s.expr();
            let script = s.expr();
            let mut ops = vec![n("sub", hex8(subcmd)), ne("slot", slot), ne("script", script)];
            let target = match s.u16_val() {
                Some(t) => t,
                None => {
                    ops.push(trunc_op());
                    return Some(s.fin("call_context", ops));
                },
            };
            ops.push(n("target", fmt_l0(target)));
            if subcmd >= 0x80 {
                let name = s.cstring();
                ops.push(n("name", quote(name)));
            }
            Some(s.fin("call_context", ops))
        },
        0x02 => {
            let e = s.expr();
            Some(s.fin("free_context_by_expr", vec![pe(e)]))
        },
        0x03 => Some(s.fin0("set_stop_flag")),
        0x04 => {
            let mode = match s.byte() {
                Some(b) => b,
                None => {
                    return Some(s.trunc("load_script_async"));
                },
            };
            let a0 = s.expr();
            let a1 = s.expr();
            Some(s.fin("load_script_async", vec![n("mode", hex8(mode)), pe(a0), pe(a1)]))
        },
        0x05 => {
            let e = s.expr();
            Some(s.fin("wait_expr", vec![pe(e)]))
        },
        0x06 => Some(s.fin0("set_ctx_flag_and_break")),
        0x07 => match s.u16_val() {
            Some(t) => Some(s.fin("jmp_table0", vec![n("target", fmt_l0(t))])),
            None => Some(s.trunc("jmp_table0")),
        },
        0x08 => {
            let ghost c = s.ctx();
            let sel = s.expr();
            let tb = match s.u16_val() {
                Some(t) => t,
                None => {
                    return Some(s.fin("switch_jmp", vec![ne("selector", sel), trunc_op()]));
                },
            };
            let case_off = switch_case(s, &sel, tb);
            let mut ops = vec![ne("selector", sel), n("table_base", fmt_l0(tb))];
            if let Some(off) = case_off {
                let cl = read_u16_le(s.scx.data.as_slice(), off);
                ops.push(n("case_target", fmt_l0(cl)));
            }
            Some(s.fin("switch_jmp", ops))
        },
        0x09 => Some(s.stub()),
        0x0A => {
            let sense = match s.byte() {
                Some(b) => b,
                None => {
                    return Some(s.trunc("jmp_if_expr"));
                },
            };
            let cond = s.expr();
            let mut ops = vec![n("sense", hex8(sense)), pe(cond)];
            match s.u16_val() {
                Some(t) => ops.push(n("target", fmt_l0(t))),
                None => ops.push(trunc_op()),
            }
            Some(s.fin("jmp_if_expr", ops))
        },
        0x0B => {
            let t = match s.u16_val() {
                Some(v) => v,
                None => {
                    return Some(s.trunc("call_table0"));
                },
            };
            let ret = match s.u16_val() {
                Some(v) => v,
                None => {
                    return Some(s.trunc("call_table0"));
                },
            };
            Some(s.fin("call_table0", vec![n("target", fmt_l0(t)), n("ret", fmt_l2(ret))]))
        },
        0x0C => {
            let e = s.expr();
            let mut ops = vec![ne("arg0", e)];
            match s.u16_val() {
                Some(a1) => ops.push(n("arg1", fmt_u16(a1))),
                None => ops.push(trunc_op()),
            }
            Some(s.fin("op_000c", ops))
        },
        0x0D => {
            let script = s.expr();
            let t = match s.u16_val() {
                Some(v) => v,
                None => {
                    return Some(s.fin("call_script", vec![ne("script", script), trunc_op()]));
                },
            };
            let ret = match s.u16_val() {
                Some(v) => v,
                None => {
                    return Some(s.fin("call_script", vec![ne("script", script), trunc_op()]));
                },
            };
            Some(s.fin("call_script", vec![ne("script", script), n("target", fmt_l0(t)), n("ret", fmt_l2(ret))]))
        },
        0x0E => Some(s.fin0("ret")),
        0x0F => {
            let cid = match s.u16_val() {
                Some(v) => v,
                None => {
                    return Some(s.trunc("loop_jmp"));
                },
            };
            let t = match s.u16_val() {
                Some(v) => v,
                None => {
                    return Some(s.trunc("loop_jmp"));
                },
            };
            let cnt = s.expr();
            Some(s.fin("loop_jmp", vec![n("counter", fmt_u16(cid)), n("target", fmt_l0(t)), ne("count", cnt)]))
        },
        _ => None,
    }
}

/// Where a switch with selector `sel` and label `tb` reads its case label,
/// if it can.
fn switch_case(s: &St, sel: &ExprValue, tb: u16) -> (r: Option<usize>)
    requires
        s.ok(),
    ensures
        match switch_case_offset(s.ctx(), sel@, tb) {
            Some(o) => r == Some(o as usize) && o + 2 <= s.max,
            None => r is None,
        },
{
    match sel.try_get_immediate() {
        Some(imm) => {
            if imm >= 0 && (tb as usize) < s.scx.table0.len() {
                let base_off = s.scx.table0[tb as usize] as u64;
                let case_off = base_off + (imm as u64) * 2;
                if case_off + 2 <= s.max as u64 {
                    Some(case_off as usize)
                } else {
                    None
                }
            } else {
                None
            }
        },
        None => None,
    }
}

/// Table 00, opcodes 10 to 1F.
pub open spec fn spec_t00_b(c: OpCtx) -> Option<SpecInstruction> {
    let p = c.start();
    match c.index() {
        0x10 => Some(
            match sp_byte(c, p) {
                (None, _) => sp_trunc(c, p, "cmp_flag_jmp"@),
                (Some(sense), p1) => {
                    let (flag, p2) = sp_expr(c, p1);
                    match sp_u16(c, p2) {
                        (None, p3) => sp_fin(c, p3, "cmp_flag_jmp"@, seq![hx("state"@, sense), px(flag), tr()]),
                        (Some(t), p3) => sp_fin(
                            c,
                            p3,
                            "cmp_flag_jmp"@,
                            seq![hx("state"@, sense), px(flag), tx("target"@, spec_fmt_l0(t))],
                        ),
                    }
                },
            },
        ),
        0x11 => Some(
            match sp_byte(c, p) {
                (None, _) => sp_trunc(c, p, "cmp_expr_break"@),
                (Some(sense), p1) => {
                    let (e, p2) = sp_expr(c, p1);
                    sp_fin(c, p2, "cmp_expr_break"@, seq![hx("state"@, sense), px(e)])
                },
            },
        ),
        0x12 => Some(sp_flag_op(c, p, "flag_set"@)),
        0x13 => Some(sp_flag_op(c, p, "flag_clear"@)),
        0x14 => {
            let (src, p1) = sp_expr(c, p);
            let (dst, p2) = sp_expr(c, p1);
            Some(sp_fin(c, p2, "var_copy"@, seq![ex("src"@, src), ex("dst"@, dst)]))
        },
        0x15 => Some(
            match sp_byte(c, p) {
                (None, _) => sp_trunc(c, p, "cond_jmp_adv"@),
                (Some(m), p1) => {
                    let (a0, p2) = sp_expr(c, p1);
                    if m < 0x0A {
                        let (a1, p3) = sp_expr(c, p2);
                        match sp_u16(c, p3) {
                            (None, p4) => sp_fin(c, p4, "cond_jmp_adv"@, seq![hx("mode"@, m), px(a0), px(a1), tr()]),
                            (Some(t), p4) => sp_fin(
                                c,
                                p4,
                                "cond_jmp_adv"@,
                                seq![hx("mode"@, m), px(a0), px(a1), tx("target"@, spec_fmt_l0(t))],
                            ),
                        }
                    } else {
                        match sp_u16(c, p2) {
                            (None, p3) => sp_fin(c, p3, "cond_jmp_adv"@, seq![hx("mode"@, m), px(a0), tr()]),
                            (Some(t), p3) => sp_fin(
                                c,
                                p3,
                                "cond_jmp_adv"@,
                                seq![hx("mode"@, m), px(a0), tx("target"@, spec_fmt_l0(t))],
                            ),
                        }
                    }
                },
            },
        ),
        0x16 => Some(sp_byte_args(c, p, "op_0016"@, "flags"@, 2)),
        0x17 => Some(sp_byte_args(c, p, "op_0017"@, "flags"@, 3)),
        0x18 => Some(sp_fin_args(c, p, "op_0018"@, Seq::empty(), 2)),
        0x19 => Some(sp_fin_args(c, p, "op_0019"@, Seq::empty(), 2)),
        0x1A => Some(sp_fin0(c, p, "op_001a"@)),
        0x1B => Some(sp_pos1(c, p, "op_001b"@)),
        0x1C => Some(sp_fin0(c, p, "op_001c"@)),
        0x1D => Some(sp_pos1(c, p, "expr_only"@)),
        0x1E => Some(sp_mode_op(c, p, "op_001e"@)),
        0x1F => Some(sp_pos1(c, p, "set_tmp"@)),
        _ => None,
    }
}

/// One positional expression.
pub open spec fn sp_pos1(c: OpCtx, p: int, mnemonic: Seq<char>) -> SpecInstruction {
    let (e, p1) = sp_expr(c, p);
    sp_fin(c, p1, mnemonic, seq![px(e)])
}

/// A mode byte and an expression, with a second expression when the mode
/// is not zero.
pub open spec fn sp_flag_op(c: OpCtx, p: int, mnemonic: Seq<char>) -> SpecInstruction {
    match sp_byte(c, p) {
        (None, _) => sp_trunc(c, p, mnemonic),
        (Some(m), p1) => {
            let (a0, p2) = sp_expr(c, p1);
            if m != 0 {
                let (a1, p3) = sp_expr(c, p2);
                sp_fin(c, p3, mnemonic, seq![hx("mode"@, m), px(a0), px(a1)])
            } else {
                sp_fin(c, p2, mnemonic, seq![hx("mode"@, m), px(a0)])
            }
        },
    }
}

impl<'a> St<'a> {
    fn pos1(&mut self, mnemonic: &str) -> (r: IlInstruction)
        requires
            old(self).ok(),
        ensures
            final(self).ok(),
            final(self).same(*old(self)),
            final(self).p == r.end,
            r.end >= old(self).offset + 2,
            r@ == sp_pos1(old(self).ctx(), old(self).p as int, mnemonic@),
    {
        let e = self.expr();
        self.fin(mnemonic, vec![pe(e)])
    }

    fn flag_op(&mut self, mnemonic: &str) -> (r: IlInstruction)
        requires
            old(self).ok(),
        ensures
            final(self).ok(),
            final(self).same(*old(self)),
            final(self).p == r.end,
            r.end >= old(self).offset + 2,
            r@ == sp_flag_op(old(self).ctx(), old(self).p as int, mnemonic@),
    {
        let mode = match self.byte() {
            Some(b) => b,
            None => {
                return self.trunc(mnemonic);
            },
        };
        let a0 = self.expr();
        if mode != 0 {
            let a1 = self.expr();
            self.fin(mnemonic, vec![n("mode", hex8(mode)), pe(a0), pe(a1)])
        } else {
            self.fin(mnemonic, vec![n("mode", hex8(mode)), pe(a0)])
        }
    }
}

#[verifier::rlimit(40)]
#[verifier::spinoff_prover]
fn t00_b(s: &mut St) -> (r: Option<IlInstruction>)
    requires
        old(s).ok(),
        old(s).p == old(s).offset + 2,
    ensures
        final(s).ok(),
        final(s).same(*old(s)),
        r is Some ==> final(s).p == r->0.end,
        r is Some ==> r->0.end >= old(s).offset + 2,
        r is Some <==> spec_t00_b(old(s).ctx()) is Some,
        r is Some ==> r->0@ == spec_t00_b(old(s).ctx())->0,
{
    match s.opcode_id {
        0x10 => {
            let sense = match s.byte() {
                Some(b) => b,
                None => {
                    return Some(s.trunc("cmp_flag_jmp"));
                },
            };
            let flag = s.expr();
            match s.u16_val() {
                Some(t) => Some(s.fin("cmp_flag_jmp", vec![n("state", hex8(sense)), pe(flag), n("target", fmt_l0(t))])),
                None => Some(s.fin("cmp_flag_jmp", vec![n("state", hex8(sense)), pe(flag), trunc_op()])),
            }
        },
        0x11 => {
            let sense = match s.byte() {
                Some(b) => b,
                None => {
                    return Some(s.trunc("cmp_expr_break"));
                },
            };
            let e = s.expr();
            Some(s.fin("cmp_expr_break", vec![n("state", hex8(sense)), pe(e)]))
        },
        0x12 => Some(s.flag_op("flag_set")),
        0x13 => Some(s.flag_op("flag_clear")),
        0x14 => {
            let src = s.expr();
            let dst = s.expr();
            Some(s.fin("var_copy", vec![ne("src", src), ne("dst", dst)]))
        },
        0x15 => {
            let mode = match s.byte() {
                Some(b) => b,
                None => {
                    return Some(s.trunc("cond_jmp_adv"));
                },
            };
            let a0 = s.expr();
            if mode < 0x0A {
                let a1 = s.expr();
                match s.u16_val() {
                    Some(t) => Some(
                        s.fin("cond_jmp_adv", vec![n("mode", hex8(mode)), pe(a0), pe(a1), n("target", fmt_l0(t))]),
                    ),
                    None => Some(s.fin("cond_jmp_adv", vec![n("mode", hex8(mode)), pe(a0), pe(a1), trunc_op()])),
                }
            } else {
                match s.u16_val() {
                    Some(t) => Some(s.fin("cond_jmp_adv", vec![n("mode", hex8(mode)), pe(a0), n("target", fmt_l0(t))])),
                    None => Some(s.fin("cond_jmp_adv", vec![n("mode", hex8(mode)), pe(a0), trunc_op()])),
                }
            }
        },
        0x16 => Some(s.byte_args("op_0016", "flags", 2)),
        0x17 => Some(s.byte_args("op_0017", "flags", 3)),
        0x18 => Some(s.args_op("op_0018", 2)),
        0x19 => Some(s.args_op("op_0019", 2)),
        0x1A => Some(s.fin0("op_001a")),
        0x1B => Some(s.pos1("op_001b")),
        0x1C => Some(s.fin0("op_001c")),
        0x1D => Some(s.pos1("expr_only")),
        0x1E => Some(s.mode_op("op_001e")),
        0x1F => Some(s.pos1("set_tmp")),
        _ => None,
    }
}

/// Table 00, opcodes 20 to 2F.
pub open spec fn spec_t00_c(c: OpCtx) -> Option<SpecInstruction> {
    let p = c.start();
    match c.index() {
        0x20 => {
            let (e, p1) = sp_expr(c, p);
            Some(
                match sp_u16(c, p1) {
                    (None, p2) => sp_fin(c, p2, "jmp_if_tmp_eq"@, seq![px(e), tr()]),
                    (Some(t), p2) => sp_fin(c, p2, "jmp_if_tmp_eq"@, seq![px(e), tx("target"@, spec_fmt_l0(t))]),
                },
            )
        },
        0x21 => Some(
            match sp_byte(c, p) {
                (None, _) => sp_trunc(c, p, "op_0021"@),
                (Some(m), p1) => sp_fin_args(c, p1, "op_0021"@, seq![hx("mode"@, m)], if m == 2 { 2 } else { 1 }),
            },
        ),
        0x22 => Some(sp_mode_op(c, p, "op_0022"@)),
        0x23 => Some(
            if p + 1 >= c.max {
                sp_trunc(c, p, "op_0023"@)
            } else {
                let slot = c.data[p];
                let m = c.data[p + 1];
                if m != 2 {
                    let (val, p1) = sp_expr(c, p + 2);
                    let (aux, p2) = sp_expr(c, p1);
                    sp_fin(c, p2, "op_0023"@, seq![hx("slot"@, slot), hx("mode"@, m), ex("value"@, val), ex("aux"@, aux)])
                } else {
                    sp_fin(c, p + 2, "op_0023"@, seq![hx("slot"@, slot), hx("mode"@, m)])
                }
            },
        ),
        0x24 => Some(sp_byte_args(c, p, "op_0024"@, "selector"@, 0)),
        0x25 => Some(sp_fin_args(c, p, "op_0025"@, Seq::empty(), 3)),
        0x26 => Some(sp_fin_args(c, p, "op_0026"@, Seq::empty(), 1)),
        0x27 => Some(sp_fin0(c, p, "op_0027"@)),
        0x28 => Some(sp_fin_args(c, p, "op_0028"@, Seq::empty(), 4)),
        0x29 => Some(sp_mode_op(c, p, "op_0029"@)),
        0x2A => Some(sp_subcmd_op(c, p, "op_002a"@)),
        0x2B => Some(sp_fin_args(c, p, "op_002b"@, Seq::empty(), 1)),
        0x2C => Some(sp_fin_args(c, p, "op_002c"@, Seq::empty(), 1)),
        0x2D => Some(sp_mode_op(c, p, "op_002d"@)),
        0x2E => Some(sp_byte_args(c, p, "op_002e"@, "mode"@, 1)),
        0x2F => Some(
            match sp_byte(c, p) {
                (None, _) => sp_trunc(c, p, low_name(c)),
                (Some(sc), p1) => sp_fin_args(c, p1, low_name(c), seq![hx("subcmd"@, sc)], sub_2f_args(sc)),
            },
        ),
        _ => None,
    }
}

/// How many expressions follow each sub-command of opcode 002F.
pub open spec fn sub_2f_args(sc: u8) -> int {
    if sc == 1 || sc == 2 || sc == 0x10 || sc == 0x11 {
        1
    } else if sc == 0x12 || sc == 0x13 || sc == 0x14 {
        2
    } else if sc == 0x15 {
        3
    } else {
        0
    }
}

#[verifier::rlimit(40)]
#[verifier::spinoff_prover]
fn t00_c(s: &mut St) -> (r: Option<IlInstruction>)
    requires
        old(s).ok(),
        old(s).p == old(s).offset + 2,
    ensures
        final(s).ok(),
        final(s).same(*old(s)),
        r is Some ==> final(s).p == r->0.end,
        r is Some ==> r->0.end >= old(s).offset + 2,
        r is Some <==> spec_t00_c(old(s).ctx()) is Some,
        r is Some ==> r->0@ == spec_t00_c(old(s).ctx())->0,
{
    match s.opcode_id {
        0x20 => {
            let e = s.expr();
            match s.u16_val() {
                Some(t) => Some(s.fin("jmp_if_tmp_eq", vec![pe(e), n("target", fmt_l0(t))])),
                None => Some(s.fin("jmp_if_tmp_eq", vec![pe(e), trunc_op()])),
            }
        },
        0x21 => {
            let mode = match s.byte() {
                Some(b) => b,
                None => {
                    return Some(s.trunc("op_0021"));
                },
            };
            let k: usize = if mode == 2 {
                2
            } else {
                1
            };
            Some(s.fin_args("op_0021", vec![n("mode", hex8(mode))], k))
        },
        0x22 => Some(s.mode_op("op_0022")),
        0x23 => {
            proof {
                reveal(sp_byte);
                reveal(sp_expr);
            }
            if s.p + 1 >= s.max {
                return Some(s.trunc("op_0023"));
            }
            let slot = match s.byte() {
                Some(b) => b,
                None => {
                    return Some(s.trunc("op_0023"));
                },
            };
            let mode = match s.byte() {
                Some(b) => b,
                None => {
                    return Some(s.trunc("op_0023"));
                },
            };
            if mode != 2 {
                let val = s.expr();
                let aux = s.expr();
                Some(
                    s.fin(
                        "op_0023",
                        vec![n("slot", hex8(slot)), n("mode", hex8(mode)), ne("value", val), ne("aux", aux)],
                    ),
                )
            } else {
                Some(s.fin("op_0023", vec![n("slot", hex8(slot)), n("mode", hex8(mode))]))
            }
        },
        0x24 => Some(s.byte_args("op_0024", "selector", 0)),
        0x25 => Some(s.args_op("op_0025", 3)),
        0x26 => Some(s.args_op("op_0026", 1)),
        0x27 => Some(s.fin0("op_0027")),
        0x28 => Some(s.args_op("op_0028", 4)),
        0x29 => Some(s.mode_op("op_0029")),
        0x2A => Some(s.subcmd_op("op_002a")),
        0x2B => Some(s.args_op("op_002b", 1)),
        0x2C => Some(s.args_op("op_002c", 1)),
        0x2D => Some(s.mode_op("op_002d")),
        0x2E => Some(s.byte_args("op_002e", "mode", 1)),
        0x2F => {
            let nm = s.low_name();
            let sc = match s.byte() {
                Some(b) => b,
                None => {
                    return Some(s.trunc(nm.as_str()));
                },
            };
            let k: usize = if sc == 1 || sc == 2 || sc == 0x10 || sc == 0x11 {
                1
            } else if sc == 0x12 || sc == 0x13 || sc == 0x14 {
                2
            } else if sc == 0x15 {
                3
            } else {
                0
            };
            Some(s.fin_args(nm.as_str(), vec![n("subcmd", hex8(sc))], k))
        },
        _ => None,
    }
}

/// Table 00, opcodes 30 to 3F.
pub open spec fn spec_t00_d(c: OpCtx) -> Option<SpecInstruction> {
    let p = c.start();
    match c.index() {
        0x30 => Some(sp_mode_op(c, p, "op_0030"@)),
        0x31 => Some(sp_byte_args(c, p, low_name(c), "mode"@, 1)),
        0x32 => Some(sp_fin0(c, p, "op_0032"@)),
        0x33 => {
            let (a0, p1) = sp_expr(c, p);
            let (a1, p2) = sp_expr(c, p1);
            Some(sp_fin(c, p2, "op_0033"@, seq![px(a0), px(a1)]))
        },
        0x34 => Some(sp_fin0(c, p, "op_0034"@)),
        0x35 => Some(sp_mode_op(c, p, "op_0035"@)),
        0x36 => Some(sp_mode_op(c, p, "op_0036"@)),
        0x37 => Some(sp_byte_args(c, p, "op_0037"@, "mode"@, 2)),
        0x38 => Some(
            match sp_byte(c, p) {
                (None, _) => sp_trunc(c, p, "op_0038"@),
                (Some(m), p1) => {
                    let (a0, p2) = sp_expr(c, p1);
                    sp_fin(c, p2, "op_0038"@, seq![hx("mode"@, m), px(a0)])
                },
            },
        ),
        0x39 => Some(sp_mode_op(c, p, "op_0039"@)),
        0x3A => Some(
            match sp_byte(c, p) {
                (None, _) => sp_trunc(c, p, "op_003a"@),
                (Some(m), p1) => sp_fin_args(
                    c,
                    p1,
                    "op_003a"@,
                    seq![hx("mode"@, m)],
                    if m == 0 {
                        2
                    } else if m == 2 || m == 3 {
                        1
                    } else {
                        0
                    },
                ),
            },
        ),
        0x3B => Some(sp_mode_op(c, p, "op_003b"@)),
        0x3C => Some(sp_mode_op(c, p, "op_003c"@)),
        0x3D => Some(sp_fin_args(c, p, "op_003d"@, Seq::empty(), 2)),
        0x3E => Some(sp_fin0(c, p, "op_003e"@)),
        0x3F => Some(sp_fin0(c, p, "op_003f"@)),
        _ => None,
    }
}

#[verifier::rlimit(40)]
#[verifier::spinoff_prover]
fn t00_d(s: &mut St) -> (r: Option<IlInstruction>)
    requires
        old(s).ok(),
        old(s).p == old(s).offset + 2,
    ensures
        final(s).ok(),
        final(s).same(*old(s)),
        r is Some ==> final(s).p == r->0.end,
        r is Some ==> r->0.end >= old(s).offset + 2,
        r is Some <==> spec_t00_d(old(s).ctx()) is Some,
        r is Some ==> r->0@ == spec_t00_d(old(s).ctx())->0,
{
    match s.opcode_id {
        0x30 => Some(s.mode_op("op_0030")),
        0x31 => {
            let nm = s.low_name();
            Some(s.byte_args(nm.as_str(), "mode", 1))
        },
        0x32 => Some(s.fin0("op_0032")),
        0x33 => {
            let a0 = s.expr();
            let a1 = s.expr();
            Some(s.fin("op_0033", vec![pe(a0), pe(a1)]))
        },
        0x34 => Some(s.fin0("op_0034")),
        0x35 => Some(s.mode_op("op_0035")),
        0x36 => Some(s.mode_op("op_0036")),
        0x37 => Some(s.byte_args("op_0037", "mode", 2)),
        0x38 => {
            let mode = match s.byte() {
                Some(b) => b,
                None => {
                    return Some(s.trunc("op_0038"));
                },
            };
            let a0 = s.expr();
            Some(s.fin("op_0038", vec![n("mode", hex8(mode)), pe(a0)]))
        },
        0x39 => Some(s.mode_op("op_0039")),
        0x3A => {
            let mode = match s.byte() {
                Some(b) => b,
                None => {
                    return Some(s.trunc("op_003a"));
                },
            };
            let k: usize = if mode == 0 {
                2
            } else if mode == 2 || mode == 3 {
                1
            } else {
                0
            };
            Some(s.fin_args("op_003a", vec![n("mode", hex8(mode))], k))
        },
        0x3B => Some(s.mode_op("op_003b")),
        0x3C => Some(s.mode_op("op_003c")),
        0x3D => Some(s.args_op("op_003d", 2)),
        0x3E => Some(s.fin0("op_003e")),
        0x3F => Some(s.fin0("op_003f")),
        _ => None,
    }
}

/// Opcode 0043, the text window control: the low four bits of the mode
/// select the operation; operations 3 and 4 take a flag byte, an optional
/// expression, and either a text reference or (mode bit 7) a key
/// expression, with a script expression first when bit 6 is set too.
pub open spec fn sp_text_window(c: OpCtx, p: int) -> SpecInstruction {
    let mn = "text_window_ctrl"@;
    match sp_byte(c, p) {
        (None, _) => sp_trunc(c, p, mn),
        (Some(m), p1) => {
            let op = m % 16;
            let head = seq![hx("mode"@, m), tx("op"@, dec_text(op as int))];
            if op == 2 {
                let (e, p2) = sp_expr(c, p1);
                sp_fin(c, p2, mn, head.push(px(e)))
            } else if op == 3 || op == 4 {
                match sp_byte(c, p1) {
                    (None, _) => sp_fin(c, p1, mn, head.push(tr())),
                    (Some(flag), p2) => {
                        let (ops, p3) = if flag == 1 {
                            let (e, q) = sp_expr(c, p2);
                            (head.push(hx("flag"@, flag)).push(px(e)), q)
                        } else {
                            (head.push(hx("flag"@, flag)), p2)
                        };
                        if m >= 0x80 {
                            let (ops2, p4) = if (m / 64) % 2 == 1 {
                                let (e, q) = sp_expr(c, p3);
                                (ops.push(ex("bsh_script"@, e)), q)
                            } else {
                                (ops, p3)
                            };
                            let (key, p5) = sp_expr(c, p4);
                            sp_fin(c, p5, mn, ops2.push(ex("bsh_key"@, key)))
                        } else {
                            match sp_u16(c, p3) {
                                (None, _) => sp_fin(c, p3, mn, ops.push(tr())),
                                (Some(ti), p4) => sp_fin(c, p4, mn, ops.push(tx("text"@, spec_fmt_l1(ti)))),
                            }
                        }
                    },
                }
            } else {
                sp_fin(c, p1, mn, head)
            }
        },
    }
}

#[verifier::rlimit(40)]
#[verifier::spinoff_prover]
fn text_window_ctrl(s: &mut St) -> (r: IlInstruction)
    requires
        old(s).ok(),
    ensures
        final(s).ok(),
        final(s).same(*old(s)),
        final(s).p == r.end,
        r.end >= old(s).offset + 2,
        r@ == sp_text_window(old(s).ctx(), old(s).p as int),
{
    let ghost c = s.ctx();
    let ghost p = s.p as int;
    let mode = match s.byte() {
        Some(b) => b,
        None => {
            return s.trunc("text_window_ctrl");
        },
    };
    let op = mode % 16;
    let mut ops = vec![n("mode", hex8(mode)), n("op", dec_u8(op))];
    let ghost head = operands_view(ops@);
    assert(head =~= seq![hx("mode"@, mode), tx("op"@, dec_text(op as int))]);
    if op == 2 {
        let e = s.expr();
        ops.push(pe(e));
        assert(operands_view(ops@) =~= head.push(px(e@)));
        s.fin("text_window_ctrl", ops)
    } else if op == 3 || op == 4 {
        let flag = match s.byte() {
            Some(b) => b,
            None => {
                ops.push(trunc_op());
                assert(operands_view(ops@) =~= head.push(tr()));
                return s.fin("text_window_ctrl", ops);
            },
        };
        ops.push(n("flag", hex8(flag)));
        if flag == 1 {
            let e = s.expr();
            ops.push(pe(e));
        }
        proof {
            let p1 = sp_byte(c, p).1;
            let p2 = sp_byte(c, p1).1;
            let expected = if flag == 1 {
                let (e, q) = sp_expr(c, p2);
                (head.push(hx("flag"@, flag)).push(px(e)), q)
            } else {
                (head.push(hx("flag"@, flag)), p2)
            };
            assert(operands_view(ops@) =~= expected.0);
        }
        if mode >= 0x80 {
            let ghost before = operands_view(ops@);
            if (mode / 64) % 2 == 1 {
                let e = s.expr();
                ops.push(ne("bsh_script", e));
                assert(operands_view(ops@) =~= before.push(ex("bsh_script"@, e@)));
            }
            let ghost mid = operands_view(ops@);
            let key = s.expr();
            ops.push(ne("bsh_key", key));
            assert(operands_view(ops@) =~= mid.push(ex("bsh_key"@, key@)));
            return s.fin("text_window_ctrl", ops);
        }
        let ghost before = operands_view(ops@);
        match s.u16_val() {
            Some(ti) => {
                ops.push(n("text", fmt_l1(ti)));
                assert(operands_view(ops@) =~= before.push(tx("text"@, spec_fmt_l1(ti))));
            },
            None => {
                ops.push(trunc_op());
                assert(operands_view(ops@) =~= before.push(tr()));
            },
        }
        s.fin("text_window_ctrl", ops)
    } else {
        s.fin("text_window_ctrl", ops)
    }
}

/// Table 00, opcodes 40 to 4F.
pub open spec fn spec_t00_e(c: OpCtx) -> Option<SpecInstruction> {
    let p = c.start();
    match c.index() {
        0x40 => Some(sp_fin0(c, p, "op_0040"@)),
        0x41 => Some(sp_mode_op(c, p, "op_0041"@)),
        0x42 => Some(sp_fin_args(c, p, "op_0042"@, Seq::empty(), 1)),
        0x43 => Some(sp_text_window(c, p)),
        0x44 => Some(sp_mode_op(c, p, "op_0044"@)),
        0x45 => Some(sp_fin0(c, p, "op_0045"@)),
        0x46 => Some(sp_fin_args(c, p, "op_0046"@, Seq::empty(), 1)),
        0x47 => Some(sp_fin0(c, p, "op_0047"@)),
        0x48 => Some(sp_fin0(c, p, "op_0048"@)),
        0x49 => Some(sp_mode_op(c, p, "op_0049"@)),
        0x4A => Some(sp_mode_op(c, p, "op_004a"@)),
        0x4B => Some(sp_mode_op(c, p, "op_004b"@)),
        0x4C => Some(
            match sp_byte(c, p) {
                (None, _) => sp_trunc(c, p, "op_004c"@),
                (Some(m), p1) => sp_fin_args(c, p1, "op_004c"@, seq![hx("mode"@, m)], if m == 0 { 1 } else { 0 }),
            },
        ),
        0x4D => Some(sp_byte_args(c, p, "op_004d"@, "mode"@, 1)),
        0x4E => Some(
            match sp_byte(c, p) {
                (None, _) => sp_trunc(c, p, "op_004e"@),
                (Some(m), p1) => {
                    let (entry, p2) = sp_expr(c, p1);
                    sp_fin_args(
                        c,
                        p2,
                        "op_004e"@,
                        seq![hx("mode"@, m), ex("entry"@, entry)],
                        if m == 0 {
                            2
                        } else if m == 1 {
                            3
                        } else {
                            0
                        },
                    )
                },
            },
        ),
        0x4F => Some(sp_fin_args(c, p, "op_004f"@, Seq::empty(), 1)),
        _ => None,
    }
}

#[verifier::rlimit(40)]
#[verifier::spinoff_prover]
fn t00_e(s: &mut St) -> (r: Option<IlInstruction>)
    requires
        old(s).ok(),
        old(s).p == old(s).offset + 2,
    ensures
        final(s).ok(),
        final(s).same(*old(s)),
        r is Some ==> final(s).p == r->0.end,
        r is Some ==> r->0.end >= old(s).offset + 2,
        r is Some <==> spec_t00_e(old(s).ctx()) is Some,
        r is Some ==> r->0@ == spec_t00_e(old(s).ctx())->0,
{
    match s.opcode_id {
        0x40 => Some(s.fin0("op_0040")),
        0x41 => Some(s.mode_op("op_0041")),
        0x42 => Some(s.args_op("op_0042", 1)),
        0x43 => Some(text_window_ctrl(s)),
        0x44 => Some(s.mode_op("op_0044")),
        0x45 => Some(s.fin0("op_0045")),
        0x46 => Some(s.args_op("op_0046", 1)),
        0x47 => Some(s.fin0("op_0047")),
        0x48 => Some(s.fin0("op_0048")),
        0x49 => Some(s.mode_op("op_0049")),
        0x4A => Some(s.mode_op("op_004a")),
        0x4B => Some(s.mode_op("op_004b")),
        0x4C => {
            let mode = match s.byte() {
                Some(b) => b,
                None => {
                    return Some(s.trunc("op_004c"));
                },
            };
            let k: usize = if mode == 0 {
                1
            } else {
                0
            };
            Some(s.fin_args("op_004c", vec![n("mode", hex8(mode))], k))
        },
        0x4D => Some(s.byte_args("op_004d", "mode", 1)),
        0x4E => {
            let mode = match s.byte() {
                Some(b) => b,
                None => {
                    return Some(s.trunc("op_004e"));
                },
            };
            let entry = s.expr();
            let k: usize = if mode == 0 {
                2
            } else if mode == 1 {
                3
            } else {
                0
            };
            Some(s.fin_args("op_004e", vec![n("mode", hex8(mode)), ne("entry", entry)], k))
        },
        0x4F => Some(s.args_op("op_004f", 1)),
        _ => None,
    }
}

/// Table 00, opcodes 50 to 60.
pub open spec fn spec_t00_f(c: OpCtx) -> Option<SpecInstruction> {
    let p = c.start();
    match c.index() {
        0x50 => Some(sp_byte_args(c, p, "op_0050"@, "mode"@, 1)),
        0x51 => Some(sp_fin0(c, p, low_name(c))),
        0x52 => Some(sp_fin0(c, p, "op_0052"@)),
        0x53 => Some(
            match sp_byte(c, p) {
                (None, _) => sp_trunc(c, p, "op_0053"@),
                (Some(flags), p1) => {
                    let (a0, p2) = sp_expr(c, p1);
                    match sp_u16(c, p2) {
                        (None, p3) => sp_fin(c, p3, "op_0053"@, seq![hx("flags"@, flags), ex("arg0"@, a0), tr()]),
                        (Some(t), p3) => sp_fin(
                            c,
                            p3,
                            "op_0053"@,
                            seq![hx("flags"@, flags), ex("arg0"@, a0), tx("target"@, spec_fmt_l0(t))],
                        ),
                    }
                },
            },
        ),
        0x54 => Some(
            match sp_byte(c, p) {
                (None, _) => sp_trunc(c, p, "op_0054"@),
                (Some(m), p1) => {
                    let (a0, p2) = sp_expr(c, p1);
                    let head = seq![hx("mode"@, m), ex("arg0"@, a0)];
                    match sp_u16(c, p2) {
                        (None, p3) => sp_fin(c, p3, "op_0054"@, head.push(tr())),
                        (Some(t0), p3) => match sp_u16(c, p3) {
                            (None, p4) => sp_fin(c, p4, "op_0054"@, head.push(tr())),
                            (Some(t1), p4) => sp_fin(
                                c,
                                p4,
                                "op_0054"@,
                                head.push(tx("target0"@, spec_fmt_l0(t0))).push(tx("target1"@, spec_fmt_l0(t1))),
                            ),
                        },
                    }
                },
            },
        ),
        0x55 => Some(
            match sp_byte(c, p) {
                (None, _) => sp_trunc(c, p, "op_0055"@),
                (Some(m), p1) => {
                    let (a0, p2) = sp_expr(c, p1);
                    let (script, p3) = sp_expr(c, p2);
                    let head = seq![hx("mode"@, m), ex("arg0"@, a0), ex("script"@, script)];
                    match sp_u16(c, p3) {
                        (None, p4) => sp_fin(c, p4, "op_0055"@, head.push(tr())),
                        (Some(t), p4) => sp_fin(c, p4, "op_0055"@, head.push(tx("target"@, spec_fmt_u16(t)))),
                    }
                },
            },
        ),
        0x56 => Some(
            match sp_byte(c, p) {
                (None, _) => sp_trunc(c, p, "op_0056"@),
                (Some(m), p1) => {
                    let (a0, p2) = sp_expr(c, p1);
                    let (a1, p3) = sp_expr(c, p2);
                    let head = seq![hx("mode"@, m), ex("arg0"@, a0), ex("arg1"@, a1)];
                    match sp_u16(c, p3) {
                        (None, p4) => sp_fin(c, p4, "op_0056"@, head.push(tr())),
                        (Some(a2), p4) => match sp_u16(c, p4) {
                            (None, p5) => sp_fin(c, p5, "op_0056"@, head.push(tr())),
                            (Some(a3), p5) => sp_fin(
                                c,
                                p5,
                                "op_0056"@,
                                head.push(tx("arg2"@, spec_fmt_u16(a2))).push(tx("arg3"@, spec_fmt_u16(a3))),
                            ),
                        },
                    }
                },
            },
        ),
        0x57 => Some(sp_byte_args(c, p, "op_0057"@, "mode"@, 1)),
        0x58 => Some(sp_fin0(c, p, low_name(c))),
        0x59 => Some(
            match sp_byte(c, p) {
                (None, _) => sp_trunc(c, p, "op_0059"@),
                (Some(m), p1) => {
                    let (a0, p2) = sp_expr(c, p1);
                    let (a1, p3) = sp_expr(c, p2);
                    sp_fin(c, p3, "op_0059"@, seq![hx("mode"@, m), px(a0), px(a1)])
                },
            },
        ),
        0x5A => Some(
            match sp_byte(c, p) {
                (None, _) => sp_trunc(c, p, "op_005a"@),
                (Some(m), p1) => {
                    let (a0, p2) = sp_expr(c, p1);
                    if m == 0 {
                        match sp_u16(c, p2) {
                            (None, p3) => sp_fin(c, p3, "op_005a"@, seq![hx("mode"@, m), ex("arg0"@, a0), tr()]),
                            (Some(a1), p3) => sp_fin(
                                c,
                                p3,
                                "op_005a"@,
                                seq![hx("mode"@, m), ex("arg0"@, a0), tx("arg1"@, spec_fmt_u16(a1))],
                            ),
                        }
                    } else {
                        sp_fin(c, p2, "op_005a"@, seq![hx("mode"@, m), ex("arg0"@, a0)])
                    }
                },
            },
        ),
        0x5B => Some(sp_fin0(c, p, low_name(c))),
        0x5C => Some(
            match sp_byte(c, p) {
                (None, _) => sp_trunc(c, p, "op_005c"@),
                (Some(m), p1) => if m == 1 {
                    let (name, p2) = sp_cstring(c, p1);
                    sp_fin(c, p2, "op_005c"@, seq![hx("mode"@, m), tx("text"@, quoted(name))])
                } else {
                    sp_mode(c, p1, "op_005c"@, m)
                },
            },
        ),
        0x5D => Some(sp_fin_args(c, p, "op_005d"@, Seq::empty(), 1)),
        0x5E => Some(sp_mode_op(c, p, "op_005e"@)),
        0x5F => Some(
            match sp_byte(c, p) {
                (None, _) => sp_trunc(c, p, "op_005f"@),
                (Some(sc), p1) => sp_fin_args(
                    c,
                    p1,
                    "op_005f"@,
                    seq![hx("subcmd"@, sc)],
                    if sc == 1 || sc == 2 {
                        1
                    } else {
                        0
                    },
                ),
            },
        ),
        0x60 => Some(sp_fin0(c, p, low_name(c))),
        _ => None,
    }
}

#[verifier::rlimit(40)]
#[verifier::spinoff_prover]
fn t00_f(s: &mut St) -> (r: Option<IlInstruction>)
    requires
        old(s).ok(),
        old(s).p == old(s).offset + 2,
    ensures
        final(s).ok(),
        final(s).same(*old(s)),
        r is Some ==> final(s).p == r->0.end,
        r is Some ==> r->0.end >= old(s).offset + 2,
        r is Some <==> spec_t00_f(old(s).ctx()) is Some,
        r is Some ==> r->0@ == spec_t00_f(old(s).ctx())->0,
{
    match s.opcode_id {
        0x50 => Some(s.byte_args("op_0050", "mode", 1)),
        0x51 => Some(s.stub()),
        0x52 => Some(s.fin0("op_0052")),
        0x53 => {
            let flags = match s.byte() {
                Some(b) => b,
                None => {
                    return Some(s.trunc("op_0053"));
                },
            };
            let a0 = s.expr();
            match s.u16_val() {
                Some(t) => Some(s.fin("op_0053", vec![n("flags", hex8(flags)), ne("arg0", a0), n("target", fmt_l0(t))])),
                None => Some(s.fin("op_0053", vec![n("flags", hex8(flags)), ne("arg0", a0), trunc_op()])),
            }
        },
        0x54 => {
            let mode = match s.byte() {
                Some(b) => b,
                None => {
                    return Some(s.trunc("op_0054"));
                },
            };
            let a0 = s.expr();
            let t0 = match s.u16_val() {
                Some(v) => v,
                None => {
                    return Some(s.fin("op_0054", vec![n("mode", hex8(mode)), ne("arg0", a0), trunc_op()]));
                },
            };
            let t1 = match s.u16_val() {
                Some(v) => v,
                None => {
                    return Some(s.fin("op_0054", vec![n("mode", hex8(mode)), ne("arg0", a0), trunc_op()]));
                },
            };
            Some(
                s.fin(
                    "op_0054",
                    vec![n("mode", hex8(mode)), ne("arg0", a0), n("target0", fmt_l0(t0)), n("target1", fmt_l0(t1))],
                ),
            )
        },
        0x55 => {
            let mode = match s.byte() {
                Some(b) => b,
                None => {
                    return Some(s.trunc("op_0055"));
                },
            };
            let a0 = s.expr();
            let script = s.expr();
            match s.u16_val() {
                Some(t) => Some(
                    s.fin(
                        "op_0055",
                        vec![n("mode", hex8(mode)), ne("arg0", a0), ne("script", script), n("target", fmt_u16(t))],
                    ),
                ),
                None => Some(s.fin("op_0055", vec![n("mode", hex8(mode)), ne("arg0", a0), ne("script", script), trunc_op()])),
            }
        },
        0x56 => {
            let mode = match s.byte() {
                Some(b) => b,
                None => {
                    return Some(s.trunc("op_0056"));
                },
            };
            let a0 = s.expr();
            let a1 = s.expr();
            let a2 = match s.u16_val() {
                Some(v) => v,
                None => {
                    return Some(s.fin("op_0056", vec![n("mode", hex8(mode)), ne("arg0", a0), ne("arg1", a1), trunc_op()]));
                },
            };
            let a3 = match s.u16_val() {
                Some(v) => v,
                None => {
                    return Some(s.fin("op_0056", vec![n("mode", hex8(mode)), ne("arg0", a0), ne("arg1", a1), trunc_op()]));
                },
            };
            Some(
                s.fin(
                    "op_0056",
                    vec![
                        n("mode", hex8(mode)),
                        ne("arg0", a0),
                        ne("arg1", a1),
                        n("arg2", fmt_u16(a2)),
                        n("arg3", fmt_u16(a3)),
                    ],
                ),
            )
        },
        0x57 => Some(s.byte_args("op_0057", "mode", 1)),
        0x58 => Some(s.stub()),
        0x59 => {
            let mode = match s.byte() {
                Some(b) => b,
                None => {
                    return Some(s.trunc("op_0059"));
                },
            };
            let a0 = s.expr();
            let a1 = s.expr();
            Some(s.fin("op_0059", vec![n("mode", hex8(mode)), pe(a0), pe(a1)]))
        },
        0x5A => {
            let mode = match s.byte() {
                Some(b) => b,
                None => {
                    return Some(s.trunc("op_005a"));
                },
            };
            let a0 = s.expr();
            if mode == 0 {
                match s.u16_val() {
                    Some(a1) => Some(s.fin("op_005a", vec![n("mode", hex8(mode)), ne("arg0", a0), n("arg1", fmt_u16(a1))])),
                    None => Some(s.fin("op_005a", vec![n("mode", hex8(mode)), ne("arg0", a0), trunc_op()])),
                }
            } else {
                Some(s.fin("op_005a", vec![n("mode", hex8(mode)), ne("arg0", a0)]))
            }
        },
        0x5B => Some(s.stub()),
        0x5C => {
            let mode = match s.byte() {
                Some(b) => b,
                None => {
                    return Some(s.trunc("op_005c"));
                },
            };
            if mode == 1 {
                let name = s.cstring();
                Some(s.fin("op_005c", vec![n("mode", hex8(mode)), n("text", quote(name))]))
            } else {
                Some(s.mode("op_005c", mode))
            }
        },
        0x5D => Some(s.args_op("op_005d", 1)),
        0x5E => Some(s.mode_op("op_005e")),
        0x5F => {
            let sc = match s.byte() {
                Some(b) => b,
                None => {
                    return Some(s.trunc("op_005f"));
                },
            };
            let k: usize = if sc == 1 || sc == 2 {
                1
            } else {
                0
            };
            Some(s.fin_args("op_005f", vec![n("subcmd", hex8(sc))], k))
        },
        0x60 => Some(s.stub()),
        _ => None,
    }
}

/// Table 00: flow control, flags, variables and scene commands.
pub open spec fn spec_table00(c: OpCtx) -> Option<SpecInstruction> {
    let i = c.index();
    if i < 0x10 {
        spec_t00_a(c)
    } else if i < 0x20 {
        spec_t00_b(c)
    } else if i < 0x30 {
        spec_t00_c(c)
    } else if i < 0x40 {
        spec_t00_d(c)
    } else if i < 0x50 {
        spec_t00_e(c)
    } else {
        spec_t00_f(c)
    }
}

#[verifier::rlimit(40)]
#[verifier::spinoff_prover]
fn table00(s: &mut St) -> (r: Option<IlInstruction>)
    requires
        old(s).ok(),
        old(s).p == old(s).offset + 2,
    ensures
        final(s).ok(),
        final(s).same(*old(s)),
        r is Some ==> final(s).p == r->0.end,
        r is Some ==> r->0.end >= old(s).offset + 2,
        r is Some <==> spec_table00(old(s).ctx()) is Some,
        r is Some ==> r->0@ == spec_table00(old(s).ctx())->0,
{
    let i = s.opcode_id;
    if i < 0x10 {
        t00_a(s)
    } else if i < 0x20 {
        t00_b(s)
    } else if i < 0x30 {
        t00_c(s)
    } else if i < 0x40 {
        t00_d(s)
    } else if i < 0x50 {
        t00_e(s)
    } else {
        t00_f(s)
    }
}

// ── Table 01 ──

/// Opcode 0109, choosing the dialogue slot: the low seven bits of the mode
/// select a voice id, an optional voice id and a slot, or a slot alone.
pub open spec fn sp_select_dialogue_slot(c: OpCtx, p: int) -> Option<SpecInstruction> {
    let mn = "select_dialogue_slot"@;
    match sp_byte(c, p) {
        (None, _) => Some(sp_trunc(c, p, mn)),
        (Some(m), p1) => {
            let kind = m % 128;
            if kind == 0 {
                match sp_u16(c, p1) {
                    (None, _) => Some(sp_trunc(c, p1, mn)),
                    (Some(vid), p2) => Some(sp_fin(c, p2, mn, seq![hx("mode"@, m), tx("voice_id"@, spec_fmt_u16(vid))])),
                }
            } else if kind == 1 {
                if m >= 0x80 {
                    match sp_u16(c, p1) {
                        (None, _) => Some(sp_trunc(c, p1, mn)),
                        (Some(vid), p2) => {
                            let (e, p3) = sp_expr(c, p2);
                            Some(
                                sp_fin(
                                    c,
                                    p3,
                                    mn,
                                    seq![hx("mode"@, m), tx("voice_id"@, spec_fmt_u16(vid)), ex("slot"@, e)],
                                ),
                            )
                        },
                    }
                } else {
                    let (e, p2) = sp_expr(c, p1);
                    Some(sp_fin(c, p2, mn, seq![hx("mode"@, m), ex("slot"@, e)]))
                }
            } else if kind == 2 {
                let (e, p2) = sp_expr(c, p1);
                Some(sp_fin(c, p2, mn, seq![hx("mode"@, m), ex("slot"@, e)]))
            } else {
                None
            }
        },
    }
}

fn select_dialogue_slot(s: &mut St) -> (r: Option<IlInstruction>)
    requires
        old(s).ok(),
    ensures
        final(s).ok(),
        final(s).same(*old(s)),
        r is Some ==> final(s).p == r->0.end,
        r is Some ==> r->0.end >= old(s).offset + 2,
        r is Some <==> sp_select_dialogue_slot(old(s).ctx(), old(s).p as int) is Some,
        r is Some ==> r->0@ == sp_select_dialogue_slot(old(s).ctx(), old(s).p as int)->0,
{
    let mode = match s.byte() {
        Some(b) => b,
        None => {
            return Some(s.trunc("select_dialogue_slot"));
        },
    };
    let kind = mode % 128;
    if kind == 0 {
        match s.u16_val() {
            Some(vid) => Some(s.fin("select_dialogue_slot", vec![n("mode", hex8(mode)), n("voice_id", fmt_u16(vid))])),
            None => Some(s.trunc("select_dialogue_slot")),
        }
    } else if kind == 1 {
        let mut ops = vec![n("mode", hex8(mode))];
        if mode >= 0x80 {
            match s.u16_val() {
                Some(vid) => ops.push(n("voice_id", fmt_u16(vid))),
                None => {
                    return Some(s.trunc("select_dialogue_slot"));
                },
            }
        }
        let e = s.expr();
        ops.push(ne("slot", e));
        Some(s.fin("select_dialogue_slot", ops))
    } else if kind == 2 {
        let e = s.expr();
        Some(s.fin("select_dialogue_slot", vec![n("mode", hex8(mode)), ne("slot", e)]))
    } else {
        None
    }
}

/// Opcode 010C, showing slot text: flag bits 0 and 1 add expressions around
/// the second one; bit 7 ends with a key expression, otherwise a text
/// reference follows.
pub open spec fn sp_slot_text_show(c: OpCtx, p: int) -> SpecInstruction {
    let mn = "slot_text_show"@;
    match sp_byte(c, p) {
        (None, _) => sp_trunc(c, p, mn),
        (Some(f), p1) => {
            let (o1, q1) = if f % 2 == 1 {
                let (e, q) = sp_expr(c, p1);
                (seq![hx("flags"@, f), ex("arg0"@, e)], q)
            } else {
                (seq![hx("flags"@, f)], p1)
            };
            let (e1, q2) = sp_expr(c, q1);
            let o2 = o1.push(ex("arg1"@, e1));
            let (o3, q3) = if (f / 2) % 2 == 1 {
                let (e, q) = sp_expr(c, q2);
                (o2.push(ex("arg2"@, e)), q)
            } else {
                (o2, q2)
            };
            if f >= 0x80 {
                let (key, q4) = sp_expr(c, q3);
                sp_fin(c, q4, mn, o3.push(ex("text_key"@, key)))
            } else {
                match sp_u16(c, q3) {
                    (None, _) => sp_fin(c, q3, mn, o3.push(tr())),
                    (Some(ti), q4) => sp_fin(c, q4, mn, o3.push(tx("text_ref"@, spec_fmt_l1(ti)))),
                }
            }
        },
    }
}

fn slot_text_show(s: &mut St) -> (r: IlInstruction)
    requires
        old(s).ok(),
    ensures
        final(s).ok(),
        final(s).same(*old(s)),
        final(s).p == r.end,
        r.end >= old(s).offset + 2,
        r@ == sp_slot_text_show(old(s).ctx(), old(s).p as int),
{
    let flags = match s.byte() {
        Some(b) => b,
        None => {
            return s.trunc("slot_text_show");
        },
    };
    let mut ops = vec![n("flags", hex8(flags))];
    if flags % 2 == 1 {
        let e = s.expr();
        ops.push(ne("arg0", e));
    }
    let e1 = s.expr();
    ops.push(ne("arg1", e1));
    if (flags / 2) % 2 == 1 {
        let e = s.expr();
        ops.push(ne("arg2", e));
    }
    if flags >= 0x80 {
        let e = s.expr();
        ops.push(ne("text_key", e));
        return s.fin("slot_text_show", ops);
    }
    match s.u16_val() {
        Some(ti) => ops.push(n("text_ref", fmt_l1(ti))),
        None => ops.push(trunc_op()),
    }
    s.fin("slot_text_show", ops)
}

/// The text id and text reference of a message, either read as two words
/// or (mode bit 7) looked up through a key expression; `None` when the
/// input ends first, with the operands read so far.
pub open spec fn sp_text_ref(c: OpCtx, p: int, dynamic: bool, id_label: Seq<char>, src_label: Seq<char>, ref_label: Seq<char>)
    -> (Seq<SpecOperand>, int, bool) {
    if dynamic {
        let (key, p1) = sp_expr(c, p);
        (seq![tx(id_label, peek_text(key)), tx(src_label, "expr_lookup"@), ex("text_key"@, key)], p1, true)
    } else {
        match sp_u16(c, p) {
            (None, _) => (seq![tr()], p, false),
            (Some(mid), p1) => match sp_u16(c, p1) {
                (None, _) => (seq![tx(id_label, spec_fmt_u16(mid)), tr()], p1, false),
                (Some(ti), p2) => (seq![tx(id_label, spec_fmt_u16(mid)), tx(ref_label, spec_fmt_l1(ti))], p2, true),
            },
        }
    }
}

impl<'a> St<'a> {
    /// Appends what `sp_text_ref` reads; false when the input ended first.
    fn text_ref(&mut self, ops: &mut Vec<IlOperand>, dynamic: bool, id_label: &str, src_label: &str, ref_label: &str) -> (r: bool)
        requires
            old(self).ok(),
        ensures
            final(self).ok(),
            final(self).same(*old(self)),
            ({
                let t = sp_text_ref(old(self).ctx(), old(self).p as int, dynamic, id_label@, src_label@, ref_label@);
                operands_view(final(ops)@) == operands_view(old(ops)@) + t.0 && final(self).p == t.1 && r == t.2
            }),
    {
        let ghost pre = operands_view(ops@);
        if dynamic {
            let key = self.expr();
            ops.push(n(id_label, peek_label(&key)));
            ops.push(n(src_label, to_string("expr_lookup")));
            ops.push(ne("text_key", key));
            assert(operands_view(ops@) =~= pre + seq![
                tx(id_label@, peek_text(key@)),
                tx(src_label@, "expr_lookup"@),
                ex("text_key"@, key@),
            ]);
            return true;
        }
        let mid = match self.u16_val() {
            Some(v) => v,
            None => {
                ops.push(trunc_op());
                assert(operands_view(ops@) =~= pre + seq![tr()]);
                return false;
            },
        };
        ops.push(n(id_label, fmt_u16(mid)));
        match self.u16_val() {
            Some(ti) => {
                ops.push(n(ref_label, fmt_l1(ti)));
                assert(operands_view(ops@) =~= pre + seq![tx(id_label@, spec_fmt_u16(mid)), tx(ref_label@, spec_fmt_l1(ti))]);
                true
            },
            None => {
                ops.push(trunc_op());
                assert(operands_view(ops@) =~= pre + seq![tx(id_label@, spec_fmt_u16(mid)), tr()]);
                false
            },
        }
    }
}

/// Opcode 0112, the main text control: mode 0 clears a message; other
/// modes name a message and, with effective mode 2, a count.
pub open spec fn sp_main_text_control(c: OpCtx, p: int) -> SpecInstruction {
    let mn = "main_text_control"@;
    match sp_byte(c, p) {
        (None, _) => sp_trunc(c, p, mn),
        (Some(m), p1) => if m == 0 {
            match sp_u16(c, p1) {
                (None, _) => sp_fin(c, p1, mn, seq![hx("mode"@, m), tr()]),
                (Some(mid), p2) => {
                    let (tail, p3) = sp_expr(c, p2);
                    sp_fin(
                        c,
                        p3,
                        mn,
                        seq![hx("mode"@, m), tx("clear_id"@, spec_fmt_u16(mid)), ex("tail"@, tail), tx("clear_queue"@, "1"@)],
                    )
                },
            }
        } else {
            let eff = if m >= 0x80 {
                m - 0x80
            } else {
                m as int
            };
            let (t, p2, complete) = sp_text_ref(c, p1, m >= 0x80, "text_id"@, "text_id_src"@, "text_ref"@);
            let ops = seq![hx("mode"@, m)] + t;
            if !complete {
                sp_fin(c, p2, mn, ops)
            } else if eff == 2 {
                let (cnt, p3) = sp_expr(c, p2);
                sp_fin(c, p3, mn, ops.push(ex("count"@, cnt)))
            } else {
                sp_fin(c, p2, mn, ops)
            }
        },
    }
}

fn main_text_control(s: &mut St) -> (r: IlInstruction)
    requires
        old(s).ok(),
    ensures
        final(s).ok(),
        final(s).same(*old(s)),
        final(s).p == r.end,
        r.end >= old(s).offset + 2,
        r@ == sp_main_text_control(old(s).ctx(), old(s).p as int),
{
    let mode = match s.byte() {
        Some(b) => b,
        None => {
            return s.trunc("main_text_control");
        },
    };
    if mode == 0 {
        let mid = match s.u16_val() {
            Some(v) => v,
            None => {
                return s.fin("main_text_control", vec![n("mode", hex8(mode)), trunc_op()]);
            },
        };
        let tail = s.expr();
        return s.fin(
            "main_text_control",
            vec![n("mode", hex8(mode)), n("clear_id", fmt_u16(mid)), ne("tail", tail), n("clear_queue", to_string("1"))],
        );
    }
    let eff = if mode >= 0x80 {
        mode - 0x80
    } else {
        mode
    };
    let mut ops = vec![n("mode", hex8(mode))];
    let complete = s.text_ref(&mut ops, mode >= 0x80, "text_id", "text_id_src", "text_ref");
    if !complete {
        return s.fin("main_text_control", ops);
    }
    if eff == 2 {
        let cnt = s.expr();
        ops.push(ne("count", cnt));
    }
    s.fin("main_text_control", ops)
}

/// Table 01, opcodes 00 to 0F.
pub open spec fn spec_t01_a(c: OpCtx) -> Option<SpecInstruction> {
    let p = c.start();
    match c.index() {
        0x00 => Some(sp_byte_args(c, p, "op_0100"@, "mode"@, 3)),
        0x01 => Some(
            match sp_byte(c, p) {
                (None, _) => sp_trunc(c, p, "op_0101"@),
                (Some(m), p1) => sp_fin_args(c, p1, "op_0101"@, seq![hx("mode"@, m)], if m == 1 { 1 } else { 0 }),
            },
        ),
        0x02 => Some(sp_fin_args(c, p, "op_0102"@, Seq::empty(), 3)),
        0x03 => Some(sp_fin0(c, p, low_name(c))),
        0x04 => Some(sp_fin_args(c, p, "op_0104"@, Seq::empty(), 5)),
        0x05 => match sp_byte(c, p) {
            (None, _) => Some(sp_trunc(c, p, "op_0105"@)),
            (Some(m), p1) => if m == 0 || m == 1 {
                Some(sp_fin_args(c, p1, "op_0105"@, seq![hx("mode"@, m)], 2))
            } else if m == 2 {
                Some(sp_fin_args(c, p1, "op_0105"@, seq![hx("mode"@, m)], 3))
            } else {
                None
            },
        },
        0x06 => match sp_byte(c, p) {
            (None, _) => Some(sp_trunc(c, p, "op_0106"@)),
            (Some(sc), p1) => if sc == 0 {
                Some(sp_fin_args(c, p1, "op_0106"@, seq![hx("subcmd"@, sc)], 2))
            } else if sc == 1 {
                Some(sp_fin_args(c, p1, "op_0106"@, seq![hx("subcmd"@, sc)], 3))
            } else {
                None
            },
        },
        0x07 => Some(sp_fin_args(c, p, "op_0107"@, Seq::empty(), 3)),
        0x08 => Some(
            match sp_byte(c, p) {
                (None, _) => sp_trunc(c, p, "op_0108"@),
                (Some(sc), p1) => sp_fin_args(c, p1, "op_0108"@, seq![hx("subcmd"@, sc)], if sc == 0x0A { 1 } else { 0 }),
            },
        ),
        0x09 => sp_select_dialogue_slot(c, p),
        0x0A => Some(
            match sp_byte(c, p) {
                (None, _) => sp_trunc(c, p, "op_010a"@),
                (Some(m), p1) => sp_fin_args(
                    c,
                    p1,
                    "op_010a"@,
                    seq![hx("mode"@, m)],
                    if m != 4 && m != 5 && m % 2 == 0 {
                        1
                    } else {
                        0
                    },
                ),
            },
        ),
        0x0B => Some(sp_fin0(c, p, "prepare_dialogue_line"@)),
        0x0C => Some(sp_slot_text_show(c, p)),
        0x0D => Some(sp_mode_op(c, p, "op_010d"@)),
        0x0E => Some(sp_expr_label(c, p, "op_010e"@)),
        0x0F => Some(
            match sp_u16(c, p) {
                (None, _) => sp_trunc(c, p, "op_010f"@),
                (Some(a0), p1) => match sp_u16(c, p1) {
                    (None, _) => sp_trunc(c, p1, "op_010f"@),
                    (Some(a1), p2) => sp_fin(
                        c,
                        p2,
                        "op_010f"@,
                        seq![tx("arg0"@, spec_fmt_u16(a0)), tx("arg1"@, spec_fmt_u16(a1))],
                    ),
                },
            },
        ),
        _ => None,
    }
}

/// An expression and a label word.
pub open spec fn sp_expr_label(c: OpCtx, p: int, mnemonic: Seq<char>) -> SpecInstruction {
    let (a0, p1) = sp_expr(c, p);
    match sp_u16(c, p1) {
        (None, _) => sp_fin(c, p1, mnemonic, seq![ex("arg0"@, a0), tr()]),
        (Some(lbl), p2) => sp_fin(c, p2, mnemonic, seq![ex("arg0"@, a0), tx("label"@, spec_fmt_u16(lbl))]),
    }
}

impl<'a> St<'a> {
    fn expr_label(&mut self, mnemonic: &str) -> (r: IlInstruction)
        requires
            old(self).ok(),
        ensures
            final(self).ok(),
            final(self).same(*old(self)),
            final(self).p == r.end,
            r.end >= old(self).offset + 2,
            r@ == sp_expr_label(old(self).ctx(), old(self).p as int, mnemonic@),
    {
        let a0 = self.expr();
        match self.u16_val() {
            Some(lbl) => self.fin(mnemonic, vec![ne("arg0", a0), n("label", fmt_u16(lbl))]),
            None => self.fin(mnemonic, vec![ne("arg0", a0), trunc_op()]),
        }
    }
}

#[verifier::rlimit(40)]
#[verifier::spinoff_prover]
fn t01_a(s: &mut St) -> (r: Option<IlInstruction>)
    requires
        old(s).ok(),
        old(s).p == old(s).offset + 2,
    ensures
        final(s).ok(),
        final(s).same(*old(s)),
        r is Some ==> final(s).p == r->0.end,
        r is Some ==> r->0.end >= old(s).offset + 2,
        r is Some <==> spec_t01_a(old(s).ctx()) is Some,
        r is Some ==> r->0@ == spec_t01_a(old(s).ctx())->0,
{
    match s.opcode_id {
        0x00 => Some(s.byte_args("op_0100", "mode", 3)),
        0x01 => {
            let mode = match s.byte() {
                Some(b) => b,
                None => {
                    return Some(s.trunc("op_0101"));
                },
            };
            let k: usize = if mode == 1 {
                1
            } else {
                0
            };
            Some(s.fin_args("op_0101", vec![n("mode", hex8(mode))], k))
        },
        0x02 => Some(s.args_op("op_0102", 3)),
        0x03 => Some(s.stub()),
        0x04 => Some(s.args_op("op_0104", 5)),
        0x05 => {
            let mode = match s.byte() {
                Some(b) => b,
                None => {
                    return Some(s.trunc("op_0105"));
                },
            };
            if mode == 0 || mode == 1 {
                Some(s.fin_args("op_0105", vec![n("mode", hex8(mode))], 2))
            } else if mode == 2 {
                Some(s.fin_args("op_0105", vec![n("mode", hex8(mode))], 3))
            } else {
                None
            }
        },
        0x06 => {
            let sc = match s.byte() {
                Some(b) => b,
                None => {
                    return Some(s.trunc("op_0106"));
                },
            };
            if sc == 0 {
                Some(s.fin_args("op_0106", vec![n("subcmd", hex8(sc))], 2))
            } else if sc == 1 {
                Some(s.fin_args("op_0106", vec![n("subcmd", hex8(sc))], 3))
            } else {
                None
            }
        },
        0x07 => Some(s.args_op("op_0107", 3)),
        0x08 => {
            let sc = match s.byte() {
                Some(b) => b,
                None => {
                    return Some(s.trunc("op_0108"));
                },
            };
            let k: usize = if sc == 0x0A {
                1
            } else {
                0
            };
            Some(s.fin_args("op_0108", vec![n("subcmd", hex8(sc))], k))
        },
        0x09 => select_dialogue_slot(s),
        0x0A => {
            let mode = match s.byte() {
                Some(b) => b,
                None => {
                    return Some(s.trunc("op_010a"));
                },
            };
            let k: usize = if mode != 4 && mode != 5 && mode % 2 == 0 {
                1
            } else {
                0
            };
            Some(s.fin_args("op_010a", vec![n("mode", hex8(mode))], k))
        },
        0x0B => Some(s.fin0("prepare_dialogue_line")),
        0x0C => Some(slot_text_show(s)),
        0x0D => Some(s.mode_op("op_010d")),
        0x0E => Some(s.expr_label("op_010e")),
        0x0F => {
            let a0 = match s.u16_val() {
                Some(v) => v,
                None => {
                    return Some(s.trunc("op_010f"));
                },
            };
            let a1 = match s.u16_val() {
                Some(v) => v,
                None => {
                    return Some(s.trunc("op_010f"));
                },
            };
            Some(s.fin("op_010f", vec![n("arg0", fmt_u16(a0)), n("arg1", fmt_u16(a1))]))
        },
        _ => None,
    }
}

/// Opcode 0114, text substitution: modes 0 and 1 stand alone; bit 7 takes
/// a key expression, other modes a text reference.
pub open spec fn sp_text_sub(c: OpCtx, p: int) -> SpecInstruction {
    let mn = "text_sub"@;
    match sp_byte(c, p) {
        (None, _) => sp_trunc(c, p, mn),
        (Some(m), p1) => if m == 0 || m == 1 {
            sp_mode(c, p1, mn, m)
        } else if m >= 0x80 {
            let (key, p2) = sp_expr(c, p1);
            sp_fin(c, p2, mn, seq![hx("mode"@, m), ex("text_key"@, key), tx("sub"@, dec_text(m - 0x82))])
        } else {
            match sp_u16(c, p1) {
                (None, _) => sp_fin(c, p1, mn, seq![hx("mode"@, m), tr()]),
                (Some(ti), p2) => sp_fin(
                    c,
                    p2,
                    mn,
                    seq![hx("mode"@, m), tx("text"@, spec_fmt_l1(ti)), tx("sub"@, dec_text(m - 2))],
                ),
            }
        },
    }
}

fn text_sub(s: &mut St) -> (r: IlInstruction)
    requires
        old(s).ok(),
    ensures
        final(s).ok(),
        final(s).same(*old(s)),
        final(s).p == r.end,
        r.end >= old(s).offset + 2,
        r@ == sp_text_sub(old(s).ctx(), old(s).p as int),
{
    let mode = match s.byte() {
        Some(b) => b,
        None => {
            return s.trunc("text_sub");
        },
    };
    if mode == 0 || mode == 1 {
        s.mode("text_sub", mode)
    } else if mode >= 0x80 {
        let key = s.expr();
        s.fin("text_sub", vec![n("mode", hex8(mode)), ne("text_key", key), n("sub", dec_i64(mode as i64 - 0x82))])
    } else {
        match s.u16_val() {
            Some(ti) => s.fin(
                "text_sub",
                vec![n("mode", hex8(mode)), n("text", fmt_l1(ti)), n("sub", dec_i64(mode as i64 - 2))],
            ),
            None => s.fin("text_sub", vec![n("mode", hex8(mode)), trunc_op()]),
        }
    }
}

/// Opcode 011E: one expression for modes 0, 4 and 5; four and a tail byte
/// for modes 1, 9, 14h and 15h; five for mode 6.
pub open spec fn sp_op_011e(c: OpCtx, p: int) -> SpecInstruction {
    let mn = "op_011e"@;
    match sp_byte(c, p) {
        (None, _) => sp_trunc(c, p, mn),
        (Some(m), p1) => if m == 0 || m == 4 || m == 5 {
            sp_fin_args(c, p1, mn, seq![hx("mode"@, m)], 1)
        } else if m == 1 || m == 9 || m == 0x14 || m == 0x15 {
            let (args, p2) = sp_args(c, p1, 0, 4);
            match sp_byte(c, p2) {
                (None, _) => sp_fin(c, p2, mn, seq![hx("mode"@, m)] + args + seq![tr()]),
                (Some(t), p3) => sp_fin(c, p3, mn, seq![hx("mode"@, m)] + args + seq![hx("tail"@, t)]),
            }
        } else if m == 6 {
            sp_fin_args(c, p1, mn, seq![hx("mode"@, m)], 5)
        } else {
            sp_mode(c, p1, mn, m)
        },
    }
}

fn op_011e(s: &mut St) -> (r: IlInstruction)
    requires
        old(s).ok(),
    ensures
        final(s).ok(),
        final(s).same(*old(s)),
        final(s).p == r.end,
        r.end >= old(s).offset + 2,
        r@ == sp_op_011e(old(s).ctx(), old(s).p as int),
{
    let mode = match s.byte() {
        Some(b) => b,
        None => {
            return s.trunc("op_011e");
        },
    };
    if mode == 0 || mode == 4 || mode == 5 {
        s.fin_args("op_011e", vec![n("mode", hex8(mode))], 1)
    } else if mode == 1 || mode == 9 || mode == 0x14 || mode == 0x15 {
        let mut ops = vec![n("mode", hex8(mode))];
        s.push_args(&mut ops, 0, 4);
        match s.byte() {
            Some(t) => ops.push(n("tail", hex8(t))),
            None => ops.push(trunc_op()),
        }
        s.fin("op_011e", ops)
    } else if mode == 6 {
        s.fin_args("op_011e", vec![n("mode", hex8(mode))], 5)
    } else {
        s.mode("op_011e", mode)
    }
}

/// Table 01, opcodes 10 to 1F.
pub open spec fn spec_t01_b(c: OpCtx) -> Option<SpecInstruction> {
    let p = c.start();
    match c.index() {
        0x10 => Some(sp_subcmd_op(c, p, "op_0110"@)),
        0x11 => Some(
            match sp_byte(c, p) {
                (None, _) => sp_trunc(c, p, "slot_ui_effect"@),
                (Some(sc), p1) => if sc == 5 || sc == 6 || sc == 7 || sc == 8 {
                    let (e, p2) = sp_expr(c, p1);
                    sp_fin(c, p2, "slot_ui_effect"@, seq![hx("subcmd"@, sc), ex("slot"@, e)])
                } else {
                    sp_subcmd(c, p1, "slot_ui_effect"@, sc)
                },
            },
        ),
        0x12 => Some(sp_main_text_control(c, p)),
        0x13 => Some(
            match sp_byte(c, p) {
                (None, _) => sp_trunc(c, p, "op_0113"@),
                (Some(m), p1) => if m == 0 {
                    let (raw, p2) = sp_raw(c, p1, 12);
                    sp_fin(c, p2, "op_0113"@, seq![hx("mode"@, m), tx("opaque12"@, raw)])
                } else {
                    sp_fin_args(c, p1, "op_0113"@, seq![hx("mode"@, m)], if m == 2 { 1 } else { 0 })
                },
            },
        ),
        0x14 => Some(sp_text_sub(c, p)),
        0x15 => Some(
            match sp_byte(c, p) {
                (None, _) => sp_trunc(c, p, "op_0115"@),
                (Some(m), p1) => {
                    let slot = (m / 16) as u8;
                    let sc = (m % 16) as u8;
                    let head = seq![hx("slot"@, slot), hx("subcmd"@, sc)];
                    if sc == 0 {
                        let (e0, p2) = sp_expr(c, p1);
                        let (e1, p3) = sp_expr(c, p2);
                        sp_fin(c, p3, "op_0115"@, head + seq![ex("threshold"@, e0), ex("fallback_value"@, e1)])
                    } else if sc == 2 || sc == 3 {
                        let (e0, p2) = sp_expr(c, p1);
                        sp_fin(c, p2, "op_0115"@, head.push(ex("dst_var"@, e0)))
                    } else {
                        sp_fin(c, p1, "op_0115"@, head)
                    }
                },
            },
        ),
        0x16 => Some(
            match sp_byte(c, p) {
                (None, _) => sp_trunc(c, p, "op_0116"@),
                (Some(m), p1) => sp_fin_args(c, p1, "op_0116"@, seq![hx("mode"@, m)], if m != 0 { 1 } else { 0 }),
            },
        ),
        0x17 | 0x18 | 0x19 | 0x1A | 0x1B | 0x1C | 0x1D | 0x1F => Some(sp_fin0(c, p, low_name(c))),
        0x1E => Some(sp_op_011e(c, p)),
        _ => None,
    }
}

#[verifier::rlimit(40)]
#[verifier::spinoff_prover]
fn t01_b(s: &mut St) -> (r: Option<IlInstruction>)
    requires
        old(s).ok(),
        old(s).p == old(s).offset + 2,
    ensures
        final(s).ok(),
        final(s).same(*old(s)),
        r is Some ==> final(s).p == r->0.end,
        r is Some ==> r->0.end >= old(s).offset + 2,
        r is Some <==> spec_t01_b(old(s).ctx()) is Some,
        r is Some ==> r->0@ == spec_t01_b(old(s).ctx())->0,
{
    match s.opcode_id {
        0x10 => Some(s.subcmd_op("op_0110")),
        0x11 => {
            let sc = match s.byte() {
                Some(b) => b,
                None => {
                    return Some(s.trunc("slot_ui_effect"));
                },
            };
            if sc == 5 || sc == 6 || sc == 7 || sc == 8 {
                let e = s.expr();
                Some(s.fin("slot_ui_effect", vec![n("subcmd", hex8(sc)), ne("slot", e)]))
            } else {
                Some(s.subcmd("slot_ui_effect", sc))
            }
        },
        0x12 => Some(main_text_control(s)),
        0x13 => {
            let mode = match s.byte() {
                Some(b) => b,
                None => {
                    return Some(s.trunc("op_0113"));
                },
            };
            if mode == 0 {
                let raw = s.raw_bytes(12);
                Some(s.fin("op_0113", vec![n("mode", hex8(mode)), n("opaque12", raw)]))
            } else {
                let k: usize = if mode == 2 {
                    1
                } else {
                    0
                };
                Some(s.fin_args("op_0113", vec![n("mode", hex8(mode))], k))
            }
        },
        0x14 => Some(text_sub(s)),
        0x15 => {
            let mode = match s.byte() {
                Some(b) => b,
                None => {
                    return Some(s.trunc("op_0115"));
                },
            };
            let slot = mode / 16;
            let sc = mode % 16;
            if sc == 0 {
                let e0 = s.expr();
                let e1 = s.expr();
                Some(
                    s.fin(
                        "op_0115",
                        vec![n("slot", hex8(slot)), n("subcmd", hex8(sc)), ne("threshold", e0), ne("fallback_value", e1)],
                    ),
                )
            } else if sc == 2 || sc == 3 {
                let e0 = s.expr();
                Some(s.fin("op_0115", vec![n("slot", hex8(slot)), n("subcmd", hex8(sc)), ne("dst_var", e0)]))
            } else {
                Some(s.fin("op_0115", vec![n("slot", hex8(slot)), n("subcmd", hex8(sc))]))
            }
        },
        0x16 => {
            let mode = match s.byte() {
                Some(b) => b,
                None => {
                    return Some(s.trunc("op_0116"));
                },
            };
            let k: usize = if mode != 0 {
                1
            } else {
                0
            };
            Some(s.fin_args("op_0116", vec![n("mode", hex8(mode))], k))
        },
        0x17..=0x1D | 0x1F => Some(s.stub()),
        0x1E => Some(op_011e(s)),
        _ => None,
    }
}

/// Opcode 0122: mode 63h takes two expressions, other modes a byte; two
/// more expressions follow either way.
pub open spec fn sp_op_0122(c: OpCtx, p: int) -> SpecInstruction {
    let mn = "op_0122"@;
    match sp_byte(c, p) {
        (None, _) => sp_trunc(c, p, mn),
        (Some(m), p1) => if m == 0x63 {
            let (a, p2) = sp_args(c, p1, 0, 2);
            sp_fin_args_from(c, p2, mn, seq![hx("mode"@, m)] + a, 2, 4)
        } else {
            match sp_byte(c, p1) {
                (None, _) => sp_fin(c, p1, mn, seq![hx("mode"@, m), tr()]),
                (Some(a1), p2) => sp_fin_args_from(c, p2, mn, seq![hx("mode"@, m), hx("arg1"@, a1)], 2, 4),
            }
        },
    }
}

/// The operands `ops` followed by the named expressions `arg{i}` ..
/// `arg{k-1}`.
pub open spec fn sp_fin_args_from(c: OpCtx, p: int, mnemonic: Seq<char>, ops: Seq<SpecOperand>, i: int, k: int) -> SpecInstruction {
    let (args, p1) = sp_args(c, p, i, k);
    sp_fin(c, p1, mnemonic, ops + args)
}

fn op_0122(s: &mut St) -> (r: IlInstruction)
    requires
        old(s).ok(),
    ensures
        final(s).ok(),
        final(s).same(*old(s)),
        final(s).p == r.end,
        r.end >= old(s).offset + 2,
        r@ == sp_op_0122(old(s).ctx(), old(s).p as int),
{
    let mode = match s.byte() {
        Some(b) => b,
        None => {
            return s.trunc("op_0122");
        },
    };
    let mut ops = vec![n("mode", hex8(mode))];
    if mode == 0x63 {
        s.push_args(&mut ops, 0, 2);
    } else {
        match s.byte() {
            Some(a1) => ops.push(n("arg1", hex8(a1))),
            None => {
                ops.push(trunc_op());
                return s.fin("op_0122", ops);
            },
        }
    }
    s.push_args(&mut ops, 2, 4);
    s.fin("op_0122", ops)
}

/// Opcode 0125, a text variant: the low four bits give the variant; 1 adds
/// two expressions before the text, 3 three after it; bit 7 looks the text
/// up through a key expression.
pub open spec fn sp_text_variant(c: OpCtx, p: int) -> SpecInstruction {
    let mn = "text_variant"@;
    match sp_byte(c, p) {
        (None, _) => sp_trunc(c, p, mn),
        (Some(m), p1) => {
            let sub = m % 16;
            let head = seq![hx("mode"@, m), tx("sub"@, dec_text(sub as int))];
            let (o1, q1) = if sub == 1 {
                let (e0, q) = sp_expr(c, p1);
                let (e1, q2) = sp_expr(c, q);
                (head + seq![ex("expr_a"@, e0), ex("expr_b"@, e1)], q2)
            } else {
                (head, p1)
            };
            let (t, q2, complete) = sp_text_ref(c, q1, m >= 0x80, "id"@, "id_src"@, "text"@);
            let o2 = o1 + t;
            if !complete {
                sp_fin(c, q2, mn, o2)
            } else if sub == 3 {
                let (e0, r1) = sp_expr(c, q2);
                let (e1, r2) = sp_expr(c, r1);
                let (e2, r3) = sp_expr(c, r2);
                sp_fin(c, r3, mn, o2 + seq![px(e0), px(e1), px(e2)])
            } else {
                sp_fin(c, q2, mn, o2)
            }
        },
    }
}

fn text_variant(s: &mut St) -> (r: IlInstruction)
    requires
        old(s).ok(),
    ensures
        final(s).ok(),
        final(s).same(*old(s)),
        final(s).p == r.end,
        r.end >= old(s).offset + 2,
        r@ == sp_text_variant(old(s).ctx(), old(s).p as int),
{
    let mode = match s.byte() {
        Some(b) => b,
        None => {
            return s.trunc("text_variant");
        },
    };
    let sub = mode % 16;
    let mut ops = vec![n("mode", hex8(mode)), n("sub", dec_u8(sub))];
    if sub == 1 {
        let e0 = s.expr();
        let e1 = s.expr();
        ops.push(ne("expr_a", e0));
        ops.push(ne("expr_b", e1));
    }
    let complete = s.text_ref(&mut ops, mode >= 0x80, "id", "id_src", "text");
    if !complete {
        return s.fin("text_variant", ops);
    }
    if sub == 3 {
        let e0 = s.expr();
        let e1 = s.expr();
        let e2 = s.expr();
        ops.push(pe(e0));
        ops.push(pe(e1));
        ops.push(pe(e2));
    }
    s.fin("text_variant", ops)
}

/// Opcode 012C: the low five bits of the mode split into a group and a
/// sub-command; sub-command 0 takes a text index and a command byte, 2 one
/// expression, 3 two.
pub open spec fn sp_op_012c(c: OpCtx, p: int) -> SpecInstruction {
    let mn = "op_012c"@;
    match sp_byte(c, p) {
        (None, _) => sp_trunc(c, p, mn),
        (Some(m), p1) => {
            let low = m % 32;
            let group = low / 4;
            let sc = low % 4;
            let head = seq![hx("mode"@, m), tx("group"@, dec_text(group as int)), tx("subcmd"@, dec_text(sc as int))];
            if sc == 0 {
                match sp_u16(c, p1) {
                    (None, _) => sp_fin(c, p1, mn, head.push(tr())),
                    (Some(ti), p2) => match sp_byte(c, p2) {
                        (None, _) => sp_fin(c, p2, mn, head.push(tr())),
                        (Some(cmd), p3) => sp_fin(
                            c,
                            p3,
                            mn,
                            head.push(tx("table1"@, spec_fmt_u16(ti))).push(hx("cmd"@, cmd)),
                        ),
                    },
                }
            } else if sc == 2 {
                sp_fin_args(c, p1, mn, head, 1)
            } else if sc == 3 {
                sp_fin_args(c, p1, mn, head, 2)
            } else {
                sp_fin(c, p1, mn, head)
            }
        },
    }
}

fn op_012c(s: &mut St) -> (r: IlInstruction)
    requires
        old(s).ok(),
    ensures
        final(s).ok(),
        final(s).same(*old(s)),
        final(s).p == r.end,
        r.end >= old(s).offset + 2,
        r@ == sp_op_012c(old(s).ctx(), old(s).p as int),
{
    let mode = match s.byte() {
        Some(b) => b,
        None => {
            return s.trunc("op_012c");
        },
    };
    let low = mode % 32;
    let group = low / 4;
    let sc = low % 4;
    let mut ops = vec![n("mode", hex8(mode)), n("group", dec_u8(group)), n("subcmd", dec_u8(sc))];
    if sc == 0 {
        let ti = match s.u16_val() {
            Some(v) => v,
            None => {
                ops.push(trunc_op());
                return s.fin("op_012c", ops);
            },
        };
        let cmd = match s.byte() {
            Some(b) => b,
            None => {
                ops.push(trunc_op());
                return s.fin("op_012c", ops);
            },
        };
        ops.push(n("table1", fmt_u16(ti)));
        ops.push(n("cmd", hex8(cmd)));
        s.fin("op_012c", ops)
    } else if sc == 2 {
        s.fin_args("op_012c", ops, 1)
    } else if sc == 3 {
        s.fin_args("op_012c", ops, 2)
    } else {
        s.fin("op_012c", ops)
    }
}

/// Table 01, opcodes 20 to 2F.
pub open spec fn spec_t01_c(c: OpCtx) -> Option<SpecInstruction> {
    let p = c.start();
    match c.index() {
        0x20 => Some(sp_fin_args(c, p, "op_0120"@, Seq::empty(), 1)),
        0x21 => Some(sp_expr_label(c, p, "op_0121"@)),
        0x22 => Some(sp_op_0122(c, p)),
        0x23 => Some(sp_mode_op(c, p, "op_0123"@)),
        0x24 | 0x26 | 0x29 | 0x2A | 0x2B | 0x2E | 0x2F => Some(sp_fin0(c, p, low_name(c))),
        0x25 => Some(sp_text_variant(c, p)),
        0x27 => Some(sp_mode_op(c, p, "op_0127"@)),
        0x28 => Some(
            match sp_byte(c, p) {
                (None, _) => sp_trunc(c, p, "op_0128"@),
                (Some(m), p1) => if m == 2 || m == 3 {
                    match sp_u16(c, p1) {
                        (None, _) => sp_fin(c, p1, "op_0128"@, seq![hx("mode"@, m), tr()]),
                        (Some(raw), p2) => sp_fin(c, p2, "op_0128"@, seq![hx("mode"@, m), tx("raw_u16"@, spec_fmt_u16(raw))]),
                    }
                } else {
                    sp_fin_args(c, p1, "op_0128"@, seq![hx("mode"@, m)], if m == 4 || m == 5 || m == 6 { 1 } else { 0 })
                },
            },
        ),
        0x2C => Some(sp_op_012c(c, p)),
        0x2D => Some(
            match sp_byte(c, p) {
                (None, _) => sp_trunc(c, p, "op_012d"@),
                (Some(m), p1) => sp_fin_args(c, p1, "op_012d"@, seq![hx("mode"@, m)], if m == 2 { 1 } else { 0 }),
            },
        ),
        _ => None,
    }
}

#[verifier::rlimit(40)]
#[verifier::spinoff_prover]
fn t01_c(s: &mut St) -> (r: Option<IlInstruction>)
    requires
        old(s).ok(),
        old(s).p == old(s).offset + 2,
    ensures
        final(s).ok(),
        final(s).same(*old(s)),
        r is Some ==> final(s).p == r->0.end,
        r is Some ==> r->0.end >= old(s).offset + 2,
        r is Some <==> spec_t01_c(old(s).ctx()) is Some,
        r is Some ==> r->0@ == spec_t01_c(old(s).ctx())->0,
{
    match s.opcode_id {
        0x20 => Some(s.args_op("op_0120", 1)),
        0x21 => Some(s.expr_label("op_0121")),
        0x22 => Some(op_0122(s)),
        0x23 => Some(s.mode_op("op_0123")),
        0x24 | 0x26 | 0x29..=0x2B | 0x2E | 0x2F => Some(s.stub()),
        0x25 => Some(text_variant(s)),
        0x27 => Some(s.mode_op("op_0127")),
        0x28 => {
            let mode = match s.byte() {
                Some(b) => b,
                None => {
                    return Some(s.trunc("op_0128"));
                },
            };
            if mode == 2 || mode == 3 {
                match s.u16_val() {
                    Some(raw) => Some(s.fin("op_0128", vec![n("mode", hex8(mode)), n("raw_u16", fmt_u16(raw))])),
                    None => Some(s.fin("op_0128", vec![n("mode", hex8(mode)), trunc_op()])),
                }
            } else {
                let k: usize = if mode == 4 || mode == 5 || mode == 6 {
                    1
                } else {
                    0
                };
                Some(s.fin_args("op_0128", vec![n("mode", hex8(mode))], k))
            }
        },
        0x2C => Some(op_012c(s)),
        0x2D => {
            let mode = match s.byte() {
                Some(b) => b,
                None => {
                    return Some(s.trunc("op_012d"));
                },
            };
            let k: usize = if mode == 2 {
                1
            } else {
                0
            };
            Some(s.fin_args("op_012d", vec![n("mode", hex8(mode))], k))
        },
        _ => None,
    }
}

/// Opcode 0131: a sub-command byte, then for sub-commands 0 to 3 a byte and
/// up to three expressions.
pub open spec fn sp_op_0131(c: OpCtx, p: int) -> SpecInstruction {
    let mn = "op_0131"@;
    match sp_byte(c, p) {
        (None, _) => sp_trunc(c, p, mn),
        (Some(sc), p1) => if p1 >= c.max {
            sp_fin(c, p1, mn, seq![hx("subcmd"@, sc), tr()])
        } else if sc <= 3 {
            let a0 = c.data[p1];
            let head = seq![hx("subcmd"@, sc), hx("arg0"@, a0)];
            let k = if sc == 1 {
                4
            } else if sc == 3 {
                3
            } else {
                1
            };
            sp_fin_args_from(c, p1 + 1, mn, head, 1, k)
        } else {
            sp_subcmd(c, p1, mn, sc)
        },
    }
}

fn op_0131(s: &mut St) -> (r: IlInstruction)
    requires
        old(s).ok(),
    ensures
        final(s).ok(),
        final(s).same(*old(s)),
        final(s).p == r.end,
        r.end >= old(s).offset + 2,
        r@ == sp_op_0131(old(s).ctx(), old(s).p as int),
{
    proof {
        reveal(sp_byte);
    }
    let sc = match s.byte() {
        Some(b) => b,
        None => {
            return s.trunc("op_0131");
        },
    };
    if s.p >= s.max {
        return s.fin("op_0131", vec![n("subcmd", hex8(sc)), trunc_op()]);
    }
    if sc <= 3 {
        let a0 = match s.byte() {
            Some(b) => b,
            None => {
                return s.trunc("op_0131");
            },
        };
        let k: usize = if sc == 1 {
            4
        } else if sc == 3 {
            3
        } else {
            1
        };
        let mut ops = vec![n("subcmd", hex8(sc)), n("arg0", hex8(a0))];
        s.push_args(&mut ops, 1, k);
        s.fin("op_0131", ops)
    } else {
        s.subcmd("op_0131", sc)
    }
}

/// Table 01, opcodes 30 to 40.
pub open spec fn spec_t01_d(c: OpCtx) -> Option<SpecInstruction> {
    let p = c.start();
    let i = c.index();
    if i == 0x30 {
        Some(
            match sp_byte(c, p) {
                (None, _) => sp_trunc(c, p, "op_0130"@),
                (Some(m), p1) => sp_fin_args(c, p1, "op_0130"@, seq![hx("mode"@, m)], if m != 0 { 9 } else { 3 }),
            },
        )
    } else if i == 0x31 {
        Some(sp_op_0131(c, p))
    } else if 0x32 <= i <= 0x40 {
        Some(sp_fin0(c, p, low_name(c)))
    } else {
        None
    }
}

#[verifier::rlimit(40)]
#[verifier::spinoff_prover]
fn t01_d(s: &mut St) -> (r: Option<IlInstruction>)
    requires
        old(s).ok(),
        old(s).p == old(s).offset + 2,
    ensures
        final(s).ok(),
        final(s).same(*old(s)),
        r is Some ==> final(s).p == r->0.end,
        r is Some ==> r->0.end >= old(s).offset + 2,
        r is Some <==> spec_t01_d(old(s).ctx()) is Some,
        r is Some ==> r->0@ == spec_t01_d(old(s).ctx())->0,
{
    match s.opcode_id {
        0x30 => {
            let mode = match s.byte() {
                Some(b) => b,
                None => {
                    return Some(s.trunc("op_0130"));
                },
            };
            let k: usize = if mode != 0 {
                9
            } else {
                3
            };
            Some(s.fin_args("op_0130", vec![n("mode", hex8(mode))], k))
        },
        0x31 => Some(op_0131(s)),
        0x32..=0x40 => Some(s.stub()),
        _ => None,
    }
}

/// Table 01: dialogue, text and slot commands.
pub open spec fn spec_table01(c: OpCtx) -> Option<SpecInstruction> {
    let i = c.index();
    if i < 0x10 {
        spec_t01_a(c)
    } else if i < 0x20 {
        spec_t01_b(c)
    } else if i < 0x30 {
        spec_t01_c(c)
    } else {
        spec_t01_d(c)
    }
}

#[verifier::rlimit(40)]
#[verifier::spinoff_prover]
fn table01(s: &mut St) -> (r: Option<IlInstruction>)
    requires
        old(s).ok(),
        old(s).p == old(s).offset + 2,
    ensures
        final(s).ok(),
        final(s).same(*old(s)),
        r is Some ==> final(s).p == r->0.end,
        r is Some ==> r->0.end >= old(s).offset + 2,
        r is Some <==> spec_table01(old(s).ctx()) is Some,
        r is Some ==> r->0@ == spec_table01(old(s).ctx())->0,
{
    let i = s.opcode_id;
    if i < 0x10 {
        t01_a(s)
    } else if i < 0x20 {
        t01_b(s)
    } else if i < 0x30 {
        t01_c(s)
    } else {
        t01_d(s)
    }
}

// ── Table 10 ──

/// Opcode 1004: a mode byte and two expressions, then two more from mode 4
/// on, or one (named `arg3`) below it.
pub open spec fn sp_op_1004(c: OpCtx, p: int) -> SpecInstruction {
    let mn = "op_1004"@;
    match sp_byte(c, p) {
        (None, _) => sp_trunc(c, p, mn),
        (Some(m), p1) => if m >= 4 {
            sp_fin_args(c, p1, mn, seq![hx("mode"@, m)], 4)
        } else {
            let (a, p2) = sp_args(c, p1, 0, 2);
            sp_fin_args_from(c, p2, mn, seq![hx("mode"@, m)] + a, 3, 4)
        },
    }
}

fn op_1004(s: &mut St) -> (r: IlInstruction)
    requires
        old(s).ok(),
    ensures
        final(s).ok(),
        final(s).same(*old(s)),
        final(s).p == r.end,
        r.end >= old(s).offset + 2,
        r@ == sp_op_1004(old(s).ctx(), old(s).p as int),
{
    let mode = match s.byte() {
        Some(b) => b,
        None => {
            return s.trunc("op_1004");
        },
    };
    if mode >= 4 {
        s.fin_args("op_1004", vec![n("mode", hex8(mode))], 4)
    } else {
        let mut ops = vec![n("mode", hex8(mode))];
        s.push_args(&mut ops, 0, 2);
        s.push_args(&mut ops, 3, 4);
        s.fin("op_1004", ops)
    }
}

/// Opcode 102C: entry commands by sub-command; other sub-commands than 0
/// to 4 and 0Ah are not part of the table.
pub open spec fn sp_op_102c(c: OpCtx, p: int) -> Option<SpecInstruction> {
    let nm = low_name(c);
    match sp_byte(c, p) {
        (None, _) => Some(sp_trunc(c, p, nm)),
        (Some(sc), p1) => {
            let head = seq![hx("subcmd"@, sc)];
            if sc == 0 || sc == 1 || sc == 2 {
                let (entry, p2) = sp_expr(c, p1);
                let k = if sc == 0 {
                    2
                } else if sc == 1 {
                    4
                } else {
                    0
                };
                let (params, p3) = sp_params(c, p2, 0, k);
                Some(sp_fin(c, p3, nm, head.push(ex("entry"@, entry)) + params))
            } else if sc == 3 {
                let (entry, p2) = sp_expr(c, p1);
                match sp_byte(c, p2) {
                    (None, _) => Some(sp_trunc(c, p2, nm)),
                    (Some(m), p3) => Some(sp_fin(c, p3, nm, head.push(ex("entry"@, entry)).push(hx("mode"@, m)))),
                }
            } else if sc == 4 {
                match sp_byte(c, p1) {
                    (None, _) => Some(sp_trunc(c, p1, nm)),
                    (Some(m), p2) => if m != 0 {
                        Some(sp_fin(c, p2, nm, head.push(hx("mode"@, m))))
                    } else {
                        let (entry, p3) = sp_expr(c, p2);
                        Some(sp_fin(c, p3, nm, head.push(hx("mode"@, m)).push(ex("entry"@, entry))))
                    },
                }
            } else if sc == 0x0A {
                Some(sp_subcmd(c, p1, nm, sc))
            } else {
                None
            }
        },
    }
}

/// `paramN`.
pub open spec fn param_name(i: int) -> Seq<char> {
    "param"@ + dec_text(i)
}

/// Named expressions `param{i}` .. `param{k-1}`.
pub open spec fn sp_params(c: OpCtx, p: int, i: int, k: int) -> (Seq<SpecOperand>, int)
    decreases k - i,
{
    if i >= k {
        (Seq::empty(), p)
    } else {
        let (e, p1) = sp_expr(c, p);
        let (rest, p2) = sp_params(c, p1, i + 1, k);
        (seq![ex(param_name(i), e)] + rest, p2)
    }
}

fn param_label(i: usize) -> (r: String)
    requires
        i < 100,
    ensures
        r@ == param_name(i as int),
{
    let mut s = to_string("param");
    push_dec(&mut s, i as i64);
    s
}

impl<'a> St<'a> {
    /// Appends the named expressions `param0` .. `param{k-1}` to `ops`.
    fn push_params(&mut self, ops: &mut Vec<IlOperand>, k: usize)
        requires
            old(self).ok(),
            k < 100,
        ensures
            final(self).ok(),
            final(self).same(*old(self)),
            ({
                let a = sp_params(old(self).ctx(), old(self).p as int, 0, k as int);
                operands_view(final(ops)@) == operands_view(old(ops)@) + a.0 && final(self).p == a.1
            }),
    {
        let ghost c = self.ctx();
        let ghost p0 = self.p as int;
        let ghost pre = operands_view(ops@);
        let mut j: usize = 0;
        assert(pre + Seq::<SpecOperand>::empty() =~= pre);
        while j < k
            invariant
                self.ok(),
                self.ctx() == c,
                self.same(*old(self)),
                k < 100,
                sp_params(c, p0, 0, k as int) == ({
                    let rest = sp_params(c, self.p as int, j as int, k as int);
                    (operands_view(ops@).subrange(pre.len() as int, operands_view(ops@).len() as int) + rest.0, rest.1)
                }),
                operands_view(ops@).subrange(0, pre.len() as int) == pre,
                pre.len() <= ops@.len(),
            decreases k - j,
        {
            let ghost before = operands_view(ops@);
            let name = param_label(j);
            let e = self.expr();
            ops.push(ne(name.as_str(), e));
            assert(operands_view(ops@).subrange(0, pre.len() as int) =~= pre);
            assert(operands_view(ops@).subrange(pre.len() as int, operands_view(ops@).len() as int) =~= before.subrange(
                pre.len() as int,
                before.len() as int,
            ).push(ex(param_name(j as int), e@)));
            j = j + 1;
        }
        assert(operands_view(ops@) =~= pre + operands_view(ops@).subrange(pre.len() as int, operands_view(ops@).len() as int));
    }
}

fn op_102c(s: &mut St) -> (r: Option<IlInstruction>)
    requires
        old(s).ok(),
    ensures
        final(s).ok(),
        final(s).same(*old(s)),
        r is Some ==> final(s).p == r->0.end,
        r is Some ==> r->0.end >= old(s).offset + 2,
        r is Some <==> sp_op_102c(old(s).ctx(), old(s).p as int) is Some,
        r is Some ==> r->0@ == sp_op_102c(old(s).ctx(), old(s).p as int)->0,
{
    let nm = s.low_name();
    let sc = match s.byte() {
        Some(b) => b,
        None => {
            return Some(s.trunc(nm.as_str()));
        },
    };
    let mut ops = vec![n("subcmd", hex8(sc))];
    if sc == 0 || sc == 1 || sc == 2 {
        let entry = s.expr();
        ops.push(ne("entry", entry));
        let k: usize = if sc == 0 {
            2
        } else if sc == 1 {
            4
        } else {
            0
        };
        s.push_params(&mut ops, k);
        Some(s.fin(nm.as_str(), ops))
    } else if sc == 3 {
        let entry = s.expr();
        let m = match s.byte() {
            Some(b) => b,
            None => {
                return Some(s.trunc(nm.as_str()));
            },
        };
        ops.push(ne("entry", entry));
        ops.push(n("mode", hex8(m)));
        Some(s.fin(nm.as_str(), ops))
    } else if sc == 4 {
        let m = match s.byte() {
            Some(b) => b,
            None => {
                return Some(s.trunc(nm.as_str()));
            },
        };
        ops.push(n("mode", hex8(m)));
        if m == 0 {
            let entry = s.expr();
            ops.push(ne("entry", entry));
        }
        Some(s.fin(nm.as_str(), ops))
    } else if sc == 0x0A {
        Some(s.subcmd(nm.as_str(), sc))
    } else {
        None
    }
}

/// Table 10, opcodes 00 to 1F.
pub open spec fn spec_t10_a(c: OpCtx) -> Option<SpecInstruction> {
    let p = c.start();
    match c.index() {
        0x00 => {
            let (e, p1) = sp_expr(c, p);
            Some(sp_fin(c, p1, "op_0066_01c6_1000"@, seq![ex("action"@, e)]))
        },
        0x01 => Some(
            match sp_byte(c, p) {
                (None, _) => sp_trunc(c, p, low_name(c)),
                (Some(m), p1) => sp_fin_args(c, p1, low_name(c), seq![hx("mode"@, m)], if m % 128 == 0x10 { 3 } else { 2 }),
            },
        ),
        0x02 => Some(sp_fin_args(c, p, "op_1002"@, Seq::empty(), 2)),
        0x03 => Some(sp_fin_args(c, p, "op_1003"@, Seq::empty(), 2)),
        0x04 => Some(sp_op_1004(c, p)),
        0x05 => Some(sp_fin_args(c, p, "op_1005"@, Seq::empty(), 1)),
        0x06 => Some(sp_fin_args(c, p, "op_1006"@, Seq::empty(), 2)),
        0x07 => Some(sp_fin_args(c, p, "op_1007"@, Seq::empty(), 2)),
        0x08 | 0x0A | 0x0D | 0x11 | 0x12 | 0x18 | 0x19 | 0x1E => Some(sp_fin0(c, p, low_name(c))),
        0x09 | 0x0E | 0x16 => Some(sp_fin_args(c, p, low_name(c), Seq::empty(), 2)),
        0x0B => Some(sp_fin0(c, p, "op_100b"@)),
        0x0C | 0x15 | 0x1B | 0x1C => Some(sp_mode_op(c, p, low_name(c))),
        0x0F => Some(sp_byte_args(c, p, "op_100f"@, "mode"@, 2)),
        0x10 => Some(sp_fin_args(c, p, "op_1010"@, Seq::empty(), 1)),
        0x13 => Some(
            match sp_byte(c, p) {
                (None, _) => sp_trunc(c, p, "op_1013"@),
                (Some(sc), p1) => sp_fin_args(c, p1, "op_1013"@, seq![hx("subcmd"@, sc)], if sc == 5 { 2 } else { 0 }),
            },
        ),
        0x14 => Some(sp_mode_op(c, p, "op_1014"@)),
        0x17 => Some(sp_fin_args(c, p, "op_1017"@, Seq::empty(), 1)),
        0x1A => Some(sp_subcmd_op(c, p, "op_101a"@)),
        0x1D => Some(sp_mode_op(c, p, "op_101d"@)),
        0x1F => Some(sp_subcmd_op(c, p, "op_101f"@)),
        _ => None,
    }
}

#[verifier::rlimit(40)]
#[verifier::spinoff_prover]
fn t10_a(s: &mut St) -> (r: Option<IlInstruction>)
    requires
        old(s).ok(),
        old(s).p == old(s).offset + 2,
    ensures
        final(s).ok(),
        final(s).same(*old(s)),
        r is Some ==> final(s).p == r->0.end,
        r is Some ==> r->0.end >= old(s).offset + 2,
        r is Some <==> spec_t10_a(old(s).ctx()) is Some,
        r is Some ==> r->0@ == spec_t10_a(old(s).ctx())->0,
{
    match s.opcode_id {
        0x00 => {
            let e = s.expr();
            Some(s.fin("op_0066_01c6_1000", vec![ne("action", e)]))
        },
        0x01 => {
            let nm = s.low_name();
            let mode = match s.byte() {
                Some(b) => b,
                None => {
                    return Some(s.trunc(nm.as_str()));
                },
            };
            let k: usize = if mode % 128 == 0x10 {
                3
            } else {
                2
            };
            Some(s.fin_args(nm.as_str(), vec![n("mode", hex8(mode))], k))
        },
        0x02 => Some(s.args_op("op_1002", 2)),
        0x03 => Some(s.args_op("op_1003", 2)),
        0x04 => Some(op_1004(s)),
        0x05 => Some(s.args_op("op_1005", 1)),
        0x06 => Some(s.args_op("op_1006", 2)),
        0x07 => Some(s.args_op("op_1007", 2)),
        0x08 | 0x0A | 0x0D | 0x11 | 0x12 | 0x18 | 0x19 | 0x1E => Some(s.stub()),
        0x09 | 0x0E | 0x16 => {
            let nm = s.low_name();
            Some(s.args_op(nm.as_str(), 2))
        },
        0x0B => Some(s.fin0("op_100b")),
        0x0C | 0x15 | 0x1B | 0x1C => {
            let nm = s.low_name();
            Some(s.mode_op(nm.as_str()))
        },
        0x0F => Some(s.byte_args("op_100f", "mode", 2)),
        0x10 => Some(s.args_op("op_1010", 1)),
        0x13 => {
            let sc = match s.byte() {
                Some(b) => b,
                None => {
                    return Some(s.trunc("op_1013"));
                },
            };
            let k: usize = if sc == 5 {
                2
            } else {
                0
            };
            Some(s.fin_args("op_1013", vec![n("subcmd", hex8(sc))], k))
        },
        0x14 => Some(s.mode_op("op_1014")),
        0x17 => Some(s.args_op("op_1017", 1)),
        0x1A => Some(s.subcmd_op("op_101a")),
        0x1D => Some(s.mode_op("op_101d")),
        0x1F => Some(s.subcmd_op("op_101f")),
        _ => None,
    }
}

/// Table 10, opcodes 20 to 40.
pub open spec fn spec_t10_b(c: OpCtx) -> Option<SpecInstruction> {
    let p = c.start();
    match c.index() {
        0x20 | 0x36 => Some(sp_mode_op(c, p, low_name(c))),
        0x21 => Some(sp_mode_op(c, p, "op_1021"@)),
        0x22 => Some(
            match sp_byte(c, p) {
                (None, _) => sp_trunc(c, p, "snapshot_control"@),
                (Some(m), p1) => if m == 0x0A {
                    match sp_u16(c, p1) {
                        (None, _) => sp_trunc(c, p1, "snapshot_control"@),
                        (Some(vid), p2) => sp_fin(
                            c,
                            p2,
                            "snapshot_control"@,
                            seq![hx("mode"@, m), tx("aux_id"@, spec_fmt_u16(vid))],
                        ),
                    }
                } else {
                    sp_mode(c, p1, "snapshot_control"@, m)
                },
            },
        ),
        0x23 => Some(
            match sp_byte(c, p) {
                (None, _) => sp_trunc(c, p, low_name(c)),
                (Some(sc), p1) => if sc == 0 {
                    match sp_byte(c, p1) {
                        (None, _) => sp_fin(c, p1, low_name(c), seq![hx("subcmd"@, sc), tr()]),
                        (Some(a0), p2) => sp_fin(c, p2, low_name(c), seq![hx("subcmd"@, sc), hx("arg0"@, a0)]),
                    }
                } else {
                    sp_subcmd(c, p1, low_name(c), sc)
                },
            },
        ),
        0x24 => Some(
            match sp_byte(c, p) {
                (None, _) => sp_trunc(c, p, "op_1024"@),
                (Some(m), p1) => sp_fin_args(c, p1, "op_1024"@, seq![hx("mode"@, m)], if m == 0 { 2 } else { 0 }),
            },
        ),
        0x25 | 0x26 | 0x2B | 0x2D | 0x2F | 0x31 | 0x32 | 0x35 | 0x38 | 0x39 | 0x3B | 0x3E | 0x3F | 0x40 => Some(
            sp_fin0(c, p, low_name(c)),
        ),
        0x27 => Some(
            match sp_byte(c, p) {
                (None, _) => sp_trunc(c, p, "op_1027"@),
                (Some(m), p1) => sp_fin_args(c, p1, "op_1027"@, seq![hx("mode"@, m)], if m == 1 { 2 } else { 1 }),
            },
        ),
        0x28 => Some(sp_fin_args(c, p, "op_1028"@, Seq::empty(), 1)),
        0x29 => Some(sp_byte_args(c, p, "op_1029"@, "mode"@, 1)),
        0x2A => Some(sp_byte_args(c, p, "op_102a"@, "mode"@, 3)),
        0x2C => sp_op_102c(c, p),
        0x2E => Some(sp_fin_args(c, p, "op_102e"@, Seq::empty(), 1)),
        0x30 => Some(
            match sp_byte(c, p) {
                (None, _) => sp_trunc(c, p, "op_1030"@),
                (Some(m), p1) => sp_fin_args(
                    c,
                    p1,
                    "op_1030"@,
                    seq![hx("mode"@, m)],
                    if m == 1 || m == 3 || m == 0x0B {
                        5
                    } else if m == 4 || m == 5 || m == 0x0C {
                        6
                    } else {
                        0
                    },
                ),
            },
        ),
        0x33 => Some(
            match sp_byte(c, p) {
                (None, _) => sp_trunc(c, p, "op_1033"@),
                (Some(m), p1) => if m == 0 {
                    match sp_u16(c, p1) {
                        (None, _) => sp_trunc(c, p1, "op_1033"@),
                        (Some(t0), p2) => match sp_u16(c, p2) {
                            (None, _) => sp_trunc(c, p2, "op_1033"@),
                            (Some(t1), p3) => match sp_u16(c, p3) {
                                (None, _) => sp_trunc(c, p3, "op_1033"@),
                                (Some(raw), p4) => sp_fin(
                                    c,
                                    p4,
                                    "op_1033"@,
                                    seq![
                                        hx("mode"@, m),
                                        tx("target0"@, spec_fmt_l0(t0)),
                                        tx("target1"@, spec_fmt_l0(t1)),
                                        tx("raw_u16"@, spec_fmt_u16(raw)),
                                    ],
                                ),
                            },
                        },
                    }
                } else {
                    sp_mode(c, p1, "op_1033"@, m)
                },
            },
        ),
        0x34 => Some(sp_subcmd_op(c, p, "op_1034"@)),
        0x37 => Some(
            match sp_byte(c, p) {
                (None, _) => sp_trunc(c, p, "op_1037"@),
                (Some(m), p1) => sp_fin_args(
                    c,
                    p1,
                    "op_1037"@,
                    seq![hx("mode"@, m)],
                    if m == 0 || m == 2 || m == 3 {
                        1
                    } else {
                        0
                    },
                ),
            },
        ),
        0x3A => Some(
            match sp_byte(c, p) {
                (None, _) => sp_trunc(c, p, "op_103a"@),
                (Some(m), p1) => sp_fin_args(c, p1, "op_103a"@, seq![hx("mode"@, m)], if m == 0 || m == 2 { 2 } else { 0 }),
            },
        ),
        0x3C => Some(sp_byte_args(c, p, "op_103c"@, "mode"@, 2)),
        0x3D => Some(sp_fin_args(c, p, "op_103d"@, Seq::empty(), 1)),
        _ => None,
    }
}

#[verifier::rlimit(40)]
#[verifier::spinoff_prover]
fn t10_b(s: &mut St) -> (r: Option<IlInstruction>)
    requires
        old(s).ok(),
        old(s).p == old(s).offset + 2,
    ensures
        final(s).ok(),
        final(s).same(*old(s)),
        r is Some ==> final(s).p == r->0.end,
        r is Some ==> r->0.end >= old(s).offset + 2,
        r is Some <==> spec_t10_b(old(s).ctx()) is Some,
        r is Some ==> r->0@ == spec_t10_b(old(s).ctx())->0,
{
    match s.opcode_id {
        0x20 | 0x36 => {
            let nm = s.low_name();
            Some(s.mode_op(nm.as_str()))
        },
        0x21 => Some(s.mode_op("op_1021")),
        0x22 => {
            let mode = match s.byte() {
                Some(b) => b,
                None => {
                    return Some(s.trunc("snapshot_control"));
                },
            };
            if mode == 0x0A {
                match s.u16_val() {
                    Some(vid) => Some(s.fin("snapshot_control", vec![n("mode", hex8(mode)), n("aux_id", fmt_u16(vid))])),
                    None => Some(s.trunc("snapshot_control")),
                }
            } else {
                Some(s.mode("snapshot_control", mode))
            }
        },
        0x23 => {
            let nm = s.low_name();
            let sc = match s.byte() {
                Some(b) => b,
                None => {
                    return Some(s.trunc(nm.as_str()));
                },
            };
            if sc == 0 {
                match s.byte() {
                    Some(a0) => Some(s.fin(nm.as_str(), vec![n("subcmd", hex8(sc)), n("arg0", hex8(a0))])),
                    None => Some(s.fin(nm.as_str(), vec![n("subcmd", hex8(sc)), trunc_op()])),
                }
            } else {
                Some(s.subcmd(nm.as_str(), sc))
            }
        },
        0x24 => {
            let mode = match s.byte() {
                Some(b) => b,
                None => {
                    return Some(s.trunc("op_1024"));
                },
            };
            let k: usize = if mode == 0 {
                2
            } else {
                0
            };
            Some(s.fin_args("op_1024", vec![n("mode", hex8(mode))], k))
        },
        0x25 | 0x26 | 0x2B | 0x2D | 0x2F | 0x31 | 0x32 | 0x35 | 0x38 | 0x39 | 0x3B | 0x3E..=0x40 => Some(s.stub()),
        0x27 => {
            let mode = match s.byte() {
                Some(b) => b,
                None => {
                    return Some(s.trunc("op_1027"));
                },
            };
            let k: usize = if mode == 1 {
                2
            } else {
                1
            };
            Some(s.fin_args("op_1027", vec![n("mode", hex8(mode))], k))
        },
        0x28 => Some(s.args_op("op_1028", 1)),
        0x29 => Some(s.byte_args("op_1029", "mode", 1)),
        0x2A => Some(s.byte_args("op_102a", "mode", 3)),
        0x2C => op_102c(s),
        0x2E => Some(s.args_op("op_102e", 1)),
        0x30 => {
            let mode = match s.byte() {
                Some(b) => b,
                None => {
                    return Some(s.trunc("op_1030"));
                },
            };
            let k: usize = if mode == 1 || mode == 3 || mode == 0x0B {
                5
            } else if mode == 4 || mode == 5 || mode == 0x0C {
                6
            } else {
                0
            };
            Some(s.fin_args("op_1030", vec![n("mode", hex8(mode))], k))
        },
        0x33 => {
            let mode = match s.byte() {
                Some(b) => b,
                None => {
                    return Some(s.trunc("op_1033"));
                },
            };
            if mode == 0 {
                let t0 = match s.u16_val() {
                    Some(v) => v,
                    None => {
                        return Some(s.trunc("op_1033"));
                    },
                };
                let t1 = match s.u16_val() {
                    Some(v) => v,
                    None => {
                        return Some(s.trunc("op_1033"));
                    },
                };
                let raw = match s.u16_val() {
                    Some(v) => v,
                    None => {
                        return Some(s.trunc("op_1033"));
                    },
                };
                Some(
                    s.fin(
                        "op_1033",
                        vec![
                            n("mode", hex8(mode)),
                            n("target0", fmt_l0(t0)),
                            n("target1", fmt_l0(t1)),
                            n("raw_u16", fmt_u16(raw)),
                        ],
                    ),
                )
            } else {
                Some(s.mode("op_1033", mode))
            }
        },
        0x34 => Some(s.subcmd_op("op_1034")),
        0x37 => {
            let mode = match s.byte() {
                Some(b) => b,
                None => {
                    return Some(s.trunc("op_1037"));
                },
            };
            let k: usize = if mode == 0 || mode == 2 || mode == 3 {
                1
            } else {
                0
            };
            Some(s.fin_args("op_1037", vec![n("mode", hex8(mode))], k))
        },
        0x3A => {
            let mode = match s.byte() {
                Some(b) => b,
                None => {
                    return Some(s.trunc("op_103a"));
                },
            };
            let k: usize = if mode == 0 || mode == 2 {
                2
            } else {
                0
            };
            Some(s.fin_args("op_103a", vec![n("mode", hex8(mode))], k))
        },
        0x3C => Some(s.byte_args("op_103c", "mode", 2)),
        0x3D => Some(s.args_op("op_103d", 1)),
        _ => None,
    }
}

/// Table 10: effects, entries and snapshots.
pub open spec fn spec_table10(c: OpCtx) -> Option<SpecInstruction> {
    if c.index() < 0x20 {
        spec_t10_a(c)
    } else {
        spec_t10_b(c)
    }
}

#[verifier::rlimit(40)]
#[verifier::spinoff_prover]
fn table10(s: &mut St) -> (r: Option<IlInstruction>)
    requires
        old(s).ok(),
        old(s).p == old(s).offset + 2,
    ensures
        final(s).ok(),
        final(s).same(*old(s)),
        r is Some ==> final(s).p == r->0.end,
        r is Some ==> r->0.end >= old(s).offset + 2,
        r is Some <==> spec_table10(old(s).ctx()) is Some,
        r is Some ==> r->0@ == spec_table10(old(s).ctx())->0,
{
    if s.opcode_id < 0x20 {
        t10_a(s)
    } else {
        t10_b(s)
    }
}

// ── Table 20 ──

/// Table 20: mostly placeholders without operands.
pub open spec fn spec_table20(c: OpCtx) -> Option<SpecInstruction> {
    let p = c.start();
    let i = c.index();
    if i == 0x10 {
        Some(
            match sp_byte(c, p) {
                (None, _) => sp_trunc(c, p, "op_2010"@),
                (Some(m), p1) => sp_fin_args(c, p1, "op_2010"@, seq![hx("mode"@, m)], if m == 0 || m == 0x20 { 1 } else { 0 }),
            },
        )
    } else if i == 0x11 || i == 0x12 {
        Some(sp_subcmd_op(c, p, low_name(c)))
    } else if i <= 0x40 {
        Some(sp_fin0(c, p, low_name(c)))
    } else {
        None
    }
}

#[verifier::rlimit(40)]
#[verifier::spinoff_prover]
fn table20(s: &mut St) -> (r: Option<IlInstruction>)
    requires
        old(s).ok(),
        old(s).p == old(s).offset + 2,
    ensures
        final(s).ok(),
        final(s).same(*old(s)),
        r is Some ==> final(s).p == r->0.end,
        r is Some ==> r->0.end >= old(s).offset + 2,
        r is Some <==> spec_table20(old(s).ctx()) is Some,
        r is Some ==> r->0@ == spec_table20(old(s).ctx())->0,
{
    match s.opcode_id {
        0x00..=0x0F => Some(s.stub()),
        0x10 => {
            let mode = match s.byte() {
                Some(b) => b,
                None => {
                    return Some(s.trunc("op_2010"));
                },
            };
            let k: usize = if mode == 0 || mode == 0x20 {
                1
            } else {
                0
            };
            Some(s.fin_args("op_2010", vec![n("mode", hex8(mode))], k))
        },
        0x11 | 0x12 => {
            let nm = s.low_name();
            Some(s.subcmd_op(nm.as_str()))
        },
        0x13..=0x40 => Some(s.stub()),
        _ => None,
    }
}

// ── dispatch ──

/// The instruction of an opcode no table decodes: its number and the next
/// sixteen bytes, spanning the two opcode bytes.
pub open spec fn sp_unknown(c: OpCtx) -> SpecInstruction {
    let raw_id = c.major() as nat * 256 + c.index() as nat;
    let len = if 16 <= c.max - c.offset {
        16
    } else {
        c.max - c.offset
    };
    sp_fin(
        c,
        c.offset + 2,
        "unknown_operands"@,
        seq![
            tx("op"@, "OP_"@ + hex_text(raw_id, 4, true)),
            tx("raw16"@, hex_bytes(c.data.subrange(c.offset, c.offset + len))),
        ],
    )
}

/// The context in which the opcode at `offset` is decoded, reading below
/// `limit` and the end of the data.
pub open spec fn op_ctx(data: Seq<u8>, table0: Seq<u32>, offset: int, limit: int) -> OpCtx {
    OpCtx { data, table0, offset, max: if limit <= data.len() { limit } else { data.len() as int } }
}

/// The instruction at `offset`: the entry of its opcode table, or the
/// unknown-operands form when the table has none.
pub open spec fn spec_decode_scx_known(data: Seq<u8>, table0: Seq<u32>, offset: int, limit: int) -> SpecInstruction {
    let c = op_ctx(data, table0, offset, limit);
    let decoded = if c.major() == 0x00 {
        spec_table00(c)
    } else if c.major() == 0x01 {
        spec_table01(c)
    } else if c.major() == 0x10 {
        spec_table10(c)
    } else if c.major() == 0x20 {
        spec_table20(c)
    } else {
        None
    };
    match decoded {
        Some(i) => i,
        None => sp_unknown(c),
    }
}

/// Decodes the instruction whose opcode is at `offset`, reading its
/// operands below `limit`.
#[verifier::rlimit(60)]
#[verifier::spinoff_prover]
pub fn decode_scx_known(scx: &ScxFile, offset: usize, limit: usize) -> (r: IlInstruction)
    requires
        offset + 1 < scx.data@.len() <= isize::MAX,
        offset <= limit,
    ensures
        r@ == spec_decode_scx_known(scx.data@, scx.table0@, offset as int, limit as int),
        r.offset == offset,
        r.end >= offset + 2,
        offset + 2 <= limit ==> r.end <= limit,
{
    let data = scx.data.as_slice();
    let max = if data.len() < limit {
        data.len()
    } else {
        limit
    };
    let mut s = St::new(scx, offset, max);
    let ghost c = s.ctx();
    assert(c == op_ctx(scx.data@, scx.table0@, offset as int, limit as int));
    let major = s.major;
    let decoded = if major == 0x00 {
        table00(&mut s)
    } else if major == 0x01 {
        table01(&mut s)
    } else if major == 0x10 {
        table10(&mut s)
    } else if major == 0x20 {
        table20(&mut s)
    } else {
        None
    };
    if let Some(inst) = decoded {
        return inst;
    }
    let raw_len = if 16 <= max - offset {
        16
    } else {
        max - offset
    };
    let raw = format_hex(&data[offset..offset + raw_len]);
    let mut name = to_string("OP_");
    push_hex(&mut name, (major as u64) * 256 + data[offset + 1] as u64, 4, true);
    assert(name@ =~= "OP_"@ + hex_text(c.major() as nat * 256 + c.index() as nat, 4, true));
    emit(offset, offset + 2, "unknown_operands", vec![n("op", name), n("raw16", raw)])
}


/// A switch with an immediate selector `k` and case table at label `tb`
/// takes its case label from word `k` of that table: the little-endian
/// word two bytes per entry past the label's offset, whenever that word
/// lies within the input.
pub proof fn lemma_switch_reads_case_word(data: Seq<u8>, table0: Seq<u32>, offset: int, limit: int, k: i32, tb: u16)
    requires
        0 <= offset,
        offset + 1 < data.len(),
        data[offset] % 128 == 0,
        data[offset + 1] == 0x08,
        spec_decode_scx_known(data, table0, offset, limit).operands.len() >= 2,
        spec_decode_scx_known(data, table0, offset, limit).operands[0] == expr_op(
            "selector"@,
            seq![SpecExprToken::Immediate(k)],
        ),
        spec_decode_scx_known(data, table0, offset, limit).operands[1] == text_op("table_base"@, spec_fmt_l0(tb)),
        0 <= k,
        (tb as int) < table0.len(),
        table0[tb as int] + 2 * k + 2 <= limit,
        table0[tb as int] + 2 * k + 2 <= data.len(),
    ensures
        spec_decode_scx_known(data, table0, offset, limit).operands.len() == 3,
        spec_decode_scx_known(data, table0, offset, limit).operands[2] == text_op(
            "case_target"@,
            spec_fmt_l0(spec_u16_le(data, table0[tb as int] + 2 * k)),
        ),
{
    let c = op_ctx(data, table0, offset, limit);
    let r = spec_decode_scx_known(data, table0, offset, limit);
    assert(c.major() == 0);
    assert(c.index() == 0x08);
    let p = c.start();
    let (sel, p1) = sp_expr(c, p);
    reveal_strlit("trunc");
    reveal_strlit("table_base");
    match sp_u16(c, p1) {
        (None, p2) => {
            assert(r.operands[1] == tr());
            assert("trunc"@.len() != "table_base"@.len());
        },
        (Some(t), p2) => {
            assert(r.operands[1] == tx("table_base"@, spec_fmt_l0(t)));
            assert(spec_fmt_l0(t) == spec_fmt_l0(tb));
            crate::scx::lemma_table0_label_round_trip(t);
            crate::scx::lemma_table0_label_round_trip(tb);
            assert(t == tb);
            assert(sel == seq![SpecExprToken::Immediate(k)]);
            assert(switch_case_offset(c, sel, tb) == Some(table0[tb as int] + 2 * k));
        },
    }
}

} // verus!
