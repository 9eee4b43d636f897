//! Expression operands of the SC3 virtual machine: reading them from the byte
//! stream and rendering them as text.
use vstd::prelude::*;
use vstd::string::*;

use crate::format::{min, read_u32_le, sign_extend, spec_sign_extend, spec_u32_le};
use crate::text::{dec_text, hex_text, join, lemma_join_push, push_char, push_dec, push_hex, str_starts_with, to_string};

verus! {

// ── expression tokens ──

#[derive(Clone, Debug)]
pub enum ExprToken {
    Immediate(i32),
    Operator { opcode: u8, precedence: Option<u8>, name: Option<&'static str> },
    Marker(String),
}

/// The mathematical form of an [`ExprToken`].
pub enum SpecExprToken {
    Immediate(i32),
    Operator { opcode: u8, precedence: Option<u8>, name: Option<Seq<char>> },
    Marker(Seq<char>),
}

pub open spec fn opt_str_view(s: Option<&'static str>) -> Option<Seq<char>> {
    match s {
        Some(t) => Some(t@),
        None => None,
    }
}

impl View for ExprToken {
    type V = SpecExprToken;

    open spec fn view(&self) -> SpecExprToken {
        match self {
            ExprToken::Immediate(v) => SpecExprToken::Immediate(*v),
            ExprToken::Operator { opcode, precedence, name } => SpecExprToken::Operator {
                opcode: *opcode,
                precedence: *precedence,
                name: opt_str_view(*name),
            },
            ExprToken::Marker(t) => SpecExprToken::Marker(t@),
        }
    }
}

#[derive(Clone, Debug)]
pub struct ExprValue {
    pub tokens: Vec<ExprToken>,
}

impl View for ExprValue {
    type V = Seq<SpecExprToken>;

    open spec fn view(&self) -> Seq<SpecExprToken> {
        self.tokens@.map_values(|t: ExprToken| t@)
    }
}

impl Default for ExprValue {
    fn default() -> (r: Self)
        ensures
            r@ == Seq::<SpecExprToken>::empty(),
    {
        let r = ExprValue { tokens: Vec::new() };
        assert(r@ =~= Seq::<SpecExprToken>::empty());
        r
    }
}

/// An operator whose opcode has no known name.
pub open spec fn is_unknown_token(t: SpecExprToken) -> bool {
    t matches SpecExprToken::Operator { name: None, .. }
}

pub open spec fn seq_starts_with(s: Seq<char>, prefix: Seq<char>) -> bool {
    prefix.len() <= s.len() && s.subrange(0, prefix.len() as int) == prefix
}

/// An immediate, or an operator that loads (`LOAD_`), produces (`SPECIAL_`)
/// or draws (`RAND_`) a value.
pub open spec fn is_value_source(t: SpecExprToken) -> bool {
    match t {
        SpecExprToken::Immediate(_) => true,
        SpecExprToken::Operator { name: Some(n), .. } => seq_starts_with(n, "LOAD_"@)
            || seq_starts_with(n, "SPECIAL_"@) || seq_starts_with(n, "RAND_"@),
        _ => false,
    }
}

pub open spec fn spec_has_unknown_tokens(v: Seq<SpecExprToken>) -> bool {
    exists|i: int| 0 <= i < v.len() && is_unknown_token(#[trigger] v[i])
}

pub open spec fn spec_has_value_source(v: Seq<SpecExprToken>) -> bool {
    v.len() == 0 || exists|i: int| 0 <= i < v.len() && is_value_source(#[trigger] v[i])
}

impl ExprValue {
    pub fn has_unknown_tokens(&self) -> (r: bool)
        ensures
            r == spec_has_unknown_tokens(self@),
    {
        let mut i: usize = 0;
        while i < self.tokens.len()
            invariant
                i <= self.tokens@.len(),
                forall|j: int| 0 <= j < i ==> !is_unknown_token(#[trigger] self@[j]),
            decreases self.tokens@.len() - i,
        {
            match &self.tokens[i] {
                ExprToken::Operator { name: None, .. } => {
                    assert(is_unknown_token(self@[i as int]));
                    return true;
                },
                _ => {},
            }
            i = i + 1;
        }
        false
    }

    pub fn has_value_source(&self) -> (r: bool)
        ensures
            r == spec_has_value_source(self@),
    {
        if self.tokens.len() == 0 {
            return true;
        }
        let mut i: usize = 0;
        while i < self.tokens.len()
            invariant
                i <= self.tokens@.len(),
                forall|j: int| 0 <= j < i ==> !is_value_source(#[trigger] self@[j]),
            decreases self.tokens@.len() - i,
        {
            let hit = match &self.tokens[i] {
                ExprToken::Immediate(_) => true,
                ExprToken::Operator { name: Some(n), .. } => str_starts_with(n, "LOAD_")
                    || str_starts_with(n, "SPECIAL_") || str_starts_with(n, "RAND_"),
                _ => false,
            };
            assert(hit == is_value_source(self@[i as int]));
            if hit {
                return true;
            }
            i = i + 1;
        }
        false
    }

    pub fn try_get_immediate(&self) -> (r: Option<i32>)
        ensures
            r == (if self@.len() == 1 && self@[0] is Immediate {
                Some(self@[0]->Immediate_0)
            } else {
                None::<i32>
            }),
    {
        if self.tokens.len() == 1 {
            if let ExprToken::Immediate(v) = self.tokens[0] {
                return Some(v);
            }
        }
        None
    }
}

// ── expression names ──

pub open spec fn spec_expr_token_name(opcode: u8) -> Option<Seq<char>> {
    match opcode {
        0x01u8 => Some("MUL"@),
        0x02u8 => Some("DIV"@),
        0x03u8 => Some("ADD"@),
        0x04u8 => Some("SUB"@),
        0x05u8 => Some("MOD"@),
        0x06u8 => Some("SHL"@),
        0x07u8 => Some("SHR"@),
        0x08u8 => Some("AND"@),
        0x09u8 => Some("XOR"@),
        0x0Au8 => Some("OR"@),
        0x0Bu8 => Some("UNARY_NOT"@),
        0x0Cu8 => Some("EQ"@),
        0x0Du8 => Some("NE"@),
        0x0Eu8 => Some("LE"@),
        0x0Fu8 => Some("GE"@),
        0x10u8 => Some("LT"@),
        0x11u8 => Some("GT"@),
        0x14u8 => Some("ASSIGN"@),
        0x15u8 => Some("ASSIGN_MUL"@),
        0x16u8 => Some("ASSIGN_DIV"@),
        0x17u8 => Some("ASSIGN_ADD"@),
        0x18u8 => Some("ASSIGN_SUB"@),
        0x19u8 => Some("ASSIGN_MOD"@),
        0x1Au8 => Some("ASSIGN_SHL"@),
        0x1Bu8 => Some("ASSIGN_SHR"@),
        0x1Cu8 => Some("ASSIGN_AND"@),
        0x1Du8 => Some("ASSIGN_OR"@),
        0x1Eu8 => Some("ASSIGN_XOR"@),
        0x20u8 => Some("INC"@),
        0x21u8 => Some("DEC"@),
        0x28u8 => Some("LOAD_TAB_16F8A90"@),
        0x29u8 => Some("LOAD_FLAG_46F450"@),
        0x2Au8 => Some("LOAD_SCRIPT_TABLE_DWORD"@),
        0x2Bu8 => Some("LOAD_CODEOFF_T0"@),
        0x2Cu8 => Some("LOAD_CODEOFF_T0_BY_EXPR"@),
        0x2Du8 => Some("LOAD_CTX_DWORD"@),
        0x2Eu8 => Some("LOAD_EXTERN_CTX_DWORD"@),
        0x2Fu8 => Some("LOAD_MASK_579D90"@),
        0x30u8 => Some("LOAD_MASK_579D88"@),
        0x31u8 => Some("SPECIAL_31"@),
        0x32u8 => Some("SPECIAL_32"@),
        0x33u8 => Some("RAND_SCALE"@),
        _ => None,
    }
}

pub fn expr_token_name(opcode: u8) -> (r: Option<&'static str>)
    ensures
        opt_str_view(r) == spec_expr_token_name(opcode),
{
    Some(
        match opcode {
            0x01 => "MUL",
            0x02 => "DIV",
            0x03 => "ADD",
            0x04 => "SUB",
            0x05 => "MOD",
            0x06 => "SHL",
            0x07 => "SHR",
            0x08 => "AND",
            0x09 => "XOR",
            0x0A => "OR",
            0x0B => "UNARY_NOT",
            0x0C => "EQ",
            0x0D => "NE",
            0x0E => "LE",
            0x0F => "GE",
            0x10 => "LT",
            0x11 => "GT",
            0x14 => "ASSIGN",
            0x15 => "ASSIGN_MUL",
            0x16 => "ASSIGN_DIV",
            0x17 => "ASSIGN_ADD",
            0x18 => "ASSIGN_SUB",
            0x19 => "ASSIGN_MOD",
            0x1A => "ASSIGN_SHL",
            0x1B => "ASSIGN_SHR",
            0x1C => "ASSIGN_AND",
            0x1D => "ASSIGN_OR",
            0x1E => "ASSIGN_XOR",
            0x20 => "INC",
            0x21 => "DEC",
            0x28 => "LOAD_TAB_16F8A90",
            0x29 => "LOAD_FLAG_46F450",
            0x2A => "LOAD_SCRIPT_TABLE_DWORD",
            0x2B => "LOAD_CODEOFF_T0",
            0x2C => "LOAD_CODEOFF_T0_BY_EXPR",
            0x2D => "LOAD_CTX_DWORD",
            0x2E => "LOAD_EXTERN_CTX_DWORD",
            0x2F => "LOAD_MASK_579D90",
            0x30 => "LOAD_MASK_579D88",
            0x31 => "SPECIAL_31",
            0x32 => "SPECIAL_32",
            0x33 => "RAND_SCALE",
            _ => return None,
        },
    )
}

// ── immediates ──

/// An immediate token and the position after it, skipping one trailing
/// byte when it lies before `max`.
pub open spec fn imm_result(v: i32, p: int, max: int) -> Option<(SpecExprToken, int)> {
    Some(
        (
            SpecExprToken::Immediate(v),
            if p < max {
                p + 1
            } else {
                p
            },
        ),
    )
}

/// Reads an immediate at `position`: a first byte with bit 7 set whose bits
/// 5..6 select 5-, 13-, 21- or 32-bit signed payloads. `None` when bit 7 is
/// clear; a marker token when the input ends first.
pub open spec fn spec_try_read_immediate(data: Seq<u8>, position: int, limit: int) -> Option<
    (SpecExprToken, int),
> {
    let max = min(limit, data.len() as int);
    if position >= max {
        Some((SpecExprToken::Marker("<TRUNC>"@), max))
    } else {
        let b0 = data[position];
        if b0 < 0x80 {
            None
        } else {
            let p = position + 1;
            let mode = (b0 / 32) % 4;
            let low5 = (b0 % 32) as int;
            if mode == 0 {
                imm_result(spec_sign_extend(low5 as i32, 5), p, max)
            } else if mode == 1 {
                if p + 1 > max {
                    Some((SpecExprToken::Marker("<TRUNC_IMM13>"@), max))
                } else {
                    imm_result(spec_sign_extend((low5 * 256 + data[p]) as i32, 13), p + 1, max)
                }
            } else if mode == 2 {
                if p + 2 > max {
                    Some((SpecExprToken::Marker("<TRUNC_IMM21>"@), max))
                } else {
                    imm_result(
                        spec_sign_extend((low5 * 65536 + data[p + 1] * 256 + data[p]) as i32, 21),
                        p + 2,
                        max,
                    )
                }
            } else {
                if p + 4 > max {
                    Some((SpecExprToken::Marker("<TRUNC_IMM32>"@), max))
                } else {
                    imm_result(spec_sign_extend(spec_u32_le(data, p) as i32, 32), p + 4, max)
                }
            }
        }
    }
}

pub fn try_read_immediate(data: &[u8], position: usize, limit: usize) -> (r: Option<(ExprToken, usize)>)
    ensures
        match r {
            Some((t, n)) => spec_try_read_immediate(data@, position as int, limit as int) == Some(
                (t@, n as int),
            ),
            None => spec_try_read_immediate(data@, position as int, limit as int) is None,
        },
{
    let max = if limit < data.len() {
        limit
    } else {
        data.len()
    };
    if position >= max {
        return Some((ExprToken::Marker(to_string("<TRUNC>")), max));
    }
    let b0 = data[position];
    if b0 < 0x80 {
        return None;
    }
    let mut p = position + 1;
    let mode = (b0 / 32) % 4;
    let low5 = (b0 % 32) as i32;
    let value = if mode == 0 {
        sign_extend(low5, 5)
    } else if mode == 1 {
        if max - p < 1 {
            return Some((ExprToken::Marker(to_string("<TRUNC_IMM13>")), max));
        }
        let v = low5 * 256 + data[p] as i32;
        p += 1;
        sign_extend(v, 13)
    } else if mode == 2 {
        if max - p < 2 {
            return Some((ExprToken::Marker(to_string("<TRUNC_IMM21>")), max));
        }
        let v = low5 * 65536 + (data[p + 1] as i32) * 256 + data[p] as i32;
        p += 2;
        sign_extend(v, 21)
    } else {
        if max - p < 4 {
            return Some((ExprToken::Marker(to_string("<TRUNC_IMM32>")), max));
        }
        let u = read_u32_le(data, p);
        let v = #[verifier::truncate] (u as i32);
        p += 4;
        sign_extend(v, 32)
    };
    if p < max {
        p += 1;
    }
    Some((ExprToken::Immediate(value), p))
}

// ── expressions ──

/// An immediate that is read whole moves the position forward and stays
/// within the limit.
pub proof fn lemma_immediate_advances(
    data: Seq<u8>,
    p: int,
    limit: int,
    tok: SpecExprToken,
    next: int,
)
    requires
        spec_try_read_immediate(data, p, limit) == Some((tok, next)),
        !(tok is Marker),
    ensures
        next > p,
        next <= min(limit, data.len() as int),
{
}

/// The tokens read from `p` on, the position after them, and whether the
/// input ran out (rather than a terminator, a marker or a dangling operator
/// ending the expression).
pub open spec fn expr_tokens_from(data: Seq<u8>, p: int, limit: int) -> (
    Seq<SpecExprToken>,
    int,
    bool,
)
    decreases min(limit, data.len() as int) - p via expr_tokens_from_decreases
{
    let max = min(limit, data.len() as int);
    if p >= max {
        (Seq::empty(), p, true)
    } else if data[p] == 0 {
        (Seq::empty(), p + 1, false)
    } else {
        match spec_try_read_immediate(data, p, limit) {
            Some((tok, next)) => {
                if tok is Marker {
                    (seq![tok], next, false)
                } else {
                    let r = expr_tokens_from(data, next, limit);
                    (seq![tok] + r.0, r.1, r.2)
                }
            },
            None => {
                if p + 1 >= max {
                    (
                        seq![
                            SpecExprToken::Operator {
                                opcode: data[p],
                                precedence: None,
                                name: None,
                            },
                        ],
                        p + 1,
                        false,
                    )
                } else {
                    let r = expr_tokens_from(data, p + 2, limit);
                    (
                        seq![
                            SpecExprToken::Operator {
                                opcode: data[p],
                                precedence: Some(data[p + 1]),
                                name: spec_expr_token_name(data[p]),
                            },
                        ] + r.0,
                        r.1,
                        r.2,
                    )
                }
            },
        }
    }
}

#[via_fn]
proof fn expr_tokens_from_decreases(data: Seq<u8>, p: int, limit: int) {
    if p < min(limit, data.len() as int) && data[p] != 0 {
        if let Some((tok, next)) = spec_try_read_immediate(data, p, limit) {
            if !(tok is Marker) {
                lemma_immediate_advances(data, p, limit, tok, next);
            }
        }
    }
}

/// The expression read at `position` and the position after it: tokens up to
/// a zero terminator; a lone `<TRUNC>` marker when the input ends before any
/// token.
pub open spec fn spec_read_expr_value(data: Seq<u8>, position: int, limit: int) -> (
    Seq<SpecExprToken>,
    int,
) {
    let r = expr_tokens_from(data, position, limit);
    if r.2 && r.0.len() == 0 {
        (seq![SpecExprToken::Marker("<TRUNC>"@)], r.1)
    } else {
        (r.0, r.1)
    }
}

proof fn lemma_expr_tokens_from_bounds(data: Seq<u8>, p: int, max: int, limit: int)
    requires
        max == min(data.len() as int, limit),
    ensures
        p <= max ==> expr_tokens_from(data, p, limit).1 <= max,
        p > max ==> expr_tokens_from(data, p, limit).1 == p,
    decreases max - p,
{
    assert(min(limit, data.len() as int) == max);
    if p < max && data[p] != 0 {
        match spec_try_read_immediate(data, p, limit) {
            Some((tok, next)) => {
                if !(tok is Marker) {
                    lemma_expr_tokens_from_bounds(data, next, max, limit);
                }
            },
            None => {
                if p + 1 < max {
                    lemma_expr_tokens_from_bounds(data, p + 2, max, limit);
                }
            },
        }
    }
}

#[verifier::rlimit(40)]
#[verifier::spinoff_prover]
pub fn read_expr_value(data: &[u8], position: usize, limit: usize) -> (r: (ExprValue, usize))
    ensures
        (r.0@, r.1 as int) == spec_read_expr_value(data@, position as int, limit as int),
        position <= min(data@.len() as int, limit as int) ==> r.1 <= min(data@.len() as int, limit as int),
        position > min(data@.len() as int, limit as int) ==> r.1 == position,
        r.1 >= position,
{
    let mut expr = ExprValue::default();
    let mut p = position;
    let max = if data.len() < limit {
        data.len()
    } else {
        limit
    };
    let ghost total = expr_tokens_from(data@, position as int, limit as int);
    proof {
        lemma_expr_tokens_from_bounds(data@, position as int, max as int, limit as int);
        assert(Seq::<SpecExprToken>::empty() + total.0 =~= total.0);
    }
    while p < max
        invariant
            max == min(data@.len() as int, limit as int),
            max <= data@.len(),
            total == expr_tokens_from(data@, position as int, limit as int),
            position <= max ==> p <= max,
            position > max ==> p == position,
            p >= position,
            ({
                let rest = expr_tokens_from(data@, p as int, limit as int);
                total == (expr@ + rest.0, rest.1, rest.2)
            }),
        decreases max - p,
    {
        let ghost old_expr = expr@;
        let ghost rest = expr_tokens_from(data@, p as int, limit as int);
        let b0 = data[p];
        if b0 == 0 {
            assert(rest == (Seq::<SpecExprToken>::empty(), p + 1, false));
            p += 1;
            assert(expr@ + Seq::<SpecExprToken>::empty() =~= expr@);
            return (expr, p);
        }
        if let Some((token, next)) = try_read_immediate(data, p, limit) {
            let is_marker = match &token {
                ExprToken::Marker(_) => true,
                _ => false,
            };
            let ghost tv = token@;
            expr.tokens.push(token);
            assert(expr@ =~= old_expr.push(tv));
            p = next;
            if is_marker {
                assert(old_expr + seq![tv] =~= expr@);
                return (expr, p);
            }
            assert(old_expr + (seq![tv] + expr_tokens_from(data@, p as int, limit as int).0)
                =~= expr@ + expr_tokens_from(data@, p as int, limit as int).0);
            continue;
        }
        p += 1;
        if p >= max {
            let ghost tv = SpecExprToken::Operator { opcode: b0, precedence: None, name: None };
            assert(rest == (seq![tv], p as int, false));
            expr.tokens.push(ExprToken::Operator { opcode: b0, precedence: None, name: None });
            assert(expr@ =~= old_expr + seq![tv]);
            return (expr, p);
        }
        let precedence = data[p];
        p += 1;
        let name = expr_token_name(b0);
        let tok = ExprToken::Operator { opcode: b0, precedence: Some(precedence), name };
        let ghost tv = tok@;
        expr.tokens.push(tok);
        assert(expr@ =~= old_expr.push(tv));
        assert(old_expr + (seq![tv] + expr_tokens_from(data@, p as int, limit as int).0)
            =~= expr@ + expr_tokens_from(data@, p as int, limit as int).0);
    }
    assert(expr@ + Seq::<SpecExprToken>::empty() =~= expr@);
    if expr.tokens.len() == 0 {
        expr.tokens.push(ExprToken::Marker(to_string("<TRUNC>")));
        assert(expr@ =~= seq![SpecExprToken::Marker("<TRUNC>"@)]);
    }
    (expr, p)
}

// ── rendering ──

pub open spec fn spec_render_token(t: SpecExprToken) -> Seq<char> {
    match t {
        SpecExprToken::Immediate(v) => dec_text(v as int),
        SpecExprToken::Marker(s) => s,
        SpecExprToken::Operator { opcode, precedence, name } => {
            let n = match name {
                Some(n) => n,
                None => seq!['O', 'P', '_'] + hex_text(opcode as nat, 2, true),
            };
            n + seq!['@'] + match precedence {
                Some(p) => dec_text(p as int),
                None => seq!['?'],
            }
        },
    }
}

/// The tokens rendered and joined by `, `; `0` for an empty expression.
pub open spec fn spec_render_expr_body(v: Seq<SpecExprToken>) -> Seq<char> {
    if v.len() == 0 {
        seq!['0']
    } else {
        join(v.map_values(|t: SpecExprToken| spec_render_token(t)), seq![',', ' '])
    }
}

/// `expr(<body>)`.
pub open spec fn spec_render_expr(v: Seq<SpecExprToken>) -> Seq<char> {
    seq!['e', 'x', 'p', 'r', '('] + spec_render_expr_body(v) + seq![')']
}

fn push_token(out: &mut String, token: &ExprToken)
    ensures
        final(out)@ == old(out)@ + spec_render_token(token@),
{
    match token {
        ExprToken::Immediate(v) => {
            push_dec(out, *v as i64);
        },
        ExprToken::Marker(t) => {
            out.append(t.as_str());
        },
        ExprToken::Operator { opcode, precedence, name } => {
            match name {
                Some(n) => {
                    out.append(n);
                },
                None => {
                    push_char(out, 'O');
                    push_char(out, 'P');
                    push_char(out, '_');
                    push_hex(out, *opcode as u64, 2, true);
                },
            }
            push_char(out, '@');
            match precedence {
                Some(p) => {
                    push_dec(out, *p as i64);
                },
                None => {
                    push_char(out, '?');
                },
            }
        },
    }
    assert(out@ =~= old(out)@ + spec_render_token(token@));
}

fn push_expr_body(out: &mut String, value: &ExprValue)
    ensures
        final(out)@ == old(out)@ + spec_render_expr_body(value@),
{
    if value.tokens.len() == 0 {
        push_char(out, '0');
        assert(out@ =~= old(out)@ + spec_render_expr_body(value@));
        return;
    }
    let ghost f = |t: SpecExprToken| spec_render_token(t);
    let mut i: usize = 0;
    while i < value.tokens.len()
        invariant
            i <= value.tokens@.len(),
            value@.len() == value.tokens@.len(),
            value@.len() > 0,
            f == (|t: SpecExprToken| spec_render_token(t)),
            out@ == old(out)@ + join(value@.subrange(0, i as int).map_values(f), seq![',', ' ']),
        decreases value.tokens@.len() - i,
    {
        if i > 0 {
            push_char(out, ',');
            push_char(out, ' ');
        }
        push_token(out, &value.tokens[i]);
        proof {
            let pre = value@.subrange(0, i as int);
            assert(value@.subrange(0, i + 1).map_values(f) =~= pre.map_values(f).push(f(value@[i as int])));
            lemma_join_push(pre.map_values(f), seq![',', ' '], f(value@[i as int]));
        }
        i = i + 1;
        assert(out@ =~= old(out)@ + join(value@.subrange(0, i as int).map_values(f), seq![',', ' ']));
    }
    assert(value@.subrange(0, i as int) =~= value@);
}

pub fn render_expr(value: &ExprValue) -> (r: String)
    ensures
        r@ == spec_render_expr(value@),
{
    let mut out = String::new();
    out.append("expr(");
    push_expr_body(&mut out, value);
    push_char(&mut out, ')');
    proof {
        reveal_strlit("expr(");
    }
    assert(out@ =~= spec_render_expr(value@));
    out
}

pub fn render_expr_body(value: &ExprValue) -> (r: String)
    ensures
        r@ == spec_render_expr_body(value@),
{
    let mut out = String::new();
    push_expr_body(&mut out, value);
    assert(out@ =~= spec_render_expr_body(value@));
    out
}

/// Appends `spec_render_expr(value@)`.
pub fn push_expr(out: &mut String, value: &ExprValue)
    ensures
        final(out)@ == old(out)@ + spec_render_expr(value@),
{
    let t = render_expr(value);
    out.append(t.as_str());
}


/// The operator names by opcode: arithmetic 0x01..0x0A, comparisons
/// 0x0C..0x11 (0x10 is less-than, 0x11 greater-than), assignments
/// 0x14..0x1E, increment and decrement, and the value sources from 0x28.
pub proof fn lemma_operator_names()
    ensures
        spec_expr_token_name(0x01) == Some("MUL"@),
        spec_expr_token_name(0x02) == Some("DIV"@),
        spec_expr_token_name(0x03) == Some("ADD"@),
        spec_expr_token_name(0x04) == Some("SUB"@),
        spec_expr_token_name(0x05) == Some("MOD"@),
        spec_expr_token_name(0x06) == Some("SHL"@),
        spec_expr_token_name(0x07) == Some("SHR"@),
        spec_expr_token_name(0x08) == Some("AND"@),
        spec_expr_token_name(0x09) == Some("XOR"@),
        spec_expr_token_name(0x0A) == Some("OR"@),
        spec_expr_token_name(0x0B) == Some("UNARY_NOT"@),
        spec_expr_token_name(0x0C) == Some("EQ"@),
        spec_expr_token_name(0x0D) == Some("NE"@),
        spec_expr_token_name(0x0E) == Some("LE"@),
        spec_expr_token_name(0x0F) == Some("GE"@),
        spec_expr_token_name(0x10) == Some("LT"@),
        spec_expr_token_name(0x11) == Some("GT"@),
        spec_expr_token_name(0x14) == Some("ASSIGN"@),
        spec_expr_token_name(0x15) == Some("ASSIGN_MUL"@),
        spec_expr_token_name(0x16) == Some("ASSIGN_DIV"@),
        spec_expr_token_name(0x17) == Some("ASSIGN_ADD"@),
        spec_expr_token_name(0x18) == Some("ASSIGN_SUB"@),
        spec_expr_token_name(0x19) == Some("ASSIGN_MOD"@),
        spec_expr_token_name(0x1A) == Some("ASSIGN_SHL"@),
        spec_expr_token_name(0x1B) == Some("ASSIGN_SHR"@),
        spec_expr_token_name(0x1C) == Some("ASSIGN_AND"@),
        spec_expr_token_name(0x1D) == Some("ASSIGN_OR"@),
        spec_expr_token_name(0x1E) == Some("ASSIGN_XOR"@),
        spec_expr_token_name(0x20) == Some("INC"@),
        spec_expr_token_name(0x21) == Some("DEC"@),
        spec_expr_token_name(0x28) == Some("LOAD_TAB_16F8A90"@),
        spec_expr_token_name(0x29) == Some("LOAD_FLAG_46F450"@),
        spec_expr_token_name(0x2A) == Some("LOAD_SCRIPT_TABLE_DWORD"@),
        spec_expr_token_name(0x2B) == Some("LOAD_CODEOFF_T0"@),
        spec_expr_token_name(0x2C) == Some("LOAD_CODEOFF_T0_BY_EXPR"@),
        spec_expr_token_name(0x2D) == Some("LOAD_CTX_DWORD"@),
        spec_expr_token_name(0x2E) == Some("LOAD_EXTERN_CTX_DWORD"@),
        spec_expr_token_name(0x2F) == Some("LOAD_MASK_579D90"@),
        spec_expr_token_name(0x30) == Some("LOAD_MASK_579D88"@),
        spec_expr_token_name(0x31) == Some("SPECIAL_31"@),
        spec_expr_token_name(0x32) == Some("SPECIAL_32"@),
        spec_expr_token_name(0x33) == Some("RAND_SCALE"@),
{
}

/// A compound assignment is named after the operation it applies:
/// `ASSIGN_` followed by the name of that binary operator.
pub proof fn lemma_compound_assignment_names(op: u8, assign: u8)
    requires
        (op == 0x01 && assign == 0x15) || (op == 0x02 && assign == 0x16) || (op == 0x03 && assign == 0x17) || (op == 0x04 && assign == 0x18) || (op == 0x05 && assign == 0x19) || (op == 0x06 && assign == 0x1A) || (op == 0x07 && assign == 0x1B) || (op == 0x08 && assign == 0x1C) || (op == 0x0A && assign == 0x1D) || (op == 0x09 && assign == 0x1E),
    ensures
        spec_expr_token_name(op) is Some,
        spec_expr_token_name(assign) == Some("ASSIGN_"@ + spec_expr_token_name(op)->0),
{
    reveal_strlit("ADD");
    reveal_strlit("AND");
    reveal_strlit("ASSIGN");
    reveal_strlit("ASSIGN_ADD");
    reveal_strlit("ASSIGN_AND");
    reveal_strlit("ASSIGN_DIV");
    reveal_strlit("ASSIGN_MOD");
    reveal_strlit("ASSIGN_MUL");
    reveal_strlit("ASSIGN_OR");
    reveal_strlit("ASSIGN_SHL");
    reveal_strlit("ASSIGN_SHR");
    reveal_strlit("ASSIGN_SUB");
    reveal_strlit("ASSIGN_XOR");
    reveal_strlit("DEC");
    reveal_strlit("DIV");
    reveal_strlit("EQ");
    reveal_strlit("GE");
    reveal_strlit("GT");
    reveal_strlit("INC");
    reveal_strlit("LE");
    reveal_strlit("LOAD_CODEOFF_T0");
    reveal_strlit("LOAD_CODEOFF_T0_BY_EXPR");
    reveal_strlit("LOAD_CTX_DWORD");
    reveal_strlit("LOAD_EXTERN_CTX_DWORD");
    reveal_strlit("LOAD_FLAG_46F450");
    reveal_strlit("LOAD_MASK_579D88");
    reveal_strlit("LOAD_MASK_579D90");
    reveal_strlit("LOAD_SCRIPT_TABLE_DWORD");
    reveal_strlit("LOAD_TAB_16F8A90");
    reveal_strlit("LT");
    reveal_strlit("MOD");
    reveal_strlit("MUL");
    reveal_strlit("NE");
    reveal_strlit("OR");
    reveal_strlit("RAND_SCALE");
    reveal_strlit("SHL");
    reveal_strlit("SHR");
    reveal_strlit("SPECIAL_31");
    reveal_strlit("SPECIAL_32");
    reveal_strlit("SUB");
    reveal_strlit("UNARY_NOT");
    reveal_strlit("XOR");
    reveal_strlit("ASSIGN_");
}

} // verus!
