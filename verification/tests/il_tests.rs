use std::collections::BTreeMap;

use scx::expr::{ExprToken, ExprValue};
use scx::il::{emit, render_document, render_instruction, IlDocument, IlDocumentKind, IlInstruction, IlOperand, IlValue};

fn imm(v: i32) -> ExprValue {
    ExprValue { tokens: vec![ExprToken::Immediate(v)] }
}

#[test]
fn operands_carry_names_and_values() {
    let t = IlOperand::named("target", "table0[0x0001]".to_string());
    assert_eq!(t.name.as_deref(), Some("target"));
    assert_eq!(t.try_get_text(), Some("table0[0x0001]"));
    let e = IlOperand::named_expr("slot", imm(2));
    assert_eq!(e.name.as_deref(), Some("slot"));
    assert_eq!(e.try_get_text(), None);
    let p = IlOperand::pos_expr(imm(3));
    assert!(p.name.is_none());
    assert!(matches!(p.value, IlValue::Expr(_)));
}

#[test]
fn operand_lookup_takes_the_first_with_the_name() {
    let mut inst = IlInstruction::new(4, 8, "Op");
    assert_eq!(inst.mnemonic, "Op");
    assert!(inst.operands.is_empty() && inst.comments.is_empty());
    inst.operands.push(IlOperand::named_expr("a", imm(1)));
    inst.operands.push(IlOperand::named("a", "text".to_string()));
    inst.operands.push(IlOperand::named("b", "bee".to_string()));
    assert_eq!(inst.get_operand_value("a"), None);
    assert_eq!(inst.get_operand_value("b"), Some("bee"));
    assert_eq!(inst.get_operand_value("c"), None);
}

#[test]
fn emit_lowers_the_mnemonic() {
    let inst = emit(0x10, 0x12, "OP_00AB", vec![IlOperand::named("x", "1".to_string())]);
    assert_eq!(inst.mnemonic, "op_00ab");
    assert_eq!((inst.offset, inst.end), (0x10, 0x12));
    assert_eq!(inst.operands.len(), 1);
    assert!(inst.comments.is_empty());
}

#[test]
fn renders_operands_and_comments() {
    let mut inst = emit(0, 4, "jmp_if_expr", vec![IlOperand::named("sense", "0x01".to_string()), IlOperand::pos_expr(imm(5))]);
    assert_eq!(render_instruction(&inst), "jmp_if_expr(sense=0x01, expr(5))");
    inst.comments.push("raw=000A".to_string());
    inst.comments.push("note".to_string());
    assert_eq!(render_instruction(&inst), "jmp_if_expr(sense=0x01, expr(5)) ; raw=000A | note");
    assert_eq!(render_instruction(&emit(0, 2, "break_vm", vec![])), "break_vm()");
}

#[test]
fn a_lone_expression_renders_bare() {
    let mut inst = IlInstruction::new(0, 3, "expr");
    inst.operands.push(IlOperand::pos_expr(imm(-2)));
    inst.comments.push("raw=00FE".to_string());
    assert_eq!(render_instruction(&inst), "expr(-2) ; raw=00FE");
    let mut named = IlInstruction::new(0, 3, "expr");
    named.operands.push(IlOperand::named_expr("v", imm(1)));
    assert_eq!(render_instruction(&named), "expr(v=expr(1))");
}

fn doc(kind: IlDocumentKind, raw_tail: Option<Vec<u8>>) -> IlDocument {
    let mut instructions = BTreeMap::new();
    instructions.insert(0x20, emit(0x20, 0x22, "break_vm", vec![]));
    instructions.insert(0x22, emit(0x22, 0x24, "ret", vec![]));
    instructions.insert(0x30, emit(0x30, 0x32, "data_u16", vec![IlOperand::named("", "0x0102".to_string())]));
    IlDocument {
        kind,
        source_path: "a/b.scx".to_string(),
        size: 0x40,
        off_table1: 0x34,
        off_table2: 0x38,
        code_start: 0x20,
        code_end: 0x34,
        sweep_start: 0x20,
        msb_source_set: Some("set".to_string()),
        msb_raw_tail: raw_tail,
        instructions,
    }
}

#[test]
fn scx_document_header_and_gaps() {
    let lines = render_document(&doc(IlDocumentKind::Scx, None));
    let expected = vec![
        "; file=a/b.scx",
        "; size=64 (0x40)",
        "; magic=SC3\\0",
        "; off_table1=0x34",
        "; off_table2=0x38",
        "; code_region=[0x20, 0x34)",
        "; sweep_start=0x20",
        "",
        "00000020: break_vm()",
        "00000022: ret()",
        "",
        "00000030: data_u16(=0x0102)",
    ];
    assert_eq!(lines, expected);
}

#[test]
fn msb_document_header_with_short_tail() {
    let lines = render_document(&doc(IlDocumentKind::Msb, Some(vec![0xAB, 0x01])));
    assert_eq!(lines[0], "; file=a/b.scx");
    assert_eq!(lines[1], "; source_set=set");
    assert_eq!(lines[2], "; size=64 (0x40)");
    assert_eq!(lines[3], "; magic=MES\\0");
    assert_eq!(lines[4], "; version=1");
    assert_eq!(lines[5], "; count_field=3");
    assert_eq!(lines[6], "; entry_count=3");
    assert_eq!(lines[7], "; data_offset=0x20");
    assert_eq!(lines[11], "; raw_tail=ab 01");
    assert_eq!(lines[12], "");
    assert_eq!(lines[13], "00000020: break_vm()");
    assert_eq!(lines.len(), 17);
}

#[test]
fn msb_document_header_with_long_tail() {
    let tail: Vec<u8> = (0u8..0x21).collect();
    let lines = render_document(&doc(IlDocumentKind::Msb, Some(tail)));
    assert_eq!(lines[11], "; raw_tail_len=0x21");
    assert_eq!(
        lines[12],
        "; raw_tail_preview=00 01 02 03 04 05 06 07 08 09 0a 0b 0c 0d 0e 0f 10 11 12 13 14 15 16 17 18 19 1a 1b 1c 1d 1e 1f ..."
    );
    let empty = render_document(&doc(IlDocumentKind::Msb, Some(vec![])));
    assert_eq!(empty[11], "");
}

#[test]
fn header_line_counts_before_the_body() {
    let scx = render_document(&doc(IlDocumentKind::Scx, None));
    assert_eq!(scx[7], "");
    assert_eq!(scx[8], "00000020: break_vm()");
    let none = render_document(&doc(IlDocumentKind::Msb, None));
    assert_eq!(none[11], "");
    assert_eq!(none[12], "00000020: break_vm()");
    let tail: Vec<u8> = (0u8..0x21).collect();
    let long = render_document(&doc(IlDocumentKind::Msb, Some(tail)));
    assert_eq!(long[13], "");
    assert_eq!(long[14], "00000020: break_vm()");
    assert_eq!(long.len(), 14 + 4);
}
