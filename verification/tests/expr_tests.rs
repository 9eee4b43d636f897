use scx::expr::{expr_token_name, read_expr_value, render_expr, render_expr_body, try_read_immediate, ExprToken, ExprValue};

fn imm(v: i32) -> ExprToken {
    ExprToken::Immediate(v)
}

fn op(opcode: u8, precedence: u8) -> ExprToken {
    ExprToken::Operator { opcode, precedence: Some(precedence), name: expr_token_name(opcode) }
}

#[test]
fn operator_names() {
    assert_eq!(expr_token_name(0x01), Some("MUL"));
    assert_eq!(expr_token_name(0x0B), Some("UNARY_NOT"));
    assert_eq!(expr_token_name(0x14), Some("ASSIGN"));
    assert_eq!(expr_token_name(0x21), Some("DEC"));
    assert_eq!(expr_token_name(0x2D), Some("LOAD_CTX_DWORD"));
    assert_eq!(expr_token_name(0x33), Some("RAND_SCALE"));
    assert_eq!(expr_token_name(0x00), None);
    assert_eq!(expr_token_name(0x12), None);
    assert_eq!(expr_token_name(0x1F), None);
    assert_eq!(expr_token_name(0x34), None);
}

#[test]
fn immediates_of_each_width() {
    let five_bit = [0x81u8, 0x00];
    match try_read_immediate(&five_bit, 0, 2) {
        Some((ExprToken::Immediate(v), next)) => assert_eq!((v, next), (1, 2)),
        _ => panic!("expected an immediate"),
    }
    let negative = [0x9Fu8];
    match try_read_immediate(&negative, 0, 1) {
        Some((ExprToken::Immediate(v), next)) => assert_eq!((v, next), (-1, 1)),
        _ => panic!("expected an immediate"),
    }
    let thirteen_bit = [0xA1u8, 0x23, 0x00];
    match try_read_immediate(&thirteen_bit, 0, 3) {
        Some((ExprToken::Immediate(v), next)) => assert_eq!((v, next), (0x123, 3)),
        _ => panic!("expected an immediate"),
    }
    let twenty_one_bit = [0xDFu8, 0x00, 0x00, 0x00];
    match try_read_immediate(&twenty_one_bit, 0, 4) {
        Some((ExprToken::Immediate(v), next)) => assert_eq!((v, next), (-0x10000, 4)),
        _ => panic!("expected an immediate"),
    }
    let thirty_two_bit = [0xE0u8, 0x78, 0x56, 0x34, 0x12];
    match try_read_immediate(&thirty_two_bit, 0, 5) {
        Some((ExprToken::Immediate(v), next)) => assert_eq!((v, next), (0x12345678, 5)),
        _ => panic!("expected an immediate"),
    }
}

#[test]
fn truncated_immediates_become_markers() {
    match try_read_immediate(&[0xA1u8], 0, 1) {
        Some((ExprToken::Marker(m), next)) => assert_eq!((m.as_str(), next), ("<TRUNC_IMM13>", 1)),
        _ => panic!("expected a marker"),
    }
    match try_read_immediate(&[0xC1u8, 0x00], 0, 2) {
        Some((ExprToken::Marker(m), next)) => assert_eq!((m.as_str(), next), ("<TRUNC_IMM21>", 2)),
        _ => panic!("expected a marker"),
    }
    match try_read_immediate(&[0xE1u8, 0x00, 0x00], 0, 3) {
        Some((ExprToken::Marker(m), next)) => assert_eq!((m.as_str(), next), ("<TRUNC_IMM32>", 3)),
        _ => panic!("expected a marker"),
    }
    match try_read_immediate(&[0x81u8], 1, 5) {
        Some((ExprToken::Marker(m), next)) => assert_eq!((m.as_str(), next), ("<TRUNC>", 1)),
        _ => panic!("expected a marker"),
    }
    assert!(try_read_immediate(&[0x03u8, 0x00], 0, 2).is_none());
}

#[test]
fn expression_with_an_operator() {
    let data = [0x81u8, 0x00, 0x03, 0x05, 0x00, 0x99];
    let (value, end) = read_expr_value(&data, 0, data.len());
    assert_eq!(end, 5);
    assert_eq!(value.tokens.len(), 2);
    assert_eq!(render_expr(&value), "expr(1, ADD@5)");
    assert!(!value.has_unknown_tokens());
    assert!(value.has_value_source());
    assert_eq!(value.try_get_immediate(), None);
}

#[test]
fn unknown_and_dangling_operators() {
    let data = [0x12u8, 0x07, 0x00];
    let (value, end) = read_expr_value(&data, 0, data.len());
    assert_eq!(end, 3);
    assert_eq!(render_expr(&value), "expr(OP_12@7)");
    assert!(value.has_unknown_tokens());
    assert!(!value.has_value_source());

    let dangling = [0x03u8];
    let (value, end) = read_expr_value(&dangling, 0, 1);
    assert_eq!(end, 1);
    assert_eq!(render_expr(&value), "expr(OP_03@?)");
    assert!(value.has_unknown_tokens());
}

#[test]
fn empty_and_truncated_expressions() {
    let (value, end) = read_expr_value(&[0x00u8], 0, 1);
    assert_eq!(end, 1);
    assert_eq!(render_expr(&value), "expr(0)");
    assert!(value.has_value_source());

    let (value, end) = read_expr_value(&[], 0, 0);
    assert_eq!(end, 0);
    assert_eq!(render_expr_body(&value), "<TRUNC>");

    let (value, end) = read_expr_value(&[0xA1u8], 0, 1);
    assert_eq!(end, 1);
    assert_eq!(render_expr(&value), "expr(<TRUNC_IMM13>)");
}

#[test]
fn value_queries() {
    let single = ExprValue { tokens: vec![imm(-7)] };
    assert_eq!(single.try_get_immediate(), Some(-7));
    let load = ExprValue { tokens: vec![op(0x2D, 1)] };
    assert!(load.has_value_source());
    assert!(!load.has_unknown_tokens());
    let arith = ExprValue { tokens: vec![op(0x03, 1)] };
    assert!(!arith.has_value_source());
    let marker = ExprValue { tokens: vec![ExprToken::Marker("<TRUNC>".to_string())] };
    assert!(!marker.has_value_source());
    assert_eq!(marker.try_get_immediate(), None);
    let empty = ExprValue { tokens: vec![] };
    assert!(empty.has_value_source());
    assert_eq!(render_expr_body(&empty), "0");
    assert_eq!(render_expr_body(&ExprValue { tokens: vec![imm(3), op(0x01, 2), imm(-4)] }), "3, MUL@2, -4");
}
