use scx::il::{render_document, render_instruction};
use scx::opcode::decode_scx_known;
use scx::scx::{build_scx_document, execute_scx_loop, parse_scx_data, ScxError, ScxFile, SCX_TABLE0_END};

fn small(data: Vec<u8>) -> ScxFile {
    ScxFile { path: String::new(), data, off1: 0, off2: 0, table0: vec![], table1: vec![], table2: vec![] }
}

fn known(bytes: &[u8]) -> (String, usize) {
    let f = small(bytes.to_vec());
    let inst = decode_scx_known(&f, 0, bytes.len());
    (render_instruction(&inst), inst.end)
}

fn step(bytes: &[u8], limit: usize) -> (String, usize) {
    let f = small(bytes.to_vec());
    let inst = execute_scx_loop(&f, 0, limit);
    (render_instruction(&inst), inst.end)
}

#[test]
fn decodes_known_opcodes() {
    assert_eq!(known(&[0x00, 0x00]), ("break_vm()".to_string(), 2));
    assert_eq!(known(&[0x00, 0x07, 0x34, 0x12]), ("jmp_table0(target=table0[0x1234])".to_string(), 4));
    assert_eq!(known(&[0x00, 0x07, 0x34]), ("jmp_table0(trunc=1)".to_string(), 2));
    assert_eq!(
        known(&[0x00, 0x0A, 0x01, 0x81, 0x00, 0x00, 0x02, 0x00]),
        ("jmp_if_expr(sense=0x01, expr(1), target=table0[0x0002])".to_string(), 8)
    );
    assert_eq!(
        known(&[0x00, 0x0B, 0x05, 0x00, 0x03, 0x00]),
        ("call_table0(target=table0[0x0005], ret=table2[0x0003])".to_string(), 6)
    );
    assert_eq!(
        known(&[0x00, 0x5C, 0x01, b'h', b'i', 0x00]),
        ("op_005c(mode=0x01, text=\"hi\")".to_string(), 6)
    );
    assert_eq!(known(&[0x00, 0x5C, 0x02]), ("op_005c(mode=0x02)".to_string(), 3));
    assert_eq!(known(&[0x00, 0x0E]), ("ret()".to_string(), 2));
}

#[test]
fn unknown_opcodes_show_their_bytes() {
    assert_eq!(known(&[0x00, 0x61, 0xAB]), ("unknown_operands(op=OP_0061, raw16=00 61 ab)".to_string(), 2));
    let long: Vec<u8> = vec![0x00, 0x61, 1, 2, 3, 4, 5, 6, 7, 8, 9, 10, 11, 12, 13, 14, 15, 16];
    assert_eq!(
        known(&long),
        ("unknown_operands(op=OP_0061, raw16=00 61 01 02 03 04 05 06 07 08 09 0a 0b 0c 0d 0e)".to_string(), 2)
    );
}

#[test]
fn the_vm_loop_falls_back_to_data_words() {
    assert_eq!(step(&[0x00, 0x00], 2), ("break_vm() ; raw=0000".to_string(), 2));
    assert_eq!(step(&[0x00, 0x61, 0xAB], 3), ("data_u16(=0x0061)".to_string(), 2));
    assert_eq!(step(&[0x85, 0x02], 2), ("data_u16(=0x0502)".to_string(), 2));
    assert_eq!(step(&[0x00, 0x00], 1), ("trunc_op(=0x00)".to_string(), 1));
    assert_eq!(step(&[0x00, 0x00], 0), ("eof()".to_string(), 0));
}

#[test]
fn the_vm_loop_reads_expression_statements() {
    assert_eq!(step(&[0xFE, 0x81, 0x00, 0x00], 4), ("expr(1) ; raw=00FE".to_string(), 4));
    assert_eq!(step(&[0xFE, 0x03, 0x01, 0x00], 4), ("data_u16(=0x03FE)".to_string(), 2));
    assert_eq!(step(&[0xFE, 0x03], 1), ("trunc_op(=0xFE)".to_string(), 1));
}

fn scx_bytes(code: &[u8], labels: &[(usize, u32)]) -> Vec<u8> {
    let end = SCX_TABLE0_END + code.len();
    let mut d = vec![0u8; end];
    d[0..4].copy_from_slice(b"SC3\0");
    d[4..8].copy_from_slice(&(end as u32).to_le_bytes());
    d[8..12].copy_from_slice(&(end as u32).to_le_bytes());
    for &(i, off) in labels {
        d[0x0C + 4 * i..0x10 + 4 * i].copy_from_slice(&off.to_le_bytes());
    }
    d[SCX_TABLE0_END..].copy_from_slice(code);
    d
}

#[test]
fn parses_the_header_and_tables() {
    let data = scx_bytes(&[0x00, 0x00, 0x00, 0x0E], &[(0, 0x400C), (5, 0x400E)]);
    let f = parse_scx_data("x.scx".to_string(), data.clone()).unwrap();
    assert_eq!((f.off1, f.off2), (0x4010, 0x4010));
    assert_eq!(f.code_start(), 0x400C);
    assert_eq!(f.code_end(), 0x4010);
    assert_eq!(f.table0.len(), 0x1000);
    assert_eq!((f.table0[0], f.table0[5], f.table0[6]), (0x400C, 0x400E, 0));
    assert!(f.table1.is_empty());
    assert!(f.table2.is_empty());
    assert_eq!(f.data, data);
}

#[test]
fn rejects_bad_headers() {
    assert_eq!(parse_scx_data(String::new(), b"SC3\0".to_vec()).err(), Some(ScxError::NotSc3));
    assert_eq!(parse_scx_data(String::new(), b"SC4\0\0\0\0\0\0\0\0\0".to_vec()).err(), Some(ScxError::NotSc3));
    let mut d = b"SC3\0".to_vec();
    d.extend_from_slice(&0x100u32.to_le_bytes());
    d.extend_from_slice(&0x100u32.to_le_bytes());
    assert_eq!(
        parse_scx_data(String::new(), d).err(),
        Some(ScxError::InvalidOffsets { off1: 0x100, off2: 0x100, size: 12 })
    );
    let mut d = scx_bytes(&[0x00, 0x00], &[]);
    d[8..12].copy_from_slice(&0x400Cu32.to_le_bytes());
    assert_eq!(
        parse_scx_data(String::new(), d).err(),
        Some(ScxError::InvalidOffsets { off1: 0x400E, off2: 0x400C, size: 0x400E })
    );
}

#[test]
fn lists_reachable_code() {
    let data = scx_bytes(&[0x00, 0x07, 0x01, 0x00, 0x00, 0x00], &[(0, 0x400C), (1, 0x4010)]);
    let f = parse_scx_data("dir/a.scx".to_string(), data).unwrap();
    let doc = build_scx_document(&f);
    assert_eq!(doc.sweep_start, 0x400C);
    let lines = render_document(&doc);
    let expected = vec![
        "; file=dir/a.scx",
        "; size=16402 (0x4012)",
        "; magic=SC3\\0",
        "; off_table1=0x4012",
        "; off_table2=0x4012",
        "; code_region=[0x400C, 0x4012)",
        "; sweep_start=0x400C",
        "",
        "0000400C: jmp_table0(target=table0[0x0001]) ; raw=0007",
        "00004010: break_vm() ; raw=0000",
    ];
    assert_eq!(lines, expected);
}

#[test]
fn unreached_code_is_not_listed() {
    let data = scx_bytes(&[0x00, 0x0E, 0x00, 0x00, 0x00, 0x0E], &[(0, 0x400C), (1, 0x4010)]);
    let f = parse_scx_data(String::new(), data).unwrap();
    let lines = render_document(&build_scx_document(&f));
    assert_eq!(&lines[8..], &["0000400C: ret() ; raw=000E", "", "00004010: ret() ; raw=000E"]);
}

#[test]
fn switch_tables_become_case_labels() {
    let code = [0x00, 0x08, 0x80, 0x00, 0x00, 0x02, 0x00, 0x18, 0x40, 0x00, 0x0E];
    let data = scx_bytes(&code, &[(0, 0x400C), (2, 0x4013)]);
    let f = parse_scx_data(String::new(), data).unwrap();
    let lines = render_document(&build_scx_document(&f));
    assert_eq!(lines[1], "; size=16407 (0x4017)");
    assert_eq!(
        &lines[8..],
        &[
            "0000400C: switch_jmp(selector=expr(0), table_base=table0[0x0002], case_target=table0[0x4018]) ; raw=0008",
            "00004013: switch_case(target=table0[0x1840])",
            "00004015: ret() ; raw=000E",
        ]
    );
}

#[test]
fn calls_and_their_return_labels() {
    let mut code = vec![0x00, 0x0B, 0x01, 0x00, 0x00, 0x00, 0x00, 0x0E];
    code.extend_from_slice(&0x4012u32.to_le_bytes());
    let mut data = scx_bytes(&code, &[(0, 0x400C), (1, 0x4012)]);
    data[4..8].copy_from_slice(&0x4014u32.to_le_bytes());
    data[8..12].copy_from_slice(&0x4014u32.to_le_bytes());
    let f = parse_scx_data(String::new(), data).unwrap();
    assert_eq!(f.table2, vec![0x4012]);
    assert_eq!(f.code_end(), 0x4014);
    let lines = render_document(&build_scx_document(&f));
    assert_eq!(
        &lines[8..],
        &["0000400C: call_table0(target=table0[0x0001], ret=table2[0x0000]) ; raw=000B", "00004012: ret() ; raw=000E"]
    );
}

#[test]
fn case_tables_are_read_to_their_end_and_their_cases_followed() {
    let code = [
        0x00, 0x08, 0x80, 0x00, 0x00, 0x02, 0x00, 0x02, 0x05, 0x03, 0x05, 0x00, 0x0E, 0x00, 0x00,
    ];
    let data = scx_bytes(&code, &[(0, 0x400C), (2, 0x4013), (0x205, 0x4019), (0x305, 0x4017)]);
    let f = parse_scx_data(String::new(), data).unwrap();
    let lines = render_document(&build_scx_document(&f));
    assert_eq!(
        &lines[8..],
        &[
            "0000400C: switch_jmp(selector=expr(0), table_base=table0[0x0002], case_target=table0[0x0502]) ; raw=0008",
            "00004013: switch_case(target=table0[0x0205])",
            "00004015: switch_case(target=table0[0x0305])",
            "00004017: ret() ; raw=000E",
            "00004019: break_vm() ; raw=0000",
        ]
    );
}

#[test]
fn listed_instructions_sit_at_their_keys() {
    let code = [0x00, 0x08, 0x80, 0x00, 0x00, 0x02, 0x00, 0x18, 0x40, 0x00, 0x0E];
    let data = scx_bytes(&code, &[(0, 0x400C), (2, 0x4013)]);
    let f = parse_scx_data(String::new(), data).unwrap();
    let doc = build_scx_document(&f);
    assert_eq!(doc.instructions.len(), 3);
    for (k, inst) in &doc.instructions {
        assert_eq!(inst.offset, *k);
        assert!(*k >= 0x400C && *k < f.off1 as usize);
    }
    assert!(doc.instructions.contains_key(&0x400C));
}
