use scx::il::render_document;
use scx::msb::{build_msb_document, decode_entry_tokens, decode_msb_token, parse_msb_data, MsbEntry, MsbError};

fn token(data: &[u8], position: usize, base: usize) -> (usize, usize, String, u32, String) {
    let t = decode_msb_token(data, position, base);
    (t.offset, t.end, t.kind, t.raw, t.text)
}

#[test]
fn end_and_unterminated_tokens() {
    assert_eq!(token(&[0xFF], 0, 0x20), (0x20, 0x21, "end".to_string(), 0xFF, "end()".to_string()));
    assert_eq!(token(&[0xFF], 1, 0x20), (0x21, 0x21, "unterminated".to_string(), 0, "unterminated()".to_string()));
}

#[test]
fn packed_glyph_tokens() {
    assert_eq!(
        token(&[0x81, 0x00, 0x00, 0x41], 0, 0),
        (0, 4, "tok".to_string(), 0x8100_0041, "tok(prefix=0x81, value=0x01000041)".to_string())
    );
    assert_eq!(
        token(&[0x00, 0x80, 0x01], 1, 0x10),
        (0x11, 0x13, "trunc_tok".to_string(), 0x8001, "trunc_tok(prefix=0x80, raw=0x8001)".to_string())
    );
}

#[test]
fn controls_with_arguments() {
    assert_eq!(
        token(&[0x11, 0x00, 0x20], 0, 0),
        (0, 3, "ctrl".to_string(), 0x11_0020, "advance_y(offset=0x0020)".to_string())
    );
    assert_eq!(token(&[0x07, 0x05], 0, 0), (0, 2, "ctrl".to_string(), 0x0705, "ctrl_07(value=0x05)".to_string()));
    assert_eq!(
        token(&[0x12, 0x00], 0, 0),
        (0, 2, "trunc_ctrl".to_string(), 0x1200, "trunc_ctrl(name=advance_x, raw=0x1200)".to_string())
    );
    assert_eq!(
        token(&[0x04, 0x81, 0x00, 0x00], 0, 0),
        (0, 4, "ctrl".to_string(), 0x04, "set_text_color_expr(size=0x0002, raw=81 00)".to_string())
    );
    assert_eq!(
        token(&[0x15, 0x81], 0, 0),
        (0, 2, "trunc_ctrl".to_string(), 0x1581, "trunc_ctrl(name=queue_inline_expr, raw=0x1581)".to_string())
    );
}

#[test]
fn plain_controls() {
    assert_eq!(token(&[0x00], 0, 0).4, "newline()");
    assert_eq!(token(&[0x01], 0, 0).4, "begin_name_run()");
    assert_eq!(token(&[0x0F], 0, 0).4, "align_center()");
    assert_eq!(token(&[0x31], 0, 0).4, "align_right()");
    assert_eq!(token(&[0x23], 0, 0).4, "select_special_slot(3)");
    assert_eq!(token(&[0x52], 0, 0).4, "emit_special_slot_glyph(2)");
    assert_eq!(token(&[0x06], 0, 0).4, "ctrl_06()");
    assert_eq!(token(&[0x2B], 0, 0).4, "ctrl_2B()");
    assert_eq!(token(&[0x7A], 0, 0), (0, 1, "ctrl".to_string(), 0x7A, "ctrl_7A()".to_string()));
}

fn sample_file() -> Vec<u8> {
    let mut d = b"MES\0".to_vec();
    d.extend_from_slice(&1u32.to_le_bytes());
    d.extend_from_slice(&2u32.to_le_bytes());
    d.extend_from_slice(&0x20u32.to_le_bytes());
    d.extend_from_slice(&7u32.to_le_bytes());
    d.extend_from_slice(&0u32.to_le_bytes());
    d.extend_from_slice(&9u32.to_le_bytes());
    d.extend_from_slice(&3u32.to_le_bytes());
    d.extend_from_slice(&[0x00, 0x10, 0xFF]);
    d.extend_from_slice(&[0x81, 0x00, 0x00, 0x42, 0xFF]);
    d
}

#[test]
fn parses_a_message_file() {
    let data = sample_file();
    let f = parse_msb_data("dir/set/a.msb".to_string(), "set".to_string(), data.clone()).unwrap();
    assert_eq!(f.size(), 0x28);
    assert_eq!((f.version, f.count_field, f.data_offset), (1, 2, 0x20));
    assert_eq!(f.entries.len(), 2);
    let e0 = &f.entries[0];
    assert_eq!((e0.msg_id, e0.rel_start, e0.rel_end, e0.abs_start, e0.abs_end), (7, 0, 3, 0x20, 0x23));
    assert_eq!(e0.data, vec![0x00, 0x10, 0xFF]);
    let e1 = &f.entries[1];
    assert_eq!((e1.msg_id, e1.rel_start, e1.rel_end, e1.abs_start, e1.abs_end), (9, 3, 8, 0x23, 0x28));
    assert!(f.raw_tail.is_empty());
    assert_eq!(f.data, data);
}

#[test]
fn renders_a_message_file() {
    let f = parse_msb_data("dir/set/a.msb".to_string(), "set".to_string(), sample_file()).unwrap();
    let lines = render_document(&build_msb_document(&f));
    assert_eq!(lines[0], "; file=dir/set/a.msb");
    assert_eq!(lines[1], "; source_set=set");
    assert_eq!(lines[2], "; size=40 (0x28)");
    assert_eq!(lines[5], "; count_field=2");
    assert_eq!(lines[7], "; data_offset=0x20");
    assert_eq!(lines[8], "; layout=count_field relative start offsets; each message ends at next start or EOF");
    assert_eq!(lines[9], "; token_lexer=0x80..0xFE => 4-byte token | 0x00..0x7F => ctrl | 0xFF => end");
    assert_eq!(lines[10], "; decode_policy=bn_semantics_conservative");
    assert_eq!(lines[11], "");
    assert_eq!(lines[12], "00000020: msg_0007(newline(), align_left(), end()) ; id=7 | rel=[0x0000,0x0003) | len=0x3");
    assert_eq!(
        lines[13],
        "00000023: msg_0009(tok(prefix=0x81, value=0x01000042), end()) ; id=9 | rel=[0x0003,0x0008) | len=0x5"
    );
    assert_eq!(lines.len(), 14);
}

#[test]
fn unterminated_messages_get_a_marker() {
    let entry = MsbEntry { msg_id: 1, rel_start: 0, rel_end: 2, abs_start: 0x40, abs_end: 0x42, data: vec![0x00, 0x0F] };
    let tokens = decode_entry_tokens(&entry);
    let texts: Vec<&str> = tokens.iter().map(|t| t.text.as_str()).collect();
    assert_eq!(texts, vec!["newline()", "align_center()", "unterminated()"]);
    assert_eq!((tokens[2].offset, tokens[2].end), (0x42, 0x42));
    let trunc = MsbEntry { msg_id: 1, rel_start: 0, rel_end: 3, abs_start: 0, abs_end: 3, data: vec![0x00, 0x81, 0x00] };
    let texts: Vec<String> = decode_entry_tokens(&trunc).into_iter().map(|t| t.text).collect();
    assert_eq!(texts, vec!["newline()", "trunc_tok(prefix=0x81, raw=0x8100)", "unterminated()"]);
}

fn header(version: u32, count: u32, data_offset: u32) -> Vec<u8> {
    let mut d = b"MES\0".to_vec();
    d.extend_from_slice(&version.to_le_bytes());
    d.extend_from_slice(&count.to_le_bytes());
    d.extend_from_slice(&data_offset.to_le_bytes());
    d
}

fn parse(d: Vec<u8>) -> Result<(), MsbError> {
    parse_msb_data(String::new(), String::new(), d).map(|_| ())
}

#[test]
fn rejects_malformed_message_files() {
    assert_eq!(parse(b"MES\0".to_vec()), Err(MsbError::NotMes));
    assert_eq!(parse(b"MEX\0000000000000".to_vec()), Err(MsbError::NotMes));
    assert_eq!(parse(header(2, 0, 0x10)), Err(MsbError::UnsupportedVersion { version: 2 }));
    assert_eq!(parse(header(1, 1, 0x10)), Err(MsbError::InvalidDataOffset { data_offset: 0x10, expected: 0x18 }));
    assert_eq!(parse(header(1, 1, 0x18)), Err(MsbError::DataOffsetBeyondEof));

    let mut d = header(1, 1, 0x18);
    d.extend_from_slice(&5u32.to_le_bytes());
    d.extend_from_slice(&4u32.to_le_bytes());
    assert_eq!(parse(d), Err(MsbError::FirstRelStartNonZero { rel_start: 4 }));

    let mut d = header(1, 3, 0x28);
    for (id, rel) in [(1u32, 0u32), (2, 6), (3, 5)] {
        d.extend_from_slice(&id.to_le_bytes());
        d.extend_from_slice(&rel.to_le_bytes());
    }
    assert_eq!(parse(d), Err(MsbError::NonMonotonic { msg_id: 3, rel_start: 5, prev_rel_start: 6 }));

    let mut d = header(1, 2, 0x20);
    for (id, rel) in [(1u32, 0u32), (2, 4)] {
        d.extend_from_slice(&id.to_le_bytes());
        d.extend_from_slice(&rel.to_le_bytes());
    }
    d.extend_from_slice(&[0xFF, 0xFF]);
    assert_eq!(parse(d.clone()), Err(MsbError::RangeExceedsEof { msg_id: 1 }));
    d.extend_from_slice(&[0xFF, 0xFF]);
    assert_eq!(parse(d), Ok(()));
}

#[test]
fn message_ranges_and_tail() {
    let mut d = header(1, 2, 0x20);
    for (id, rel) in [(1u32, 0u32), (2, 4)] {
        d.extend_from_slice(&id.to_le_bytes());
        d.extend_from_slice(&rel.to_le_bytes());
    }
    d.extend_from_slice(&[0xFF; 4]);
    d.extend_from_slice(&[0xFF; 2]);
    assert!(parse(d.clone()).is_ok());
    let mut short = header(1, 2, 0x20);
    for (id, rel) in [(1u32, 0u32), (2, 0)] {
        short.extend_from_slice(&id.to_le_bytes());
        short.extend_from_slice(&rel.to_le_bytes());
    }
    assert!(parse(short.clone()).is_ok());
    let mut tail_before = header(1, 1, 0x18);
    tail_before.extend_from_slice(&1u32.to_le_bytes());
    tail_before.extend_from_slice(&0u32.to_le_bytes());
    tail_before.extend_from_slice(&[0x00, 0xFF]);
    let f = parse_msb_data(String::new(), String::new(), tail_before).unwrap();
    assert_eq!(f.entries[0].data, vec![0x00, 0xFF]);
    assert!(f.raw_tail.is_empty());
    let mut no_entries = header(1, 0, 0x10);
    no_entries.extend_from_slice(&[1, 2, 3]);
    let f = parse_msb_data(String::new(), String::new(), no_entries).unwrap();
    assert!(f.entries.is_empty());
    assert_eq!(f.raw_tail, vec![1, 2, 3]);
}

#[test]
fn message_tokens_follow_one_another() {
    let data = vec![0x11, 0x00, 0x20, 0x81, 0x00, 0x00, 0x41, 0x04, 0x81, 0x00, 0x00, 0x00, 0xFF];
    let entry = MsbEntry { msg_id: 3, rel_start: 0, rel_end: 13, abs_start: 0x100, abs_end: 0x10D, data };
    let tokens = decode_entry_tokens(&entry);
    let spans: Vec<(usize, usize)> = tokens.iter().map(|t| (t.offset, t.end)).collect();
    assert_eq!(spans, vec![(0x100, 0x103), (0x103, 0x107), (0x107, 0x10B), (0x10B, 0x10C), (0x10C, 0x10D)]);
    for pair in tokens.windows(2) {
        assert_eq!(pair[1].offset, pair[0].end.max(pair[0].offset + 1));
    }
}

#[test]
fn distinct_message_starts_give_one_entry_each() {
    let f = parse_msb_data("a.msb".to_string(), "set".to_string(), sample_file()).unwrap();
    let doc = build_msb_document(&f);
    assert_eq!(doc.instructions.len(), f.entries.len());
    for e in &f.entries {
        let inst = &doc.instructions[&e.abs_start];
        assert_eq!((inst.offset, inst.end), (e.abs_start, e.abs_end));
        assert_eq!(inst.mnemonic, format!("msg_{:04X}", e.msg_id));
    }
}
