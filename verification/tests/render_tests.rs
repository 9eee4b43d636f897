use scx::layout::{glyph_metrics_for, render_token_stream, render_entry, stack_blocks, TextLayout};
use scx::msb::{MsbEntry, MsbToken};
use scx::render::{
    build_unsupported_control_list, parse_glyph_metrics, split_entry_sections, try_parse_glyph_index, try_parse_u16_argument,
    GlyphMetrics,
};

fn tok(raw: u32) -> MsbToken {
    MsbToken { offset: 0, end: 4, kind: "tok".to_string(), raw, text: format!("tok(raw={raw})") }
}

fn ctrl(text: &str) -> MsbToken {
    MsbToken { offset: 0, end: 1, kind: "ctrl".to_string(), raw: 0, text: text.to_string() }
}

fn metrics() -> Vec<GlyphMetrics> {
    vec![
        GlyphMetrics { x_offset: 1, y_offset: 2, atlas_x: 0, atlas_y: 0, width: 10, height: 20, advance_x: 12, line_height: 0 },
        GlyphMetrics { x_offset: 0, y_offset: 0, atlas_x: 0, atlas_y: 0, width: 0, height: 0, advance_x: 5, line_height: 0 },
        GlyphMetrics { x_offset: 0, y_offset: 0, atlas_x: 60, atlas_y: 0, width: 10, height: 10, advance_x: 0, line_height: 0 },
    ]
}

#[test]
fn splits_name_and_body() {
    let data = vec![0x01, 0x81, 0, 0, 0x41, 0x02, 0x81, 0, 0, 0x42, 0x00, 0x81, 0, 0, 0x43, 0xFF];
    let entry = MsbEntry { msg_id: 1, rel_start: 0, rel_end: 16, abs_start: 0x30, abs_end: 0x40, data };
    let (name, body) = split_entry_sections(&entry);
    let name: Vec<String> = name.into_iter().map(|t| t.text).collect();
    let body: Vec<String> = body.into_iter().map(|t| t.text).collect();
    assert_eq!(name, vec!["tok(prefix=0x81, value=0x01000041)"]);
    assert_eq!(body, vec!["tok(prefix=0x81, value=0x01000042)", "newline()", "tok(prefix=0x81, value=0x01000043)"]);
}

#[test]
fn glyph_indices_drop_the_top_bit() {
    assert_eq!(try_parse_glyph_index(&tok(0x8100_0041)), Some(0x0100_0041));
    assert_eq!(try_parse_glyph_index(&tok(0x0000_0007)), Some(7));
    assert_eq!(try_parse_glyph_index(&ctrl("newline()")), None);
}

#[test]
fn u16_arguments() {
    let p = "advance_x(width=0x";
    assert_eq!(try_parse_u16_argument("advance_x(width=0x0010)", p), Some(0x10));
    assert_eq!(try_parse_u16_argument("ADVANCE_X(WIDTH=0XFFFF)", p), Some(0xFFFF));
    assert_eq!(try_parse_u16_argument("advance_x(width=0x+1f)", p), Some(0x1F));
    assert_eq!(try_parse_u16_argument("advance_x(width=0x10000)", p), None);
    assert_eq!(try_parse_u16_argument("advance_x(width=0x)", p), None);
    assert_eq!(try_parse_u16_argument("advance_x(width=0x12", p), None);
    assert_eq!(try_parse_u16_argument("advance_y(offset=0x0010)", p), None);
    assert_eq!(try_parse_u16_argument("advance_x(width=0xg1)", p), None);
}

#[test]
fn unsupported_controls_are_sorted_and_counted() {
    let ignored: Vec<String> = ["b()", "a()", "b()", "B()"].iter().map(|s| s.to_string()).collect();
    assert_eq!(build_unsupported_control_list(&ignored), vec!["B() x1", "a() x1", "b() x2"]);
    assert!(build_unsupported_control_list(&[]).is_empty());
}

#[test]
fn metrics_records_are_sixteen_bytes() {
    let mut data = Vec::new();
    for v in [1i16, -2, 3, 4, 5, 6, -7, 8] {
        data.extend_from_slice(&v.to_le_bytes());
    }
    let m = parse_glyph_metrics(&data).unwrap();
    assert_eq!(m.len(), 1);
    let g = m[0];
    assert_eq!(
        (g.x_offset, g.y_offset, g.atlas_x, g.atlas_y, g.width, g.height, g.advance_x, g.line_height),
        (1, -2, 3, 4, 5, 6, -7, 8)
    );
    assert!(parse_glyph_metrics(&data[..15]).is_none());
    assert_eq!(parse_glyph_metrics(&[]).map(|v| v.len()), Some(0));
}

#[test]
fn glyphs_must_lie_in_the_atlas() {
    let m = metrics();
    assert!(glyph_metrics_for(&m, 64, 64, 0).is_some());
    assert!(glyph_metrics_for(&m, 64, 64, 1).is_some());
    assert!(glyph_metrics_for(&m, 64, 64, 2).is_none());
    assert!(glyph_metrics_for(&m, 70, 64, 2).is_some());
    assert!(glyph_metrics_for(&m, 9, 64, 0).is_none());
    assert!(glyph_metrics_for(&m, 64, 64, 3).is_none());
}

fn placements(l: &TextLayout) -> Vec<(usize, i64, i64)> {
    l.placements.iter().map(|p| (p.glyph, p.x, p.y)).collect()
}

#[test]
fn lays_out_a_single_line() {
    let tokens = vec![tok(0), ctrl("ctrl_06()"), tok(1), tok(0), ctrl("slot_runtime_mode_1()"), ctrl("ctrl_06()"), tok(9)];
    let l = render_token_stream(&tokens, &metrics(), 64, 64, 100).unwrap();
    assert_eq!(l.line_count, 1);
    assert_eq!(l.lines.len(), 1);
    assert_eq!(placements(&l), vec![(0, 17, 16), (0, 34, 16)]);
    assert_eq!((l.width, l.height), (60, 64));
    assert_eq!((l.canvas_width, l.canvas_height), (132, 64));
    assert_eq!(l.unsupported_controls, vec!["ctrl_06() x2", "slot_runtime_mode_1() x1"]);
}

#[test]
fn alignment_line_breaks_and_vertical_advance() {
    let tokens = vec![
        ctrl("align_center()"),
        tok(0),
        ctrl("newline()"),
        ctrl("advance_y(offset=0x0008)"),
        ctrl("advance_x(width=0x0004)"),
        tok(0),
    ];
    let l = render_token_stream(&tokens, &metrics(), 64, 64, 100).unwrap();
    assert_eq!(l.line_count, 4);
    assert_eq!(l.lines[2].forced_height, Some(8));
    assert!(l.lines[1].items.is_empty());
    assert_eq!(placements(&l), vec![(0, 61, 16), (0, 63, 136)]);
    assert_eq!((l.width, l.height), (89, 184));
    assert_eq!((l.canvas_width, l.canvas_height), (132, 184));
    assert!(l.unsupported_controls.is_empty());
}

#[test]
fn right_alignment_and_wide_lines() {
    let tokens = vec![ctrl("align_right()"), tok(0), ctrl("advance_x(width=0x00C8)"), tok(0)];
    let l = render_token_stream(&tokens, &metrics(), 64, 64, 100).unwrap();
    assert_eq!(placements(&l), vec![(0, 17, 16), (0, 229, 16)]);
    assert_eq!((l.width, l.canvas_width), (255, 255));
    let right = vec![ctrl("align_right()"), tok(0)];
    let l = render_token_stream(&right, &metrics(), 64, 64, 100).unwrap();
    assert_eq!(placements(&l), vec![(0, 106, 16)]);
}

#[test]
fn empty_streams_have_no_layout() {
    assert!(render_token_stream(&[], &metrics(), 64, 64, 100).is_none());
    let only_breaks = vec![ctrl("newline()")];
    let l = render_token_stream(&only_breaks, &metrics(), 64, 64, 100).unwrap();
    assert_eq!(l.line_count, 2);
    assert_eq!((l.width, l.height), (33, 112));
    assert_eq!(l.canvas_width, 132);
}

#[test]
fn renders_and_stacks_name_and_body() {
    let data = vec![0x01, 0x80, 0, 0, 0, 0x02, 0x80, 0, 0, 0, 0xFF];
    let entry = MsbEntry { msg_id: 1, rel_start: 0, rel_end: 11, abs_start: 0, abs_end: 11, data };
    let (name, body, ignored) = render_entry(&entry, &metrics(), 64, 64, 100);
    let name = name.unwrap();
    let body = body.unwrap();
    assert_eq!((name.width, name.height, name.line_count), (43, 64, 1));
    assert_eq!((body.width, body.height, body.line_count), (43, 64, 1));
    assert!(ignored.is_empty());
    let stacked = stack_blocks(Some(&name), Some(&body));
    assert_eq!((stacked.width, stacked.height, stacked.offsets.clone()), (43, 144, vec![0, 80]));
    let only = stack_blocks(None, Some(&body));
    assert_eq!((only.width, only.height, only.offsets.clone()), (43, 64, vec![0]));
    let none = stack_blocks(None, None);
    assert_eq!((none.width, none.height, none.offsets.len()), (1, 1, 0));
}

#[test]
fn body_only_messages_collect_their_controls() {
    let data = vec![0x06, 0x80, 0, 0, 0, 0x06, 0xFF];
    let entry = MsbEntry { msg_id: 1, rel_start: 0, rel_end: 7, abs_start: 0, abs_end: 7, data };
    let (name, body, ignored) = render_entry(&entry, &metrics(), 64, 64, 100);
    assert!(name.is_none());
    assert_eq!(body.unwrap().line_count, 1);
    assert_eq!(ignored, vec!["ctrl_06() x2"]);
}

#[test]
fn name_runs_reopen_and_markers_are_dropped() {
    // begin, A, end_name, B, begin, C, end()
    let data = vec![0x01, 0x81, 0, 0, 0x41, 0x02, 0x81, 0, 0, 0x42, 0x01, 0x81, 0, 0, 0x43, 0xFF];
    let entry = MsbEntry { msg_id: 1, rel_start: 0, rel_end: 16, abs_start: 0, abs_end: 16, data };
    let (name, body) = split_entry_sections(&entry);
    let name: Vec<String> = name.into_iter().map(|t| t.text).collect();
    let body: Vec<String> = body.into_iter().map(|t| t.text).collect();
    assert_eq!(name, vec!["tok(prefix=0x81, value=0x01000041)", "tok(prefix=0x81, value=0x01000043)"]);
    assert_eq!(body, vec!["tok(prefix=0x81, value=0x01000042)"]);
}
