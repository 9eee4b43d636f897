//! Where the glyphs of a token stream go: lines, alignment, pen moves,
//! line heights, and the size of the picture they make.
use vstd::prelude::*;

use crate::il::strings_view;
use crate::msb::{entry_fits, lemma_entry_tokens_len, spec_entry_tokens, tokens_view, MsbEntry, MsbToken, SpecMsbToken};
use crate::render::{
    build_unsupported_control_list, is_control_summary, lemma_argument_prefix, lemma_split_len, spec_glyph_index, spec_u16_argument,
    split_entry_sections, split_from, try_parse_glyph_index, try_parse_u16_argument, GlyphMetrics,
};
use crate::text::str_eq;

verus! {

// ── layout ──

/// The metrics of a glyph the atlas holds: `None` when the index is past
/// the metrics or a drawn glyph's rectangle leaves the atlas.
pub open spec fn spec_glyph_metrics(metrics: Seq<GlyphMetrics>, atlas_width: u32, atlas_height: u32, glyph: usize) -> Option<
    GlyphMetrics,
> {
    if glyph >= metrics.len() {
        None
    } else {
        let m = metrics[glyph as int];
        if m.width <= 0 || m.height <= 0 {
            Some(m)
        } else if (m.atlas_x as int) % 0x1_0000_0000 + m.width > atlas_width || (m.atlas_y as int) % 0x1_0000_0000
            + m.height > atlas_height {
            None
        } else {
            Some(m)
        }
    }
}

/// `v` as `as u32` reads it.
fn as_u32_wide(v: i16) -> (r: u64)
    ensures
        r == (v as int) % 0x1_0000_0000,
{
    if v < 0 {
        (v as i64 + 0x1_0000_0000) as u64
    } else {
        v as u64
    }
}

/// The metrics of a glyph of the atlas, when it has them and its
/// rectangle lies inside the atlas.
pub fn glyph_metrics_for(metrics: &[GlyphMetrics], atlas_width: u32, atlas_height: u32, glyph: usize) -> (r: Option<
    GlyphMetrics,
>)
    ensures
        r == spec_glyph_metrics(metrics@, atlas_width, atlas_height, glyph),
{
    if glyph >= metrics.len() {
        return None;
    }
    let m = metrics[glyph];
    if m.width <= 0 || m.height <= 0 {
        return Some(m);
    }
    if as_u32_wide(m.atlas_x) + m.width as u64 > atlas_width as u64 || as_u32_wide(m.atlas_y) + m.height as u64
        > atlas_height as u64 {
        return None;
    }
    Some(m)
}

#[derive(Clone, Copy, Debug, PartialEq, Eq)]
pub enum Align {
    Left,
    Center,
    Right,
}

/// A glyph placed on a line: its position relative to the line and size.
#[derive(Clone, Copy, Debug)]
pub struct LayoutItem {
    pub x: i64,
    pub y: i64,
    pub width: u32,
    pub height: u32,
    pub glyph: usize,
}

pub struct SpecItem {
    pub x: int,
    pub y: int,
    pub width: int,
    pub height: int,
    pub glyph: int,
}

impl View for LayoutItem {
    type V = SpecItem;

    open spec fn view(&self) -> SpecItem {
        SpecItem { x: self.x as int, y: self.y as int, width: self.width as int, height: self.height as int, glyph: self.glyph as int }
    }
}

pub struct LineLayout {
    pub items: Vec<LayoutItem>,
    pub forced_height: Option<u32>,
}

pub struct SpecLine {
    pub items: Seq<SpecItem>,
    pub forced_height: Option<int>,
}

pub open spec fn items_view(v: Seq<LayoutItem>) -> Seq<SpecItem> {
    v.map_values(|i: LayoutItem| i@)
}

pub open spec fn opt_height(h: Option<u32>) -> Option<int> {
    match h {
        Some(v) => Some(v as int),
        None => None,
    }
}

impl View for LineLayout {
    type V = SpecLine;

    open spec fn view(&self) -> SpecLine {
        SpecLine { items: items_view(self.items@), forced_height: opt_height(self.forced_height) }
    }
}

pub open spec fn lines_view(v: Seq<LineLayout>) -> Seq<SpecLine> {
    v.map_values(|l: LineLayout| l@)
}

pub open spec fn imax(a: int, b: int) -> int {
    if a >= b {
        a
    } else {
        b
    }
}

pub open spec fn imin(a: int, b: int) -> int {
    if a <= b {
        a
    } else {
        b
    }
}

/// How far an item reaches to the right, at least zero.
pub open spec fn item_right(it: SpecItem) -> int {
    imax(it.x + it.width, 0)
}

/// The width of a line: the farthest its items reach.
pub open spec fn line_width(items: Seq<SpecItem>) -> int
    decreases items.len(),
{
    if items.len() == 0 {
        0
    } else {
        imax(line_width(items.drop_last()), item_right(items.last()))
    }
}

/// How far alignment moves a line of `width` on a canvas of `canvas`.
pub open spec fn align_shift(align: Align, width: int, canvas: int) -> int {
    match align {
        Align::Center => if width < canvas {
            (canvas - width) / 2
        } else {
            0
        },
        Align::Right => if width < canvas {
            canvas - width
        } else {
            0
        },
        Align::Left => 0,
    }
}

pub open spec fn shifted(items: Seq<SpecItem>, d: int) -> Seq<SpecItem> {
    items.map_values(|it: SpecItem| SpecItem { x: it.x + d, ..it })
}

/// Ends the current line: aligned, or an empty line when it has nothing.
pub open spec fn spec_flush(lines: Seq<SpecLine>, current: Seq<SpecItem>, align: Align, canvas: int) -> Seq<SpecLine> {
    if current.len() == 0 {
        lines.push(SpecLine { items: Seq::empty(), forced_height: None })
    } else {
        lines.push(
            SpecLine {
                items: shifted(current, align_shift(align, line_width(current), canvas)),
                forced_height: None,
            },
        )
    }
}

pub struct LayoutState {
    pub lines: Seq<SpecLine>,
    pub current: Seq<SpecItem>,
    pub align: Align,
    pub x: int,
    pub ignored: Seq<Seq<char>>,
}

pub open spec fn initial_state() -> LayoutState {
    LayoutState { lines: Seq::empty(), current: Seq::empty(), align: Align::Left, x: 0, ignored: Seq::empty() }
}

/// A glyph token: the glyph joins the line when it is drawn and the pen
/// moves by its advance (or width).
pub open spec fn glyph_step(st: LayoutState, g: usize, m: GlyphMetrics) -> LayoutState {
    let cur = if m.width > 0 && m.height > 0 {
        st.current.push(
            SpecItem { x: st.x + m.x_offset, y: m.y_offset as int, width: m.width as int, height: m.height as int, glyph: g as int },
        )
    } else {
        st.current
    };
    let adv = if m.advance_x > 0 {
        m.advance_x as int
    } else {
        m.width as int
    };
    LayoutState { current: cur, x: st.x + imax(adv, 0), ..st }
}

/// One token of the stream: glyphs, line breaks, alignment, pen moves;
/// any other control is noted as not rendered.
pub open spec fn layout_step(
    st: LayoutState,
    t: SpecMsbToken,
    metrics: Seq<GlyphMetrics>,
    atlas_width: u32,
    atlas_height: u32,
    canvas: u32,
) -> LayoutState {
    match spec_glyph_index(t) {
        Some(g) => match spec_glyph_metrics(metrics, atlas_width, atlas_height, g) {
            Some(m) => glyph_step(st, g, m),
            None => st,
        },
        None => if t.text == "newline()"@ {
            LayoutState {
                lines: spec_flush(st.lines, st.current, st.align, canvas as int),
                current: Seq::empty(),
                x: 0,
                ..st
            }
        } else if t.text == "align_left()"@ {
            LayoutState { align: Align::Left, ..st }
        } else if t.text == "align_center()"@ {
            LayoutState { align: Align::Center, ..st }
        } else if t.text == "align_right()"@ {
            LayoutState { align: Align::Right, ..st }
        } else {
            match spec_u16_argument(t.text, "advance_x(width=0x"@) {
                Some(ax) => LayoutState { x: st.x + ax, ..st },
                None => match spec_u16_argument(t.text, "advance_y(offset=0x"@) {
                    Some(ay) => {
                        let l = spec_flush(st.lines, st.current, st.align, canvas as int);
                        LayoutState {
                            lines: if ay > 0 {
                                l.push(SpecLine { items: Seq::empty(), forced_height: Some(ay as int) })
                            } else {
                                l
                            },
                            current: Seq::empty(),
                            x: 0,
                            ..st
                        }
                    },
                    None => LayoutState { ignored: st.ignored.push(t.text), ..st },
                },
            }
        },
    }
}

/// The layout state after the first `n` tokens.
pub open spec fn layout_upto(
    ts: Seq<SpecMsbToken>,
    n: int,
    metrics: Seq<GlyphMetrics>,
    atlas_width: u32,
    atlas_height: u32,
    canvas: u32,
) -> LayoutState
    decreases n,
{
    if n <= 0 {
        initial_state()
    } else {
        layout_step(layout_upto(ts, n - 1, metrics, atlas_width, atlas_height, canvas), ts[n - 1], metrics, atlas_width, atlas_height, canvas)
    }
}

// ── geometry ──

pub open spec fn min_y(items: Seq<SpecItem>) -> int
    decreases items.len(),
{
    if items.len() <= 1 {
        if items.len() == 1 {
            items[0].y
        } else {
            0
        }
    } else {
        imin(min_y(items.drop_last()), items.last().y)
    }
}

pub open spec fn max_bottom(items: Seq<SpecItem>) -> int
    decreases items.len(),
{
    if items.len() <= 1 {
        if items.len() == 1 {
            items[0].y + items[0].height
        } else {
            0
        }
    } else {
        imax(max_bottom(items.drop_last()), items.last().y + items.last().height)
    }
}

/// A forced height (at least one), 32 for an empty line, else the span of
/// its glyphs (at least 32).
pub open spec fn line_height(l: SpecLine) -> int {
    match l.forced_height {
        Some(h) => imax(h, 1),
        None => if l.items.len() == 0 {
            32
        } else {
            imax(max_bottom(l.items) - min_y(l.items), 32)
        },
    }
}

/// Where line `j` starts: sixteen pixels of margin, then each earlier line
/// and a sixteen-pixel gap.
pub open spec fn line_top(lines: Seq<SpecLine>, j: int) -> int
    decreases j,
{
    if j <= 0 {
        16
    } else {
        line_top(lines, j - 1) + line_height(lines[j - 1]) + 16
    }
}

/// The widest line that has glyphs.
pub open spec fn used_width(lines: Seq<SpecLine>) -> int
    decreases lines.len(),
{
    if lines.len() == 0 {
        0
    } else {
        let l = lines.last();
        if l.items.len() == 0 {
            used_width(lines.drop_last())
        } else {
            imax(used_width(lines.drop_last()), line_width(l.items))
        }
    }
}

pub open spec fn sum_heights(lines: Seq<SpecLine>) -> int
    decreases lines.len(),
{
    if lines.len() == 0 {
        0
    } else {
        sum_heights(lines.drop_last()) + line_height(lines.last())
    }
}

/// A glyph to draw, and where its top-left corner goes on the canvas.
#[derive(Clone, Copy, Debug)]
pub struct GlyphPlacement {
    pub glyph: usize,
    pub x: i64,
    pub y: i64,
}

pub open spec fn placement_view(p: GlyphPlacement) -> (int, int, int) {
    (p.glyph as int, p.x as int, p.y as int)
}

/// The glyphs of line `j`, in order, placed on the canvas: sixteen pixels
/// in, and aligned to the line's highest glyph.
pub open spec fn line_placements(lines: Seq<SpecLine>, j: int) -> Seq<(int, int, int)> {
    let items = lines[j].items;
    items.map_values(|it: SpecItem| (it.glyph, it.x + 16, line_top(lines, j) + it.y - min_y(items)))
}

/// The glyphs of the first `n` lines.
pub open spec fn placements_upto(lines: Seq<SpecLine>, n: int) -> Seq<(int, int, int)>
    decreases n,
{
    if n <= 0 {
        Seq::empty()
    } else {
        placements_upto(lines, n - 1) + line_placements(lines, n - 1)
    }
}

// ── bounds ──

pub open spec fn item_ok(it: SpecItem, xmax: int) -> bool {
    &&& -32768 <= it.x <= xmax
    &&& -32768 <= it.y <= 32767
    &&& 1 <= it.width <= 32767
    &&& 1 <= it.height <= 32767
    &&& 0 <= it.glyph < 0x8000_0000
}

pub open spec fn items_ok(items: Seq<SpecItem>, xmax: int) -> bool {
    forall|i: int| 0 <= i < items.len() ==> item_ok(#[trigger] items[i], xmax)
}

pub open spec fn line_ok(l: SpecLine, xmax: int) -> bool {
    &&& items_ok(l.items, xmax)
    &&& match l.forced_height {
        Some(h) => 1 <= h <= 65535,
        None => true,
    }
}

pub open spec fn lines_ok(lines: Seq<SpecLine>, xmax: int) -> bool {
    forall|j: int| 0 <= j < lines.len() ==> line_ok(#[trigger] lines[j], xmax)
}

/// The bounds every value of the layout keeps after `n` tokens.
pub open spec fn state_ok(st: LayoutState, n: int, canvas: int) -> bool {
    &&& 0 <= st.x <= 65536 * n
    &&& items_ok(st.current, 65536 * n + 32767)
    &&& lines_ok(st.lines, 65536 * n + 32767 + canvas)
    &&& st.lines.len() <= 2 * n
}

proof fn lemma_line_width_bounds(items: Seq<SpecItem>, xmax: int)
    requires
        items_ok(items, xmax),
    ensures
        0 <= line_width(items) <= imax(xmax + 32767, 0),
    decreases items.len(),
{
    if items.len() > 0 {
        assert(items_ok(items.drop_last(), xmax)) by {
            assert forall|i: int| 0 <= i < items.drop_last().len() implies item_ok(#[trigger] items.drop_last()[i], xmax) by {
                assert(items.drop_last()[i] == items[i]);
            }
        }
        lemma_line_width_bounds(items.drop_last(), xmax);
        assert(item_ok(items[items.len() - 1], xmax));
    }
}

proof fn lemma_flush_ok(lines: Seq<SpecLine>, current: Seq<SpecItem>, align: Align, canvas: int, xmax: int)
    requires
        0 <= canvas,
        lines_ok(lines, xmax + canvas),
        items_ok(current, xmax),
    ensures
        lines_ok(spec_flush(lines, current, align, canvas), xmax + canvas),
        spec_flush(lines, current, align, canvas).len() == lines.len() + 1,
{
    let f = spec_flush(lines, current, align, canvas);
    if current.len() > 0 {
        lemma_line_width_bounds(current, xmax);
        let d = align_shift(align, line_width(current), canvas);
        assert(0 <= d <= canvas);
        let sh = shifted(current, d);
        assert forall|i: int| 0 <= i < sh.len() implies item_ok(#[trigger] sh[i], xmax + canvas) by {
            assert(item_ok(current[i], xmax));
        }
    }
    assert forall|j: int| 0 <= j < f.len() implies line_ok(#[trigger] f[j], xmax + canvas) by {
        if j < lines.len() {
            assert(f[j] == lines[j]);
        }
    }
}

proof fn lemma_items_ok_weaken(items: Seq<SpecItem>, a: int, b: int)
    requires
        items_ok(items, a),
        a <= b,
    ensures
        items_ok(items, b),
{
}

proof fn lemma_lines_ok_weaken(lines: Seq<SpecLine>, a: int, b: int)
    requires
        lines_ok(lines, a),
        a <= b,
    ensures
        lines_ok(lines, b),
{
    assert forall|j: int| 0 <= j < lines.len() implies line_ok(#[trigger] lines[j], b) by {
        assert(line_ok(lines[j], a));
        assert forall|i: int| 0 <= i < lines[j].items.len() implies item_ok(#[trigger] lines[j].items[i], b) by {
            assert(item_ok(lines[j].items[i], a));
        }
    }
}

/// Every state of the fold keeps the bounds.
proof fn lemma_layout_ok(
    ts: Seq<SpecMsbToken>,
    n: int,
    metrics: Seq<GlyphMetrics>,
    atlas_width: u32,
    atlas_height: u32,
    canvas: u32,
)
    requires
        0 <= n <= ts.len(),
    ensures
        state_ok(layout_upto(ts, n, metrics, atlas_width, atlas_height, canvas), n, canvas as int),
    decreases n,
{
    if n > 0 {
        lemma_layout_ok(ts, n - 1, metrics, atlas_width, atlas_height, canvas);
        let st = layout_upto(ts, n - 1, metrics, atlas_width, atlas_height, canvas);
        let nx = layout_upto(ts, n, metrics, atlas_width, atlas_height, canvas);
        let t = ts[n - 1];
        let xm0 = 65536 * (n - 1) + 32767;
        let xm1 = 65536 * n + 32767;
        lemma_items_ok_weaken(st.current, xm0, xm1);
        lemma_lines_ok_weaken(st.lines, xm0 + canvas, xm1 + canvas);
        match spec_glyph_index(t) {
            Some(g) => match spec_glyph_metrics(metrics, atlas_width, atlas_height, g) {
                Some(m) => {
                    assert forall|i: int| 0 <= i < nx.current.len() implies item_ok(#[trigger] nx.current[i], xm1) by {
                        if i < st.current.len() {
                            assert(nx.current[i] == st.current[i]);
                        }
                    }
                },
                None => {},
            },
            None => {
                if t.text == "newline()"@ {
                    lemma_flush_ok(st.lines, st.current, st.align, canvas as int, xm1);
                } else if t.text == "align_left()"@ || t.text == "align_center()"@ || t.text == "align_right()"@ {
                } else {
                    match spec_u16_argument(t.text, "advance_x(width=0x"@) {
                        Some(ax) => {},
                        None => match spec_u16_argument(t.text, "advance_y(offset=0x"@) {
                            Some(ay) => {
                                lemma_flush_ok(st.lines, st.current, st.align, canvas as int, xm1);
                                let l = spec_flush(st.lines, st.current, st.align, canvas as int);
                                if ay > 0 {
                                    let l2 = l.push(SpecLine { items: Seq::empty(), forced_height: Some(ay as int) });
                                    assert forall|j: int| 0 <= j < l2.len() implies line_ok(#[trigger] l2[j], xm1 + canvas) by {
                                        if j < l.len() {
                                            assert(l2[j] == l[j]);
                                        }
                                    }
                                }
                            },
                            None => {},
                        },
                    }
                }
            },
        }
    }
}

proof fn lemma_items_prefix_ok(items: Seq<SpecItem>, xmax: int, k: int)
    requires
        items_ok(items, xmax),
        0 <= k <= items.len(),
    ensures
        items_ok(items.take(k), xmax),
{
    assert forall|i: int| 0 <= i < items.take(k).len() implies item_ok(#[trigger] items.take(k)[i], xmax) by {
        assert(items.take(k)[i] == items[i]);
    }
}

proof fn lemma_y_bounds(items: Seq<SpecItem>, xmax: int)
    requires
        items_ok(items, xmax),
        items.len() > 0,
    ensures
        -32768 <= min_y(items) <= 32767,
        -32767 <= max_bottom(items) <= 65534,
    decreases items.len(),
{
    assert(item_ok(items[items.len() - 1], xmax));
    assert(item_ok(items[0], xmax));
    if items.len() > 1 {
        lemma_items_prefix_ok(items, xmax, items.len() - 1);
        assert(items.take(items.len() - 1) =~= items.drop_last());
        lemma_y_bounds(items.drop_last(), xmax);
    }
}

proof fn lemma_line_height_bounds(l: SpecLine, xmax: int)
    requires
        line_ok(l, xmax),
    ensures
        1 <= line_height(l) <= 98302,
{
    if l.forced_height is None && l.items.len() > 0 {
        lemma_y_bounds(l.items, xmax);
    }
}

proof fn lemma_line_top_bounds(lines: Seq<SpecLine>, xmax: int, j: int)
    requires
        lines_ok(lines, xmax),
        0 <= j <= lines.len(),
    ensures
        16 <= line_top(lines, j) <= 16 + 98318 * j,
    decreases j,
{
    if j > 0 {
        lemma_line_top_bounds(lines, xmax, j - 1);
        assert(line_ok(lines[j - 1], xmax));
        lemma_line_height_bounds(lines[j - 1], xmax);
    }
}

proof fn lemma_lines_prefix_ok(lines: Seq<SpecLine>, xmax: int, k: int)
    requires
        lines_ok(lines, xmax),
        0 <= k <= lines.len(),
    ensures
        lines_ok(lines.take(k), xmax),
{
    assert forall|j: int| 0 <= j < lines.take(k).len() implies line_ok(#[trigger] lines.take(k)[j], xmax) by {
        assert(lines.take(k)[j] == lines[j]);
    }
}

proof fn lemma_sum_heights_bounds(lines: Seq<SpecLine>, xmax: int)
    requires
        lines_ok(lines, xmax),
    ensures
        0 <= sum_heights(lines) <= 98302 * lines.len(),
    decreases lines.len(),
{
    if lines.len() > 0 {
        lemma_lines_prefix_ok(lines, xmax, lines.len() - 1);
        assert(lines.take(lines.len() - 1) =~= lines.drop_last());
        lemma_sum_heights_bounds(lines.drop_last(), xmax);
        assert(line_ok(lines[lines.len() - 1], xmax));
        lemma_line_height_bounds(lines.last(), xmax);
    }
}

proof fn lemma_used_width_bounds(lines: Seq<SpecLine>, xmax: int)
    requires
        lines_ok(lines, xmax),
    ensures
        0 <= used_width(lines) <= imax(xmax + 32767, 0),
    decreases lines.len(),
{
    if lines.len() > 0 {
        lemma_lines_prefix_ok(lines, xmax, lines.len() - 1);
        assert(lines.take(lines.len() - 1) =~= lines.drop_last());
        lemma_used_width_bounds(lines.drop_last(), xmax);
        assert(line_ok(lines[lines.len() - 1], xmax));
        lemma_line_width_bounds(lines.last().items, xmax);
    }
}

// ── exec ──

/// Positions reach at most this far right while a stream is laid out.
pub open spec fn x_limit() -> int {
    0x2_0000_0000_0000
}

fn line_width_of(items: &Vec<LayoutItem>) -> (r: i64)
    requires
        items_ok(items_view(items@), x_limit()),
    ensures
        r == line_width(items_view(items@)),
{
    let ghost s = items_view(items@);
    let mut w: i64 = 0;
    let mut k: usize = 0;
    proof {
        assert(s.take(0) =~= Seq::<SpecItem>::empty());
    }
    while k < items.len()
        invariant
            s == items_view(items@),
            items_ok(s, x_limit()),
            k <= items@.len(),
            w == line_width(s.take(k as int)),
            0 <= w <= x_limit() + 32767,
        decreases items@.len() - k,
    {
        proof {
            assert(s.take(k + 1).drop_last() =~= s.take(k as int));
            assert(item_ok(s[k as int], x_limit()));
        }
        let it = items[k];
        let right = it.x + it.width as i64;
        if right > w {
            w = right;
        }
        k = k + 1;
    }
    proof {
        assert(s.take(k as int) =~= s);
    }
    w
}

fn min_y_of(items: &Vec<LayoutItem>) -> (r: i64)
    requires
        items_ok(items_view(items@), x_limit()),
        items@.len() > 0,
    ensures
        r == min_y(items_view(items@)),
{
    let ghost s = items_view(items@);
    let mut m: i64 = items[0].y;
    let mut k: usize = 1;
    proof {
        assert(s.take(1).len() == 1);
        assert(item_ok(s[0], x_limit()));
    }
    while k < items.len()
        invariant
            s == items_view(items@),
            items_ok(s, x_limit()),
            1 <= k <= items@.len(),
            m == min_y(s.take(k as int)),
            -32768 <= m <= 32767,
        decreases items@.len() - k,
    {
        proof {
            assert(s.take(k + 1).drop_last() =~= s.take(k as int));
            assert(item_ok(s[k as int], x_limit()));
        }
        let y = items[k].y;
        if y < m {
            m = y;
        }
        k = k + 1;
    }
    proof {
        assert(s.take(k as int) =~= s);
    }
    m
}

fn max_bottom_of(items: &Vec<LayoutItem>) -> (r: i64)
    requires
        items_ok(items_view(items@), x_limit()),
        items@.len() > 0,
    ensures
        r == max_bottom(items_view(items@)),
{
    let ghost s = items_view(items@);
    proof {
        assert(s.take(1).len() == 1);
        assert(item_ok(s[0], x_limit()));
    }
    let mut m: i64 = items[0].y + items[0].height as i64;
    let mut k: usize = 1;
    while k < items.len()
        invariant
            s == items_view(items@),
            items_ok(s, x_limit()),
            1 <= k <= items@.len(),
            m == max_bottom(s.take(k as int)),
            -32767 <= m <= 65534,
        decreases items@.len() - k,
    {
        proof {
            assert(s.take(k + 1).drop_last() =~= s.take(k as int));
            assert(item_ok(s[k as int], x_limit()));
        }
        let b = items[k].y + items[k].height as i64;
        if b > m {
            m = b;
        }
        k = k + 1;
    }
    proof {
        assert(s.take(k as int) =~= s);
    }
    m
}

/// The height a line takes on the canvas.
fn get_line_height(line: &LineLayout) -> (r: u64)
    requires
        line_ok(line@, x_limit()),
    ensures
        r == line_height(line@),
{
    match line.forced_height {
        Some(h) => {
            if h < 1 {
                1
            } else {
                h as u64
            }
        },
        None => {
            if line.items.len() == 0 {
                32
            } else {
                proof {
                    lemma_y_bounds(line@.items, x_limit());
                }
                let span = max_bottom_of(&line.items) - min_y_of(&line.items);
                if span < 32 {
                    32
                } else {
                    span as u64
                }
            }
        },
    }
}

/// Ends the current line: its items move by the alignment's shift and
/// become a line; an empty current line becomes an empty line.
#[verifier::rlimit(40)]
#[verifier::spinoff_prover]
fn flush_line(lines: &mut Vec<LineLayout>, current: &mut Vec<LayoutItem>, align: Align, canvas_width: u32)
    requires
        items_ok(items_view(old(current)@), 0x1_0000_0000_0000),
    ensures
        lines_view(final(lines)@) == spec_flush(
            lines_view(old(lines)@),
            items_view(old(current)@),
            align,
            canvas_width as int,
        ),
        final(current)@.len() == 0,
{
    let ghost cur = items_view(current@);
    let ghost old_lines = lines_view(lines@);
    if current.len() == 0 {
        let empty: Vec<LayoutItem> = Vec::new();
        proof {
            assert(items_view(empty@) =~= Seq::<SpecItem>::empty());
        }
        lines.push(LineLayout { items: empty, forced_height: None });
        proof {
            assert(lines_view(lines@) =~= old_lines.push(SpecLine { items: Seq::empty(), forced_height: None }));
        }
        return;
    }
    proof {
        lemma_items_ok_weaken(cur, 0x1_0000_0000_0000, x_limit());
        lemma_line_width_bounds(cur, 0x1_0000_0000_0000);
    }
    let w = line_width_of(current);
    let cw = canvas_width as i64;
    let shift: i64 = match align {
        Align::Center => if w < cw {
            (cw - w) / 2
        } else {
            0
        },
        Align::Right => if w < cw {
            cw - w
        } else {
            0
        },
        Align::Left => 0,
    };
    assert(shift == align_shift(align, line_width(cur), canvas_width as int));
    let mut items: Vec<LayoutItem> = Vec::new();
    let mut k: usize = 0;
    while k < current.len()
        invariant
            cur == items_view(current@),
            items_ok(cur, 0x1_0000_0000_0000),
            0 <= shift <= u32::MAX,
            k <= current@.len(),
            items_view(items@) == shifted(cur, shift as int).take(k as int),
        decreases current@.len() - k,
    {
        proof {
            assert(item_ok(cur[k as int], 0x1_0000_0000_0000));
        }
        let it = current[k];
        let ghost before = items@;
        let moved = LayoutItem { x: it.x + shift, ..it };
        items.push(moved);
        proof {
            assert(items_view(before).len() == before.len());
            assert(shifted(cur, shift as int).len() == cur.len());
            assert(before.len() == k);
            assert(items@[k as int] == moved);
            assert(cur[k as int] == it@);
            assert(moved@ == SpecItem { x: cur[k as int].x + shift, ..cur[k as int] });
            assert(items_view(items@)[k as int] == shifted(cur, shift as int)[k as int]);
            assert(items_view(items@) =~= shifted(cur, shift as int).take(k + 1));
        }
        k = k + 1;
    }
    proof {
        assert(shifted(cur, shift as int).take(k as int) =~= shifted(cur, shift as int));
    }
    current.clear();
    lines.push(LineLayout { items, forced_height: None });
    proof {
        assert(lines_view(lines@) =~= spec_flush(old_lines, cur, align, canvas_width as int));
    }
}

/// A token stream laid out: its lines, every drawn glyph with its place on
/// the canvas, the size of the canvas the glyphs are drawn on, the size of
/// the picture cut from it, and the controls that were not rendered.
pub struct TextLayout {
    pub lines: Vec<LineLayout>,
    pub placements: Vec<GlyphPlacement>,
    pub width: u64,
    pub height: u64,
    pub canvas_width: u64,
    pub canvas_height: u64,
    pub line_count: usize,
    pub unsupported_controls: Vec<String>,
}

pub open spec fn placements_view(v: Seq<GlyphPlacement>) -> Seq<(int, int, int)> {
    v.map_values(|p: GlyphPlacement| placement_view(p))
}

/// The state after the whole stream.
pub open spec fn layout_all(
    ts: Seq<SpecMsbToken>,
    metrics: Seq<GlyphMetrics>,
    atlas_width: u32,
    atlas_height: u32,
    canvas: u32,
) -> LayoutState {
    layout_upto(ts, ts.len() as int, metrics, atlas_width, atlas_height, canvas)
}

/// The lines of the whole stream, the last one ended.
pub open spec fn layout_lines(
    ts: Seq<SpecMsbToken>,
    metrics: Seq<GlyphMetrics>,
    atlas_width: u32,
    atlas_height: u32,
    canvas: u32,
) -> Seq<SpecLine> {
    let st = layout_all(ts, metrics, atlas_width, atlas_height, canvas);
    spec_flush(st.lines, st.current, st.align, canvas as int)
}

/// What the layout of a stream is, given its lines.
pub open spec fn is_text_layout(
    l: TextLayout,
    ts: Seq<SpecMsbToken>,
    metrics: Seq<GlyphMetrics>,
    atlas_width: u32,
    atlas_height: u32,
    canvas: u32,
) -> bool {
    let lines = layout_lines(ts, metrics, atlas_width, atlas_height, canvas);
    &&& lines_view(l.lines@) == lines
    &&& l.line_count == lines.len()
    &&& placements_view(l.placements@) == placements_upto(lines, lines.len() as int)
    &&& l.width == imax(used_width(lines), 1) + 32
    &&& l.height == line_top(lines, lines.len() as int)
    &&& l.canvas_width == imax(canvas as int, used_width(lines)) + 32
    &&& l.canvas_height == sum_heights(lines) + 16 * (lines.len() + 1)
    &&& is_control_summary(layout_all(ts, metrics, atlas_width, atlas_height, canvas).ignored, strings_view(l.unsupported_controls@))
}

/// Lays out a token stream on a canvas `canvas_width` wide: `None` for an
/// empty stream.
#[verifier::rlimit(40)]
#[verifier::spinoff_prover]
pub fn render_token_stream(
    tokens: &[MsbToken],
    metrics: &[GlyphMetrics],
    atlas_width: u32,
    atlas_height: u32,
    canvas_width: u32,
) -> (r: Option<TextLayout>)
    requires
        tokens@.len() <= u32::MAX,
    ensures
        r is None <==> tokens@.len() == 0,
        r matches Some(l) ==> is_text_layout(l, tokens_view(tokens@), metrics@, atlas_width, atlas_height, canvas_width),
{
    if tokens.len() == 0 {
        return None;
    }
    let ghost ts = tokens_view(tokens@);
    let mut lines: Vec<LineLayout> = Vec::new();
    let mut current: Vec<LayoutItem> = Vec::new();
    let mut align = Align::Left;
    let mut x: i64 = 0;
    let mut ignored: Vec<String> = Vec::new();
    let mut i: usize = 0;
    proof {
        assert(lines_view(lines@) =~= Seq::<SpecLine>::empty());
        assert(items_view(current@) =~= Seq::<SpecItem>::empty());
        assert(strings_view(ignored@) =~= Seq::<Seq<char>>::empty());
        reveal_strlit("advance_x(width=0x");
        reveal_strlit("advance_y(offset=0x");
    }
    while i < tokens.len()
        invariant
            ts == tokens_view(tokens@),
            tokens@.len() <= u32::MAX,
            i <= tokens@.len(),
            "advance_x(width=0x"@.last() != ')',
            "advance_y(offset=0x"@.last() != ')',
            "advance_x(width=0x"@.len() > 0,
            "advance_y(offset=0x"@.len() > 0,
            lines_view(lines@) == layout_upto(ts, i as int, metrics@, atlas_width, atlas_height, canvas_width).lines,
            items_view(current@) == layout_upto(ts, i as int, metrics@, atlas_width, atlas_height, canvas_width).current,
            align == layout_upto(ts, i as int, metrics@, atlas_width, atlas_height, canvas_width).align,
            x == layout_upto(ts, i as int, metrics@, atlas_width, atlas_height, canvas_width).x,
            strings_view(ignored@) == layout_upto(ts, i as int, metrics@, atlas_width, atlas_height, canvas_width).ignored,
        decreases tokens@.len() - i,
    {
        let ghost st = layout_upto(ts, i as int, metrics@, atlas_width, atlas_height, canvas_width);
        proof {
            lemma_layout_ok(ts, i as int, metrics@, atlas_width, atlas_height, canvas_width);
            assert(ts[i as int] == tokens@[i as int]@);
            lemma_items_ok_weaken(st.current, 65536 * i + 32767, 0x1_0000_0000_0000);
        }
        let t = &tokens[i];
        match try_parse_glyph_index(t) {
            Some(g) => {
                match glyph_metrics_for(metrics, atlas_width, atlas_height, g) {
                    Some(m) => {
                        if m.width > 0 && m.height > 0 {
                            let it = LayoutItem {
                                x: x + m.x_offset as i64,
                                y: m.y_offset as i64,
                                width: m.width as u32,
                                height: m.height as u32,
                                glyph: g,
                            };
                            current.push(it);
                            proof {
                                assert(items_view(current@) =~= st.current.push(it@));
                            }
                        }
                        let adv: i64 = if m.advance_x > 0 {
                            m.advance_x as i64
                        } else {
                            m.width as i64
                        };
                        if adv > 0 {
                            x = x + adv;
                        }
                    },
                    None => {},
                }
            },
            None => {
                let text = t.text.as_str();
                if str_eq(text, "newline()") {
                    flush_line(&mut lines, &mut current, align, canvas_width);
                    x = 0;
                    proof {
                        assert(items_view(current@) =~= Seq::<SpecItem>::empty());
                    }
                } else if str_eq(text, "align_left()") {
                    align = Align::Left;
                } else if str_eq(text, "align_center()") {
                    align = Align::Center;
                } else if str_eq(text, "align_right()") {
                    align = Align::Right;
                } else {
                    proof {
                        lemma_argument_prefix(text@, "advance_x(width=0x"@);
                        lemma_argument_prefix(text@, "advance_y(offset=0x"@);
                    }
                    match try_parse_u16_argument(text, "advance_x(width=0x") {
                        Some(ax) => {
                            x = x + ax as i64;
                        },
                        None => match try_parse_u16_argument(text, "advance_y(offset=0x") {
                            Some(ay) => {
                                flush_line(&mut lines, &mut current, align, canvas_width);
                                let ghost flushed = lines_view(lines@);
                                if ay > 0 {
                                    let empty: Vec<LayoutItem> = Vec::new();
                                    proof {
                                        assert(items_view(empty@) =~= Seq::<SpecItem>::empty());
                                    }
                                    lines.push(LineLayout { items: empty, forced_height: Some(ay as u32) });
                                    proof {
                                        assert(lines_view(lines@) =~= flushed.push(
                                            SpecLine { items: Seq::empty(), forced_height: Some(ay as int) },
                                        ));
                                    }
                                }
                                x = 0;
                                proof {
                                    assert(items_view(current@) =~= Seq::<SpecItem>::empty());
                                }
                            },
                            None => {
                                ignored.push(t.text.clone());
                                proof {
                                    assert(strings_view(ignored@) =~= st.ignored.push(t.text@));
                                }
                            },
                        },
                    }
                }
            },
        }
        i = i + 1;
    }
    let ghost st = layout_all(ts, metrics@, atlas_width, atlas_height, canvas_width);
    proof {
        lemma_layout_ok(ts, i as int, metrics@, atlas_width, atlas_height, canvas_width);
        lemma_items_ok_weaken(st.current, 65536 * i + 32767, 0x1_0000_0000_0000);
        lemma_flush_ok(st.lines, st.current, st.align, canvas_width as int, 65536 * i + 32767);
    }
    flush_line(&mut lines, &mut current, align, canvas_width);
    let ghost lv = lines_view(lines@);
    proof {
        lemma_lines_ok_weaken(lv, 65536 * i + 32767 + canvas_width, x_limit());
    }
    let mut used: i64 = 0;
    let mut total: u64 = 0;
    let mut y: i64 = 16;
    let mut placements: Vec<GlyphPlacement> = Vec::new();
    let mut idx: usize = 0;
    proof {
        assert(lv.take(0) =~= Seq::<SpecLine>::empty());
        assert(placements_view(placements@) =~= Seq::<(int, int, int)>::empty());
    }
    while idx < lines.len()
        invariant
            lv == lines_view(lines@),
            lines_ok(lv, x_limit()),
            lv.len() <= 2 * u32::MAX + 1,
            idx <= lv.len(),
            used == used_width(lv.take(idx as int)),
            total == sum_heights(lv.take(idx as int)),
            y == line_top(lv, idx as int),
            placements_view(placements@) == placements_upto(lv, idx as int),
        decreases lv.len() - idx,
    {
        proof {
            assert(lv.take(idx + 1).drop_last() =~= lv.take(idx as int));
            assert(lv.take(idx + 1).last() == lv[idx as int]);
            assert(line_ok(lv[idx as int], x_limit()));
            assert(lv[idx as int] == lines@[idx as int]@);
            lemma_lines_prefix_ok(lv, x_limit(), idx as int);
            lemma_used_width_bounds(lv.take(idx as int), x_limit());
            lemma_sum_heights_bounds(lv.take(idx as int), x_limit());
            lemma_line_top_bounds(lv, x_limit(), idx as int);
            lemma_line_height_bounds(lv[idx as int], x_limit());
        }
        let line = &lines[idx];
        let h = get_line_height(line);
        let ghost before = placements_view(placements@);
        let ghost lp = line_placements(lv, idx as int);
        if line.items.len() > 0 {
            let w = line_width_of(&line.items);
            if w > used {
                used = w;
            }
            let my = min_y_of(&line.items);
            let mut k: usize = 0;
            proof {
                lemma_y_bounds(line@.items, x_limit());
                assert(lp.take(0) =~= Seq::<(int, int, int)>::empty());
                assert(before + lp.take(0) =~= before);
            }
            while k < line.items.len()
                invariant
                    lv == lines_view(lines@),
                    idx < lv.len(),
                    line == &lines@[idx as int],
                    lv[idx as int] == line@,
                    items_ok(line@.items, x_limit()),
                    lp == line_placements(lv, idx as int),
                    my == min_y(line@.items),
                    -32768 <= my <= 32767,
                    y == line_top(lv, idx as int),
                    16 <= y <= 16 + 98318 * (2 * u32::MAX + 1),
                    k <= line.items@.len(),
                    placements_view(placements@) == before + lp.take(k as int),
                decreases line.items@.len() - k,
            {
                proof {
                    assert(item_ok(line@.items[k as int], x_limit()));
                    assert(line@.items[k as int] == line.items@[k as int]@);
                }
                let it = line.items[k];
                let pl = GlyphPlacement { glyph: it.glyph, x: it.x + 16, y: y + (it.y - my) };
                let ghost prev = placements@;
                placements.push(pl);
                proof {
                    assert(placements_view(prev).len() == prev.len());
                    assert(placements_view(placements@)[prev.len() as int] == placement_view(pl));
                    assert(placement_view(pl) == lp[k as int]);
                    assert forall|j: int| 0 <= j < placements_view(placements@).len() implies placements_view(
                        placements@,
                    )[j] == (before + lp.take(k + 1))[j] by {
                        if j < prev.len() {
                            assert(placements_view(placements@)[j] == placements_view(prev)[j]);
                        }
                    }
                    assert(placements_view(placements@) =~= before + lp.take(k + 1));
                }
                k = k + 1;
            }
            proof {
                assert(lp.take(k as int) =~= lp);
            }
        } else {
            proof {
                assert(lp =~= Seq::<(int, int, int)>::empty());
                assert(before + lp =~= before);
            }
        }
        total = total + h;
        y = y + h as i64 + 16;
        idx = idx + 1;
    }
    proof {
        assert(lv.take(idx as int) =~= lv);
        lemma_sum_heights_bounds(lv, x_limit());
        lemma_used_width_bounds(lv, x_limit());
        lemma_line_top_bounds(lv, x_limit(), lv.len() as int);
    }
    let width: u64 = if used < 1 {
        33
    } else {
        used as u64 + 32
    };
    let canvas_w: u64 = if (canvas_width as i64) < used {
        used as u64 + 32
    } else {
        canvas_width as u64 + 32
    };
    let n = lines.len();
    let canvas_h: u64 = total + 16 * (n as u64 + 1);
    let unsupported = build_unsupported_control_list(&ignored);
    proof {
        assert(ts.len() == tokens@.len());
        assert(lv == layout_lines(ts, metrics@, atlas_width, atlas_height, canvas_width));
        assert(strings_view(ignored@) == st.ignored);
        assert(width == imax(used_width(lv), 1) + 32);
        assert(canvas_w == imax(canvas_width as int, used_width(lv)) + 32);
        assert(canvas_h == sum_heights(lv) + 16 * (lv.len() + 1));
        assert(y == line_top(lv, lv.len() as int));
    }
    Some(
        TextLayout {
            lines,
            placements,
            width,
            height: y as u64,
            canvas_width: canvas_w,
            canvas_height: canvas_h,
            line_count: n,
            unsupported_controls: unsupported,
        },
    )
}

/// The unrendered controls of a block, none when there is no block.
pub open spec fn controls_of(b: Option<TextLayout>) -> Seq<Seq<char>> {
    match b {
        Some(l) => strings_view(l.unsupported_controls@),
        None => Seq::empty(),
    }
}

fn append_strings(out: &mut Vec<String>, more: &Vec<String>)
    ensures
        strings_view(final(out)@) == strings_view(old(out)@) + strings_view(more@),
{
    let ghost start = strings_view(out@);
    let mut k: usize = 0;
    proof {
        assert(strings_view(more@).take(0) =~= Seq::<Seq<char>>::empty());
        assert(start + strings_view(more@).take(0) =~= start);
    }
    while k < more.len()
        invariant
            k <= more@.len(),
            strings_view(out@) == start + strings_view(more@).take(k as int),
        decreases more@.len() - k,
    {
        let ghost prev = out@;
        out.push(more[k].clone());
        proof {
            assert(strings_view(out@) =~= strings_view(prev).push(more@[k as int]@));
            assert(strings_view(more@).take(k + 1) =~= strings_view(more@).take(k as int).push(more@[k as int]@));
            assert(strings_view(out@) =~= start + strings_view(more@).take(k + 1));
        }
        k = k + 1;
    }
    proof {
        assert(strings_view(more@).take(k as int) =~= strings_view(more@));
    }
}

/// Lays out a message: its name and its body, each `None` when it has no
/// tokens, and the controls left unrendered, the name's first.
pub fn render_entry(
    entry: &MsbEntry,
    metrics: &[GlyphMetrics],
    atlas_width: u32,
    atlas_height: u32,
    canvas_width: u32,
) -> (r: (Option<TextLayout>, Option<TextLayout>, Vec<String>))
    requires
        entry_fits(entry@),
        entry@.data.len() < u32::MAX,
    ensures
        ({
            let parts = split_from(spec_entry_tokens(entry@), 0, false);
            &&& (r.0 is None <==> parts.0.len() == 0)
            &&& (r.0 matches Some(l) ==> is_text_layout(l, parts.0, metrics@, atlas_width, atlas_height, canvas_width))
            &&& (r.1 is None <==> parts.1.len() == 0)
            &&& (r.1 matches Some(l) ==> is_text_layout(l, parts.1, metrics@, atlas_width, atlas_height, canvas_width))
            &&& strings_view(r.2@) == controls_of(r.0) + controls_of(r.1)
        }),
{
    let (name_tokens, body_tokens) = split_entry_sections(entry);
    proof {
        let ts = spec_entry_tokens(entry@);
        lemma_entry_tokens_len(entry@.data, 0, entry@.abs_start as int);
        lemma_split_len(ts, 0, false);
        assert(tokens_view(name_tokens@).len() == name_tokens@.len());
        assert(tokens_view(body_tokens@).len() == body_tokens@.len());
    }
    let name_block = render_token_stream(name_tokens.as_slice(), metrics, atlas_width, atlas_height, canvas_width);
    let body_block = render_token_stream(body_tokens.as_slice(), metrics, atlas_width, atlas_height, canvas_width);
    let mut ignored: Vec<String> = Vec::new();
    proof {
        assert(strings_view(ignored@) =~= Seq::<Seq<char>>::empty());
    }
    match &name_block {
        Some(nb) => append_strings(&mut ignored, &nb.unsupported_controls),
        None => {},
    }
    match &body_block {
        Some(bb) => append_strings(&mut ignored, &bb.unsupported_controls),
        None => {},
    }
    proof {
        assert(strings_view(ignored@) =~= controls_of(name_block) + controls_of(body_block));
    }
    (name_block, body_block, ignored)
}

/// How the name and body pictures stack: the picture's size and the top
/// of each present block, with sixteen pixels between them.
pub struct StackLayout {
    pub width: u32,
    pub height: u32,
    pub offsets: Vec<u32>,
}

pub open spec fn block_fits(b: Option<&TextLayout>) -> bool {
    match b {
        Some(l) => l.width <= u32::MAX && l.height <= u32::MAX,
        None => true,
    }
}

/// The picture of a message: the name block above the body block, as wide
/// as the wider; a single pixel when there is neither.
pub fn stack_blocks(name_block: Option<&TextLayout>, body_block: Option<&TextLayout>) -> (r: StackLayout)
    requires
        block_fits(name_block),
        block_fits(body_block),
        name_block is Some && body_block is Some ==> name_block.unwrap().height + body_block.unwrap().height + 16
            <= u32::MAX,
    ensures
        match (name_block, body_block) {
            (None, None) => r.width == 1 && r.height == 1 && r.offsets@.len() == 0,
            (Some(a), None) => r.width == a.width && r.height == a.height && r.offsets@ == seq![0u32],
            (None, Some(b)) => r.width == b.width && r.height == b.height && r.offsets@ == seq![0u32],
            (Some(a), Some(b)) => {
                &&& r.width == imax(a.width as int, b.width as int)
                &&& r.height == a.height + b.height + 16
                &&& r.offsets@ == seq![0u32, (a.height + 16) as u32]
            },
        },
{
    match (name_block, body_block) {
        (None, None) => StackLayout { width: 1, height: 1, offsets: Vec::new() },
        (Some(a), None) => {
            let mut offsets: Vec<u32> = Vec::new();
            offsets.push(0);
            StackLayout { width: a.width as u32, height: a.height as u32, offsets }
        },
        (None, Some(b)) => {
            let mut offsets: Vec<u32> = Vec::new();
            offsets.push(0);
            StackLayout { width: b.width as u32, height: b.height as u32, offsets }
        },
        (Some(a), Some(b)) => {
            let width = if a.width >= b.width {
                a.width as u32
            } else {
                b.width as u32
            };
            let mut offsets: Vec<u32> = Vec::new();
            offsets.push(0);
            offsets.push((a.height + 16) as u32);
            StackLayout { width, height: (a.height + b.height + 16) as u32, offsets }
        },
    }
}

proof fn lemma_line_top_sum(lines: Seq<SpecLine>, j: int)
    requires
        0 <= j <= lines.len(),
    ensures
        line_top(lines, j) == sum_heights(lines.take(j)) + 16 * (j + 1),
    decreases j,
{
    if j > 0 {
        lemma_line_top_sum(lines, j - 1);
        assert(lines.take(j).drop_last() =~= lines.take(j - 1));
    }
}

/// The picture cut from the canvas is exactly as tall as the canvas: the
/// top margin, each line, and a sixteen-pixel gap after each.
pub proof fn lemma_layout_height(
    ts: Seq<SpecMsbToken>,
    metrics: Seq<GlyphMetrics>,
    atlas_width: u32,
    atlas_height: u32,
    canvas: u32,
)
    ensures
        ({
            let lines = layout_lines(ts, metrics, atlas_width, atlas_height, canvas);
            line_top(lines, lines.len() as int) == sum_heights(lines) + 16 * (lines.len() + 1)
        }),
{
    let lines = layout_lines(ts, metrics, atlas_width, atlas_height, canvas);
    lemma_line_top_sum(lines, lines.len() as int);
    assert(lines.take(lines.len() as int) =~= lines);
}

/// The picture is never narrower than its widest line, with the margin.
pub proof fn lemma_layout_width_covers_lines(
    ts: Seq<SpecMsbToken>,
    metrics: Seq<GlyphMetrics>,
    atlas_width: u32,
    atlas_height: u32,
    canvas: u32,
    j: int,
)
    requires
        0 <= j < layout_lines(ts, metrics, atlas_width, atlas_height, canvas).len(),
    ensures
        ({
            let lines = layout_lines(ts, metrics, atlas_width, atlas_height, canvas);
            line_width(lines[j].items) + 32 <= imax(used_width(lines), 1) + 32
        }),
{
    let lines = layout_lines(ts, metrics, atlas_width, atlas_height, canvas);
    lemma_used_width_covers(lines, j);
}

proof fn lemma_used_width_covers(lines: Seq<SpecLine>, j: int)
    requires
        0 <= j < lines.len(),
    ensures
        line_width(lines[j].items) <= imax(used_width(lines), 1),
    decreases lines.len(),
{
    if lines[j].items.len() == 0 {
        assert(line_width(lines[j].items) == 0);
        lemma_used_width_nonneg(lines);
    } else if j == lines.len() - 1 {
        lemma_used_width_nonneg(lines.drop_last());
    } else {
        assert(lines.drop_last()[j] == lines[j]);
        lemma_used_width_covers(lines.drop_last(), j);
        lemma_used_width_nonneg(lines.drop_last());
    }
}

proof fn lemma_used_width_nonneg(lines: Seq<SpecLine>)
    ensures
        used_width(lines) >= 0,
    decreases lines.len(),
{
    if lines.len() > 0 {
        lemma_used_width_nonneg(lines.drop_last());
    }
}


proof fn lemma_min_y_le(items: Seq<SpecItem>, i: int)
    requires
        0 <= i < items.len(),
    ensures
        min_y(items) <= items[i].y,
        items[i].y + items[i].height <= max_bottom(items),
    decreases items.len(),
{
    if items.len() > 1 && i < items.len() - 1 {
        lemma_min_y_le(items.drop_last(), i);
        assert(items.drop_last()[i] == items[i]);
    }
}

/// Lines without a forced height do not overlap: every glyph of such a
/// line ends, with the sixteen-pixel gap below it, at or above every glyph
/// of the next line.
pub proof fn lemma_lines_do_not_overlap(lines: Seq<SpecLine>, j: int, a: int, b: int)
    requires
        0 <= j,
        j + 1 < lines.len(),
        lines[j].forced_height is None,
        0 <= a < lines[j].items.len(),
        0 <= b < lines[j + 1].items.len(),
    ensures
        line_placements(lines, j)[a].2 + lines[j].items[a].height + 16 <= line_placements(lines, j + 1)[b].2,
{
    lemma_min_y_le(lines[j].items, a);
    lemma_min_y_le(lines[j + 1].items, b);
    assert(line_top(lines, j + 1) == line_top(lines, j) + line_height(lines[j]) + 16);
}

} // verus!
