//! The layout engine: turns a measured document and a target rectangle
//! into an ordered list of draw commands.
//!
//! The text block is vertically centered as a whole; within a line,
//! runs are packed left or right by cumulative cursors (or centered,
//! ignoring the cursors), and every run sits on the line's shared
//! baseline.  Right-aligned runs are drawn before the rest, in reverse
//! document order, so the rightmost-appearing one claims the outermost
//! slot.

use vstd::prelude::*;

use crate::color::Rgba;
use crate::content::{spec_content_height, Content, ContentV};
use crate::line::{spec_line_height, LineInfo, LineInfoV, HALF_HALVES, LINE_SPACING_HALVES};
use crate::text::{Alignment, Text, TextV};

verus! {

/// An axis-aligned rectangle in canvas coordinates.
#[derive(PartialEq, Eq, Structural, Debug, Copy, Clone)]
pub struct Rect {
    pub left: i64,
    pub top: i64,
    pub width: u32,
    pub height: u32,
}

#[verifier::ext_equal]
pub struct RectV {
    pub left: int,
    pub top: int,
    pub width: int,
    pub height: int,
}

impl View for Rect {
    type V = RectV;

    open spec fn view(&self) -> RectV {
        RectV {
            left: self.left as int,
            top: self.top as int,
            width: self.width as int,
            height: self.height as int,
        }
    }
}

/// One drawing command against the canvas sink.
#[derive(Debug, PartialEq)]
pub enum DrawCmd {
    /// A filled rectangle (a run's background box).
    FillRect { x: i64, y: i64, width: u32, height: u32, color: Rgba },
    /// A run's glyphs, rasterized at the given position and size (the
    /// font size in thousandths of a pixel).
    DrawGlyphs { x: i64, y: i64, face: usize, font_size: u32, color: Rgba, content: String },
}

#[verifier::ext_equal]
pub enum DrawCmdV {
    FillRect { x: int, y: int, width: u32, height: u32, color: Rgba },
    DrawGlyphs { x: int, y: int, face: usize, font_size: u32, color: Rgba, content: Seq<char> },
}

impl View for DrawCmd {
    type V = DrawCmdV;

    open spec fn view(&self) -> DrawCmdV {
        match self {
            DrawCmd::FillRect { x, y, width, height, color } => DrawCmdV::FillRect {
                x: *x as int,
                y: *y as int,
                width: *width,
                height: *height,
                color: *color,
            },
            DrawCmd::DrawGlyphs { x, y, face, font_size, color, content } => DrawCmdV::DrawGlyphs {
                x: *x as int,
                y: *y as int,
                face: *face,
                font_size: *font_size,
                color: *color,
                content: content@,
            },
        }
    }
}

pub open spec fn cmds_view(s: Seq<DrawCmd>) -> Seq<DrawCmdV> {
    Seq::new(s.len(), |i: int| s[i]@)
}

pub open spec fn texts_view(s: Seq<Text>) -> Seq<TextV> {
    Seq::new(s.len(), |i: int| s[i]@)
}

/// Division by two truncated toward zero, as the layout's centering
/// divides.
pub open spec fn div2(a: int) -> int {
    if a >= 0 {
        a / 2
    } else {
        -((-a) / 2)
    }
}

fn div2_i64(a: i64) -> (r: i64)
    requires
        -0x4000_0000_0000_0000 <= a <= 0x4000_0000_0000_0000,
    ensures
        r == div2(a as int),
{
    if a >= 0 {
        ((a as u64) / 2) as i64
    } else {
        -((((-a) as u64) / 2) as i64)
    }
}

/// Whether a run resolves to right alignment.
pub open spec fn is_right(t: TextV) -> bool {
    t.resolved_alignment() == Alignment::Right
}

/// A run's measured width (zero until measured).
pub open spec fn run_width(t: TextV) -> int {
    match t.metrics {
        Some(m) => m.width as int,
        None => 0,
    }
}

pub open spec fn sum_widths(ts: Seq<TextV>) -> int
    decreases ts.len(),
{
    if ts.len() == 0 {
        0
    } else {
        run_width(ts[0]) + sum_widths(ts.drop_first())
    }
}

pub open spec fn all_measured(ts: Seq<TextV>) -> bool {
    forall|i: int| 0 <= i < ts.len() ==> (#[trigger] ts[i]).metrics is Some
}

/// The processing queue the draw order is folded into: each run in
/// document order goes to the front where it is right-aligned, to the
/// back otherwise.
pub open spec fn spec_fold_order(acc: Seq<TextV>, ts: Seq<TextV>) -> Seq<TextV>
    decreases ts.len(),
{
    if ts.len() == 0 {
        acc
    } else {
        let acc1 = if is_right(ts[0]) {
            seq![ts[0]] + acc
        } else {
            acc.push(ts[0])
        };
        spec_fold_order(acc1, ts.drop_first())
    }
}

/// The order a line's runs are drawn in: right-aligned runs first, in
/// reverse document order, then the rest in document order.
pub open spec fn spec_draw_order(ts: Seq<TextV>) -> Seq<TextV> {
    spec_fold_order(Seq::<TextV>::empty(), ts)
}

/// The right-aligned runs, in reverse document order.
pub open spec fn rights_rev(ts: Seq<TextV>) -> Seq<TextV>
    decreases ts.len(),
{
    if ts.len() == 0 {
        Seq::<TextV>::empty()
    } else {
        rights_rev(ts.drop_first()) + (if is_right(ts[0]) {
            seq![ts[0]]
        } else {
            Seq::<TextV>::empty()
        })
    }
}

/// The right-aligned runs, in document order.
pub open spec fn rights(ts: Seq<TextV>) -> Seq<TextV>
    decreases ts.len(),
{
    if ts.len() == 0 {
        Seq::<TextV>::empty()
    } else {
        (if is_right(ts[0]) {
            seq![ts[0]]
        } else {
            Seq::<TextV>::empty()
        }) + rights(ts.drop_first())
    }
}

/// The runs that are not right-aligned, in document order.
pub open spec fn non_rights(ts: Seq<TextV>) -> Seq<TextV>
    decreases ts.len(),
{
    if ts.len() == 0 {
        Seq::<TextV>::empty()
    } else {
        (if is_right(ts[0]) {
            Seq::<TextV>::empty()
        } else {
            seq![ts[0]]
        }) + non_rights(ts.drop_first())
    }
}

proof fn lemma_fold_order_shape(acc: Seq<TextV>, ts: Seq<TextV>)
    ensures
        spec_fold_order(acc, ts) == rights_rev(ts) + acc + non_rights(ts),
    decreases ts.len(),
{
    if ts.len() == 0 {
        assert(rights_rev(ts) + acc + non_rights(ts) =~= acc);
    } else {
        let rest = ts.drop_first();
        if is_right(ts[0]) {
            lemma_fold_order_shape(seq![ts[0]] + acc, rest);
            assert(rights_rev(rest) + (seq![ts[0]] + acc) + non_rights(rest) =~= (rights_rev(rest)
                + seq![ts[0]]) + acc + non_rights(rest));
            assert(non_rights(ts) =~= non_rights(rest));
        } else {
            lemma_fold_order_shape(acc.push(ts[0]), rest);
            assert(rights_rev(ts) =~= rights_rev(rest));
            assert(rights_rev(rest) + acc.push(ts[0]) + non_rights(rest) =~= rights_rev(ts) + acc
                + (seq![ts[0]] + non_rights(rest)));
        }
    }
}

/// The right-aligned runs appear reversed in the draw order.
pub proof fn lemma_rights_rev_is_reverse(ts: Seq<TextV>)
    ensures
        rights_rev(ts) == rights(ts).reverse(),
    decreases ts.len(),
{
    if ts.len() == 0 {
        assert(rights_rev(ts) =~= rights(ts).reverse());
    } else {
        let rest = ts.drop_first();
        lemma_rights_rev_is_reverse(rest);
        if is_right(ts[0]) {
            let a = rights(rest);
            let n = a.len() as int;
            assert(rights(ts) =~= seq![ts[0]] + a);
            assert forall|i: int| 0 <= i < n + 1 implies (a.reverse() + seq![ts[0]])[i] == (
            seq![ts[0]] + a).reverse()[i] by {
                if i < n {
                    assert((a.reverse() + seq![ts[0]])[i] == a[n - 1 - i]);
                    assert((seq![ts[0]] + a).reverse()[i] == (seq![ts[0]] + a)[n - i]);
                    assert((seq![ts[0]] + a)[n - i] == a[n - i - 1]);
                }
            }
            assert(rights_rev(ts) =~= a.reverse() + seq![ts[0]]);
            assert(a.reverse() + seq![ts[0]] =~= (seq![ts[0]] + a).reverse());
        } else {
            assert(rights_rev(ts) =~= rights_rev(rest));
            assert(rights(ts) =~= rights(rest));
        }
    }
}

/// The draw order of a line's runs: the right-aligned runs in reverse
/// document order, then the others in document order.  This is the
/// packing order the layout engine processes a line in.
pub proof fn lemma_draw_order_shape(ts: Seq<TextV>)
    ensures
        spec_draw_order(ts) == rights(ts).reverse() + non_rights(ts),
{
    lemma_fold_order_shape(Seq::<TextV>::empty(), ts);
    lemma_rights_rev_is_reverse(ts);
    assert(rights_rev(ts) + Seq::<TextV>::empty() + non_rights(ts) =~= rights(ts).reverse()
        + non_rights(ts));
}

proof fn lemma_sum_widths_concat(a: Seq<TextV>, b: Seq<TextV>)
    ensures
        sum_widths(a + b) == sum_widths(a) + sum_widths(b),
    decreases a.len(),
{
    if a.len() == 0 {
        assert(a + b =~= b);
    } else {
        assert((a + b).drop_first() =~= a.drop_first() + b);
        lemma_sum_widths_concat(a.drop_first(), b);
    }
}

proof fn lemma_split_props(ts: Seq<TextV>)
    ensures
        sum_widths(rights_rev(ts)) + sum_widths(non_rights(ts)) == sum_widths(ts),
        all_measured(ts) ==> all_measured(rights_rev(ts)) && all_measured(non_rights(ts)),
    decreases ts.len(),
{
    if ts.len() > 0 {
        let rest = ts.drop_first();
        lemma_split_props(rest);
        if is_right(ts[0]) {
            lemma_sum_widths_concat(rights_rev(rest), seq![ts[0]]);
            assert(sum_widths(seq![ts[0]]) == run_width(ts[0])) by {
                assert(seq![ts[0]].drop_first() =~= Seq::<TextV>::empty());
                assert(sum_widths(Seq::<TextV>::empty()) == 0);
            }
            assert(non_rights(ts) =~= non_rights(rest));
            if all_measured(ts) {
                assert(all_measured(rest)) by {
                    assert(forall|i: int|
                        0 <= i < rest.len() ==> rest[i] == ts[i + 1] && (#[trigger] rest[i])
                            == ts[i + 1]);
                }
                assert forall|i: int|
                    0 <= i < rights_rev(ts).len() implies (#[trigger] rights_rev(ts)[i]).metrics
                    is Some by {
                    if i < rights_rev(rest).len() {
                        assert(rights_rev(ts)[i] == rights_rev(rest)[i]);
                    } else {
                        assert(rights_rev(ts)[i] == ts[0]);
                    }
                }
            }
        } else {
            assert(rights_rev(ts) =~= rights_rev(rest));
            assert(non_rights(ts) =~= seq![ts[0]] + non_rights(rest));
            lemma_sum_widths_concat(seq![ts[0]], non_rights(rest));
            assert(sum_widths(seq![ts[0]]) == run_width(ts[0])) by {
                assert(seq![ts[0]].drop_first() =~= Seq::<TextV>::empty());
                assert(sum_widths(Seq::<TextV>::empty()) == 0);
            }
            if all_measured(ts) {
                assert(all_measured(rest)) by {
                    assert(forall|i: int|
                        0 <= i < rest.len() ==> rest[i] == ts[i + 1] && (#[trigger] rest[i])
                            == ts[i + 1]);
                }
                assert forall|i: int|
                    0 <= i < non_rights(ts).len() implies (#[trigger] non_rights(ts)[i]).metrics
                    is Some by {
                    if i == 0 {
                        assert(non_rights(ts)[0] == ts[0]);
                    } else {
                        assert(non_rights(ts)[i] == non_rights(rest)[i - 1]);
                    }
                }
            }
        }
    }
}

/// The draw order is a rearrangement: widths and measuredness carry
/// over from document order.
pub proof fn lemma_draw_order_props(ts: Seq<TextV>)
    ensures
        sum_widths(spec_draw_order(ts)) == sum_widths(ts),
        all_measured(ts) ==> all_measured(spec_draw_order(ts)),
{
    lemma_fold_order_shape(Seq::<TextV>::empty(), ts);
    lemma_split_props(ts);
    assert(spec_draw_order(ts) =~= rights_rev(ts) + non_rights(ts));
    lemma_sum_widths_concat(rights_rev(ts), non_rights(ts));
    if all_measured(ts) {
        assert forall|i: int|
            0 <= i < spec_draw_order(ts).len() implies (#[trigger] spec_draw_order(
            ts,
        )[i]).metrics is Some by {
            let rr = rights_rev(ts);
            if i < rr.len() {
                assert(spec_draw_order(ts)[i] == rr[i]);
            } else {
                assert(spec_draw_order(ts)[i] == non_rights(ts)[i - rr.len()]);
            }
        }
    }
}

/// A run's horizontal position: left-packed after what the left cursor
/// has consumed, right-packed before what the right cursor has
/// consumed, or centered in the line (ignoring the cursors).
pub open spec fn run_x(t: TextV, rect: RectV, off_l: int, off_r: int) -> int {
    match t.resolved_alignment() {
        Alignment::Left => rect.left + off_l,
        Alignment::Right => rect.left + rect.width - off_r - run_width(t),
        Alignment::Center => rect.left + div2(rect.width - run_width(t)),
    }
}

/// The commands one run contributes: its background box where the
/// background is not fully transparent (a transparent fill is skipped),
/// then its glyphs.  The run sits on the line's shared baseline:
/// its top is the line's height minus the run's font ascent.
pub open spec fn spec_run_cmds(t: TextV, rect: RectV, x: int) -> Seq<DrawCmdV> {
    let m = t.metrics->Some_0;
    let y = rect.top + rect.height - m.ascent;
    let g = DrawCmdV::DrawGlyphs {
        x,
        y,
        face: m.face,
        font_size: t.font_size,
        color: t.font_color,
        content: t.content,
    };
    if t.background_color.is_transparent() {
        seq![g]
    } else {
        seq![
            DrawCmdV::FillRect { x, y, width: m.width, height: m.height, color: t.background_color },
            g,
        ]
    }
}

/// Packing a queue of runs into a line rectangle, threading the two
/// cursors.
pub open spec fn spec_place_runs(ts: Seq<TextV>, rect: RectV, off_l: int, off_r: int) -> Seq<
    DrawCmdV,
>
    decreases ts.len(),
{
    if ts.len() == 0 {
        Seq::<DrawCmdV>::empty()
    } else {
        let t = ts[0];
        let x = run_x(t, rect, off_l, off_r);
        let nl = if t.resolved_alignment() == Alignment::Left {
            off_l + run_width(t)
        } else {
            off_l
        };
        let nr = if t.resolved_alignment() == Alignment::Right {
            off_r + run_width(t)
        } else {
            off_r
        };
        spec_run_cmds(t, rect, x) + spec_place_runs(ts.drop_first(), rect, nl, nr)
    }
}

/// A line's commands: its runs in draw order, packed from fresh cursors.
pub open spec fn spec_line_cmds(l: LineInfoV, rect: RectV) -> Seq<DrawCmdV> {
    spec_place_runs(spec_draw_order(l.texts), rect, 0, 0)
}

/// The rectangle a line is drawn in: the full width of the target rect,
/// half of the line's half-height below the running vertical cursor,
/// and the line's own box height.
pub open spec fn spec_line_rect(l: LineInfoV, rect: RectV, start_y: int) -> RectV {
    RectV {
        left: rect.left,
        top: start_y + spec_line_height(l.max_text_height, HALF_HALVES) / 2,
        width: rect.width,
        height: l.max_text_height as int,
    }
}

/// Lays lines out from a running vertical cursor: an empty line is
/// skipped, every other line is drawn in its rectangle and advances the
/// cursor by its spaced height.
pub open spec fn spec_layout_lines(lines: Seq<LineInfoV>, rect: RectV, start_y: int) -> Seq<
    DrawCmdV,
>
    decreases lines.len(),
{
    if lines.len() == 0 {
        Seq::<DrawCmdV>::empty()
    } else {
        let l = lines[0];
        if l.is_empty() {
            spec_layout_lines(lines.drop_first(), rect, start_y)
        } else {
            spec_line_cmds(l, spec_line_rect(l, rect, start_y)) + spec_layout_lines(
                lines.drop_first(),
                rect,
                start_y + spec_line_height(l.max_text_height, LINE_SPACING_HALVES),
            )
        }
    }
}

/// The whole layout: the text block is vertically centered in the
/// target rectangle (a block taller than the rectangle starts above
/// it), then the lines are laid out top to bottom.
pub open spec fn spec_layout(c: ContentV, rect: RectV) -> Seq<DrawCmdV> {
    spec_layout_lines(
        c.lines,
        rect,
        rect.top + div2(rect.height - spec_content_height(c.lines, LINE_SPACING_HALVES)),
    )
}

/// A coordinate far within the range where the layout's 64-bit
/// arithmetic cannot overflow.
pub open spec fn coord_ok(v: int) -> bool {
    -0x200_0000_0000 <= v <= 0x200_0000_0000
}

impl ContentV {
    /// Every run of every line carries its measured metrics.
    pub open spec fn measured(self) -> bool {
        forall|i: int| 0 <= i < self.lines.len() ==> all_measured((#[trigger] self.lines[i]).texts)
    }

    /// Every line's packed runs fit the cursor arithmetic.
    pub open spec fn widths_fit(self) -> bool {
        forall|i: int|
            0 <= i < self.lines.len() ==> sum_widths((#[trigger] self.lines[i]).texts) <= u32::MAX
    }
}

proof fn lemma_sum_widths_nonneg(ts: Seq<TextV>)
    ensures
        sum_widths(ts) >= 0,
    decreases ts.len(),
{
    if ts.len() > 0 {
        lemma_sum_widths_nonneg(ts.drop_first());
    }
}

proof fn lemma_sum_single(t: TextV)
    ensures
        sum_widths(seq![t]) == run_width(t),
{
    assert(seq![t].drop_first() =~= Seq::<TextV>::empty());
    assert(sum_widths(Seq::<TextV>::empty()) == 0);
}

/// A line's runs rearranged into the order they are drawn in.
pub fn draw_order(texts: &Vec<Text>) -> (r: Vec<Text>)
    ensures
        texts_view(r@) == spec_draw_order(texts_view(texts@)),
{
    proof {
        assert(texts_view(texts@).skip(0) =~= texts_view(texts@));
        assert(texts_view(Seq::<Text>::empty()) =~= Seq::<TextV>::empty());
    }
    let mut out: Vec<Text> = Vec::new();
    let mut i: usize = 0;
    while i < texts.len()
        invariant
            i <= texts@.len(),
            spec_fold_order(texts_view(out@), texts_view(texts@).skip(i as int))
                == spec_draw_order(texts_view(texts@)),
        decreases texts@.len() - i,
    {
        let ghost prev = texts_view(out@);
        let ghost remaining = texts_view(texts@).skip(i as int);
        proof {
            assert(remaining[0] == texts@[i as int]@);
            assert(remaining.drop_first() =~= texts_view(texts@).skip(i + 1 as int));
        }
        let t = texts[i].duplicate();
        if t.alignment() == Alignment::Right {
            out.insert(0, t);
            proof {
                assert(texts_view(out@) =~= seq![texts@[i as int]@] + prev);
            }
        } else {
            out.push(t);
            proof {
                assert(texts_view(out@) =~= prev.push(texts@[i as int]@));
            }
        }
        i += 1;
    }
    proof {
        assert(texts_view(texts@).skip(texts@.len() as int) =~= Seq::<TextV>::empty());
    }
    out
}

/// Emits one run's commands at its packed position and returns the
/// advanced cursors.
pub fn draw_text(text: &Text, rect: &Rect, off_l: u64, off_r: u64, out: &mut Vec<DrawCmd>) -> (offs: (
    u64,
    u64,
))
    requires
        text@.metrics is Some,
        off_l <= u32::MAX,
        off_r <= u32::MAX,
        coord_ok(rect@.left),
        coord_ok(rect@.top),
    ensures
        cmds_view(final(out)@) == cmds_view(old(out)@) + spec_run_cmds(
            text@,
            rect@,
            run_x(text@, rect@, off_l as int, off_r as int),
        ),
        offs.0 == (if text@.resolved_alignment() == Alignment::Left {
            off_l + run_width(text@)
        } else {
            off_l as int
        }),
        offs.1 == (if text@.resolved_alignment() == Alignment::Right {
            off_r + run_width(text@)
        } else {
            off_r as int
        }),
{
    let m = text.metrics.unwrap();
    let w = m.width;
    let a = text.alignment();
    let x: i64 = match a {
        Alignment::Left => rect.left + (off_l as i64),
        Alignment::Right => rect.left + (rect.width as i64) - (off_r as i64) - (w as i64),
        Alignment::Center => rect.left + div2_i64((rect.width as i64) - (w as i64)),
    };
    let y: i64 = rect.top + (rect.height as i64) - (m.ascent as i64);
    let ghost before = cmds_view(out@);
    if text.background_color.alpha != 0 {
        out.push(
            DrawCmd::FillRect { x, y, width: m.width, height: m.height, color: text.background_color },
        );
    }
    out.push(
        DrawCmd::DrawGlyphs {
            x,
            y,
            face: m.face,
            font_size: text.font_size,
            color: text.font_color,
            content: text.content.clone(),
        },
    );
    proof {
        assert(cmds_view(out@) =~= before + spec_run_cmds(
            text@,
            rect@,
            run_x(text@, rect@, off_l as int, off_r as int),
        ));
    }
    let nl = if matches!(a, Alignment::Left) {
        off_l + (w as u64)
    } else {
        off_l
    };
    let nr = if matches!(a, Alignment::Right) {
        off_r + (w as u64)
    } else {
        off_r
    };
    (nl, nr)
}

/// Emits one line's commands: its runs in draw order, packed from the
/// line rectangle's edges.
pub fn draw_line(line: &LineInfo, rect: &Rect, out: &mut Vec<DrawCmd>)
    requires
        all_measured(line@.texts),
        sum_widths(line@.texts) <= u32::MAX,
        coord_ok(rect@.left),
        coord_ok(rect@.top),
    ensures
        cmds_view(final(out)@) == cmds_view(old(out)@) + spec_line_cmds(line@, rect@),
{
    proof {
        assert(texts_view(line.texts@) =~= line@.texts);
        lemma_draw_order_props(line@.texts);
    }
    let order = draw_order(&line.texts);
    let ghost ov = texts_view(order@);
    let ghost start = cmds_view(out@);
    proof {
        assert(ov.skip(0) =~= ov);
        assert(ov.take(0) =~= Seq::<TextV>::empty());
    }
    let mut off_l: u64 = 0;
    let mut off_r: u64 = 0;
    let mut k: usize = 0;
    while k < order.len()
        invariant
            k <= order@.len(),
            ov == texts_view(order@),
            ov == spec_draw_order(line@.texts),
            all_measured(ov),
            sum_widths(ov) <= u32::MAX,
            coord_ok(rect@.left),
            coord_ok(rect@.top),
            off_l + off_r <= sum_widths(ov.take(k as int)),
            off_l + off_r <= u32::MAX,
            start + spec_place_runs(ov, rect@, 0, 0) == cmds_view(out@) + spec_place_runs(
                ov.skip(k as int),
                rect@,
                off_l as int,
                off_r as int,
            ),
        decreases order@.len() - k,
    {
        proof {
            assert(ov.skip(k as int)[0] == ov[k as int]);
            assert(ov.skip(k as int).drop_first() =~= ov.skip(k + 1 as int));
            assert(ov.take(k + 1 as int) =~= ov.take(k as int) + seq![ov[k as int]]);
            lemma_sum_widths_concat(ov.take(k as int), seq![ov[k as int]]);
            lemma_sum_single(ov[k as int]);
            assert(ov =~= ov.take(k + 1 as int) + ov.skip(k + 1 as int));
            lemma_sum_widths_concat(ov.take(k + 1 as int), ov.skip(k + 1 as int));
            lemma_sum_widths_nonneg(ov.skip(k + 1 as int));
            lemma_sum_widths_nonneg(ov.take(k as int));
        }
        let ghost outprev = cmds_view(out@);
        let (nl, nr) = draw_text(&order[k], rect, off_l, off_r, out);
        proof {
            assert(order@[k as int]@ == ov[k as int]);
            assert(outprev + (spec_run_cmds(
                ov[k as int],
                rect@,
                run_x(ov[k as int], rect@, off_l as int, off_r as int),
            ) + spec_place_runs(ov.skip(k + 1 as int), rect@, nl as int, nr as int)) =~= (outprev
                + spec_run_cmds(
                ov[k as int],
                rect@,
                run_x(ov[k as int], rect@, off_l as int, off_r as int),
            )) + spec_place_runs(ov.skip(k + 1 as int), rect@, nl as int, nr as int));
        }
        off_l = nl;
        off_r = nr;
        k += 1;
    }
    proof {
        assert(ov.skip(order@.len() as int) =~= Seq::<TextV>::empty());
        assert(spec_place_runs(Seq::<TextV>::empty(), rect@, off_l as int, off_r as int)
            =~= Seq::<DrawCmdV>::empty());
        assert(cmds_view(out@) + Seq::<DrawCmdV>::empty() =~= cmds_view(out@));
    }
}

/// Horizontal packing: two left-aligned runs in document order pack
/// without overlap, the second starting exactly where the first ends.
pub proof fn lemma_left_packing(t1: TextV, t2: TextV, rect: RectV)
    requires
        t1.resolved_alignment() == Alignment::Left,
        t2.resolved_alignment() == Alignment::Left,
    ensures
        spec_place_runs(seq![t1, t2], rect, 0, 0) == spec_run_cmds(t1, rect, rect.left)
            + spec_run_cmds(t2, rect, rect.left + run_width(t1)),
{
    reveal_with_fuel(spec_place_runs, 3);
    assert(seq![t1, t2].drop_first() =~= seq![t2]);
    assert(seq![t2].drop_first() =~= Seq::<TextV>::empty());
    assert(spec_place_runs(seq![t1, t2], rect, 0, 0) =~= spec_run_cmds(t1, rect, rect.left)
        + spec_run_cmds(t2, rect, rect.left + run_width(t1)));
}

/// Right-packing order: of two right-aligned runs in document order,
/// the later one is drawn first and claims the outermost (rightmost)
/// slot; the earlier one sits to its left by exactly its width.
pub proof fn lemma_right_packing(t1: TextV, t2: TextV, rect: RectV)
    requires
        t1.resolved_alignment() == Alignment::Right,
        t2.resolved_alignment() == Alignment::Right,
    ensures
        spec_draw_order(seq![t1, t2]) == seq![t2, t1],
        spec_place_runs(seq![t2, t1], rect, 0, 0) == spec_run_cmds(
            t2,
            rect,
            rect.left + rect.width - run_width(t2),
        ) + spec_run_cmds(t1, rect, rect.left + rect.width - run_width(t2) - run_width(t1)),
{
    reveal_with_fuel(spec_fold_order, 3);
    assert(seq![t1, t2].drop_first() =~= seq![t2]);
    assert(seq![t2].drop_first() =~= Seq::<TextV>::empty());
    assert(seq![t1] + Seq::<TextV>::empty() =~= seq![t1]);
    assert(seq![t2] + seq![t1] =~= seq![t2, t1]);
    assert(spec_draw_order(seq![t1, t2]) =~= seq![t2, t1]);
    reveal_with_fuel(spec_place_runs, 3);
    assert(seq![t2, t1].drop_first() =~= seq![t1]);
    assert(spec_place_runs(seq![t2, t1], rect, 0, 0) =~= spec_run_cmds(
        t2,
        rect,
        rect.left + rect.width - run_width(t2),
    ) + spec_run_cmds(t1, rect, rect.left + rect.width - run_width(t2) - run_width(t1)));
}

/// Vertical centering: a single-line document of line box height H,
/// laid out in a rectangle of height T, has its line's top within the
/// rounding slack of (T - H) / 2 below the rectangle's top: twice the
/// offset differs from T - H by at most 3.
pub proof fn lemma_vertical_centering(l: LineInfoV, rect: RectV)
    ensures
        ({
            let ch = spec_content_height(seq![l], LINE_SPACING_HALVES);
            let top = spec_line_rect(l, rect, rect.top + div2(rect.height - ch)).top;
            let m = l.max_text_height as int;
            &&& 2 * (top - rect.top) - (rect.height - m) <= 3
            &&& 2 * (top - rect.top) - (rect.height - m) >= -3
        }),
{
    let m = l.max_text_height as int;
    assert(seq![l].drop_last() =~= Seq::<LineInfoV>::empty());
    assert(spec_content_height(Seq::<LineInfoV>::empty(), LINE_SPACING_HALVES) == 0);
    let ch = spec_content_height(seq![l], LINE_SPACING_HALVES);
    assert(ch == (m * 3 + 1) / 2);
    assert(3 * m <= 2 * ch <= 3 * m + 1);
    let d = div2(rect.height - ch);
    assert(rect.height - ch - 1 <= 2 * d <= rect.height - ch + 1);
    let lh05 = spec_line_height(l.max_text_height, 1);
    assert(lh05 == (m * 1 + 1) / 2);
    assert(m <= 2 * lh05 <= m + 1);
    let q = lh05 / 2;
    assert(lh05 - 1 <= 2 * q <= lh05);
    let top = spec_line_rect(l, rect, rect.top + d).top;
    assert(top == rect.top + d + q);
}

/// Rendering is a function of its inputs: one document and one target
/// rectangle admit exactly one command list, so laying the same input
/// out twice gives identical commands.  Together with `Content::draw`
/// returning exactly this specification, a repeated render is
/// byte-identical as far as the layout decides.
pub proof fn lemma_layout_deterministic(c1: ContentV, c2: ContentV, r1: RectV, r2: RectV)
    requires
        c1 == c2,
        r1 == r2,
    ensures
        spec_layout(c1, r1) == spec_layout(c2, r2),
{
}

impl Content {
    /// Lays the whole document out in the target rectangle and returns
    /// the draw commands in order: the block vertically centered, each
    /// non-empty line drawn in its slot, runs packed by alignment on a
    /// shared baseline.
    pub fn draw(&self, rect: &Rect) -> (r: Vec<DrawCmd>)
        requires
            self@.wf(),
            self@.measured(),
            self@.widths_fit(),
            spec_content_height(self@.lines, LINE_SPACING_HALVES) <= u32::MAX,
            -0x80_0000_0000 <= rect@.left <= 0x80_0000_0000,
            -0x80_0000_0000 <= rect@.top <= 0x80_0000_0000,
        ensures
            cmds_view(r@) == spec_layout(self@, rect@),
    {
        let ch = self.content_height(LINE_SPACING_HALVES);
        let mut start_y: i64 = rect.top + div2_i64((rect.height as i64) - (ch as i64));
        let ghost base = rect@.top + div2(rect@.height - spec_content_height(self@.lines, LINE_SPACING_HALVES));
        let mut out: Vec<DrawCmd> = Vec::new();
        let mut i: usize = 0;
        proof {
            assert(self@.lines.skip(0) =~= self@.lines);
            assert(self@.lines.take(0) =~= Seq::<LineInfoV>::empty());
            assert(cmds_view(out@) =~= Seq::<DrawCmdV>::empty());
        }
        while i < self.lines.len()
            invariant
                i <= self@.lines.len(),
                self@.lines.len() == self.lines@.len(),
                self@.wf(),
                self@.measured(),
                self@.widths_fit(),
                spec_content_height(self@.lines, LINE_SPACING_HALVES) <= u32::MAX,
                -0x80_0000_0000 <= rect@.left <= 0x80_0000_0000,
                -0x80_0000_0000 <= rect@.top <= 0x80_0000_0000,
                base == rect@.top + div2(
                    rect@.height - spec_content_height(self@.lines, LINE_SPACING_HALVES),
                ),
                start_y as int == base + spec_content_height(
                    self@.lines.take(i as int),
                    LINE_SPACING_HALVES,
                ),
                cmds_view(out@) + spec_layout_lines(
                    self@.lines.skip(i as int),
                    rect@,
                    start_y as int,
                ) == spec_layout(self@, rect@),
            decreases self@.lines.len() - i,
        {
            proof {
                assert(self@.lines.skip(i as int)[0] == self@.lines[i as int]);
                assert(self@.lines.skip(i as int).drop_first() =~= self@.lines.skip(i + 1 as int));
                assert(self@.lines.take(i + 1 as int).drop_last() =~= self@.lines.take(i as int));
                assert(self@.lines.take(i + 1 as int).last() == self@.lines[i as int]);
                crate::content::lemma_content_height_prefix(
                    self@.lines,
                    LINE_SPACING_HALVES,
                    i + 1 as int,
                );
                crate::content::lemma_content_height_nonneg(
                    self@.lines.take(i as int),
                    LINE_SPACING_HALVES,
                );
            }
            if !self.lines[i].is_empty() {
                proof {
                    let m = self@.lines[i as int].max_text_height;
                    assert(spec_line_height(m, HALF_HALVES) <= u32::MAX) by (nonlinear_arith)
                        requires
                            0 <= m <= u32::MAX,
                    ;
                }
                let lh1 = self.lines[i].line_height(HALF_HALVES);
                let line_top: i64 = start_y + ((lh1 / 2) as i64);
                let lrect = Rect {
                    left: rect.left,
                    top: line_top,
                    width: rect.width,
                    height: self.lines[i].max_text_height,
                };
                proof {
                    assert(lrect@ =~= spec_line_rect(
                        self@.lines[i as int],
                        rect@,
                        start_y as int,
                    ));
                }
                draw_line(&self.lines[i], &lrect, &mut out);
                let lh3 = self.lines[i].line_height(LINE_SPACING_HALVES);
                start_y = start_y + (lh3 as i64);
            } else {
                proof {
                    assert(self@.lines[i as int].wf());
                    assert(self@.lines[i as int].max_text_height == 0);
                    assert(spec_line_height(0, LINE_SPACING_HALVES) == 0);
                }
            }
            i += 1;
        }
        proof {
            assert(self@.lines.skip(self@.lines.len() as int) =~= Seq::<LineInfoV>::empty());
            assert(cmds_view(out@) + Seq::<DrawCmdV>::empty() =~= cmds_view(out@));
        }
        out
    }
}

} // verus!
