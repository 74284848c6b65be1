use postergen::color::Rgba;
use postergen::content::Content;
use postergen::font::{FontId, Style, Weight};
use postergen::layout::{DrawCmd, Rect};
use postergen::text::{Alignment, RunMetrics, Text};

fn test_font() -> FontId {
    FontId { family_name: String::from("TestFamily"), style: Style::Normal, weight: Weight::Normal }
}

fn run(content: &str, align: Option<Alignment>, width: u32, height: u32, ascent: u32) -> Text {
    let mut t = Text::new(test_font());
    t.content = String::from(content);
    t.line_index = 1;
    t.alignment = align;
    t.initialize_font(RunMetrics { face: 0, width, height, ascent });
    t
}

fn transparent_bg(mut t: Text) -> Text {
    t.background_color = Rgba { red: 0, green: 0, blue: 0, alpha: 0 };
    t
}

fn glyph_positions(cmds: &[DrawCmd]) -> Vec<(String, i64, i64)> {
    cmds.iter()
        .filter_map(|c| match c {
            DrawCmd::DrawGlyphs { x, y, content, .. } => Some((content.clone(), *x, *y)),
            _ => None,
        })
        .collect()
}

#[test]
fn left_runs_pack_in_document_order() {
    let mut c = Content::new();
    c.push_text(transparent_bg(run("A", Some(Alignment::Left), 10, 20, 18)));
    c.push_text(transparent_bg(run("B", Some(Alignment::Left), 20, 20, 18)));
    let cmds = c.draw(&Rect { left: 100, top: 0, width: 500, height: 200 });
    let pos = glyph_positions(&cmds);
    assert_eq!(pos.len(), 2);
    assert_eq!(pos[0].0, "A");
    assert_eq!(pos[1].0, "B");
    // B's left edge is A's left edge plus A's width
    assert_eq!(pos[1].1, pos[0].1 + 10);
    assert_eq!(pos[0].1, 100);
}

#[test]
fn right_runs_draw_reversed_and_pack_from_the_right_edge() {
    let mut c = Content::new();
    c.push_text(transparent_bg(run("X", Some(Alignment::Right), 10, 20, 18)));
    c.push_text(transparent_bg(run("Y", Some(Alignment::Right), 20, 20, 18)));
    let cmds = c.draw(&Rect { left: 0, top: 0, width: 500, height: 200 });
    let pos = glyph_positions(&cmds);
    assert_eq!(pos.len(), 2);
    // the later run Y is drawn first, in the outermost slot
    assert_eq!(pos[0].0, "Y");
    assert_eq!(pos[0].1, 500 - 20);
    // X sits immediately to its left
    assert_eq!(pos[1].0, "X");
    assert_eq!(pos[1].1, 500 - 20 - 10);
}

#[test]
fn centered_run_ignores_cursors() {
    let mut c = Content::new();
    c.push_text(transparent_bg(run("M", Some(Alignment::Center), 100, 20, 18)));
    let cmds = c.draw(&Rect { left: 0, top: 0, width: 500, height: 200 });
    let pos = glyph_positions(&cmds);
    assert_eq!(pos[0].1, (500 - 100) / 2);
}

#[test]
fn default_alignment_depends_on_line_index() {
    let mut first = run("a", None, 10, 20, 18);
    first.line_index = 1;
    assert!(matches!(first.alignment(), Alignment::Left));
    let mut second = run("b", None, 10, 20, 18);
    second.line_index = 2;
    assert!(matches!(second.alignment(), Alignment::Right));
    let mut third = run("c", None, 10, 20, 18);
    third.line_index = 5;
    assert!(matches!(third.alignment(), Alignment::Right));
}

#[test]
fn single_line_is_vertically_centered() {
    let mut c = Content::new();
    c.push_text(transparent_bg(run("A", Some(Alignment::Left), 10, 30, 30)));
    // line box height H = 30, target height T = 200
    let cmds = c.draw(&Rect { left: 0, top: 0, width: 100, height: 200 });
    let pos = glyph_positions(&cmds);
    // line top = start_y + round(0.5 * 30) / 2 = (200 - 45) / 2 + 7 = 84;
    // the run's top is line top + (line height - ascent) = 84 + 0
    let y = pos[0].2;
    let expected = (200 - 30) / 2;
    assert!((y - expected).abs() <= 2, "y = {y}, expected about {expected}");
}

#[test]
fn runs_share_a_baseline_across_sizes() {
    let mut c = Content::new();
    c.push_text(transparent_bg(run("big", Some(Alignment::Left), 50, 40, 36)));
    c.push_text(transparent_bg(run("small", Some(Alignment::Left), 20, 20, 18)));
    let cmds = c.draw(&Rect { left: 0, top: 0, width: 500, height: 200 });
    let pos = glyph_positions(&cmds);
    // draw-top plus ascent is the shared baseline: top_i = line_top + (H - ascent_i)
    assert_eq!(pos[0].2 + 36, pos[1].2 + 18);
}

#[test]
fn opaque_background_paints_a_rect_before_the_glyphs() {
    let mut c = Content::new();
    c.push_text(run("A", Some(Alignment::Left), 10, 20, 18));
    let cmds = c.draw(&Rect { left: 0, top: 0, width: 100, height: 100 });
    assert_eq!(cmds.len(), 2);
    match (&cmds[0], &cmds[1]) {
        (
            DrawCmd::FillRect { x: bx, y: by, width, height, color },
            DrawCmd::DrawGlyphs { x: gx, y: gy, .. },
        ) => {
            assert_eq!((bx, by), (gx, gy));
            assert_eq!((*width, *height), (10, 20));
            assert_eq!(color.alpha, 255);
        },
        _ => panic!("expected a background rect then glyphs"),
    }
}

#[test]
fn transparent_background_is_skipped() {
    let mut c = Content::new();
    c.push_text(transparent_bg(run("A", Some(Alignment::Left), 10, 20, 18)));
    let cmds = c.draw(&Rect { left: 0, top: 0, width: 100, height: 100 });
    assert_eq!(cmds.len(), 1);
    assert!(matches!(cmds[0], DrawCmd::DrawGlyphs { .. }));
}

#[test]
fn empty_lines_are_skipped() {
    let mut doc = Content::parse_input("a<br><br>b", &test_font()).unwrap();
    assert_eq!(doc.line_size(), 3);
    doc.apply_metrics(&vec![
        RunMetrics { face: 0, width: 10, height: 20, ascent: 18 },
        RunMetrics { face: 0, width: 10, height: 20, ascent: 18 },
    ]);
    let cmds = doc.draw(&Rect { left: 0, top: 0, width: 100, height: 100 });
    // two runs, each with an opaque default background: four commands
    assert_eq!(cmds.len(), 4);
}

#[test]
fn same_input_layouts_identically() {
    let font = test_font();
    let metrics = vec![
        RunMetrics { face: 0, width: 10, height: 20, ascent: 18 },
        RunMetrics { face: 1, width: 30, height: 40, ascent: 36 },
    ];
    let rect = Rect { left: 5, top: 7, width: 300, height: 150 };
    let mut a = Content::parse_input("<l>one</l><br><r>two</r>", &font).unwrap();
    a.apply_metrics(&metrics);
    let cmds_a = a.draw(&rect);
    let mut b = Content::parse_input("<l>one</l><br><r>two</r>", &font).unwrap();
    b.apply_metrics(&metrics);
    let cmds_b = b.draw(&rect);
    assert_eq!(cmds_a, cmds_b);
}

#[test]
fn block_taller_than_rect_starts_above_it() {
    let mut c = Content::new();
    c.push_text(transparent_bg(run("A", Some(Alignment::Left), 10, 400, 380)));
    // content height = round(400 * 1.5) = 600 > 100
    let cmds = c.draw(&Rect { left: 0, top: 0, width: 100, height: 100 });
    let pos = glyph_positions(&cmds);
    assert!(pos[0].2 < 0);
}
