use postergen::content::Content;
use postergen::font::{FontId, Style, Weight};
use postergen::line::LineInfo;
use postergen::text::{RunMetrics, Text};

fn test_font() -> FontId {
    FontId { family_name: String::from("TestFamily"), style: Style::Normal, weight: Weight::Normal }
}

fn measured_run(content: &str, width: u32, height: u32, ascent: u32) -> Text {
    let mut t = Text::new(test_font());
    t.content = String::from(content);
    t.initialize_font(RunMetrics { face: 0, width, height, ascent });
    t
}

#[test]
fn push_text_tracks_max_height() {
    let mut l = LineInfo::new();
    assert_eq!(l.max_text_height, 0);
    l.push_text(measured_run("a", 10, 30, 25));
    assert_eq!(l.max_text_height, 30);
    l.push_text(measured_run("b", 10, 20, 15));
    assert_eq!(l.max_text_height, 30);
    l.push_text(measured_run("d", 10, 44, 40));
    assert_eq!(l.max_text_height, 44);
}

#[test]
fn line_height_rounds_to_nearest_pixel() {
    let mut l = LineInfo::new();
    l.push_text(measured_run("a", 10, 31, 25));
    // 1.5 spacing: round(31 * 1.5) = round(46.5) = 47
    assert_eq!(l.line_height(3), 47);
    // own box: round(31 * 1.0) = 31
    assert_eq!(l.line_height(2), 31);
    // half: round(31 * 0.5) = round(15.5) = 16
    assert_eq!(l.line_height(1), 16);
    let mut e = LineInfo::new();
    e.push_text(measured_run("b", 10, 30, 25));
    assert_eq!(e.line_height(3), 45);
    assert_eq!(e.line_height(1), 15);
}

#[test]
fn empty_line_has_zero_height() {
    let l = LineInfo::new();
    assert!(l.is_empty());
    assert_eq!(l.line_height(3), 0);
}

#[test]
fn fresh_content_accepts_pushed_runs() {
    let mut c = Content::new();
    assert_eq!(c.line_size(), 1);
    c.push_text(measured_run("a", 10, 30, 25));
    assert_eq!(c.lines[0].texts.len(), 1);
    assert_eq!(c.lines[0].max_text_height, 30);
}

#[test]
fn content_height_sums_spaced_line_heights() {
    let mut doc = Content::parse_input("a<br>b", &test_font()).unwrap();
    doc.apply_metrics(&vec![
        RunMetrics { face: 0, width: 10, height: 30, ascent: 25 },
        RunMetrics { face: 0, width: 10, height: 31, ascent: 25 },
    ]);
    // round(30 * 1.5) + round(31 * 1.5) = 45 + 47
    assert_eq!(doc.content_height(3), 92);
}

#[test]
fn apply_metrics_initializes_runs_in_document_order() {
    let mut doc = Content::parse_input("a b<br>c", &test_font()).unwrap();
    assert_eq!(doc.run_count(), 2);
    doc.apply_metrics(&vec![
        RunMetrics { face: 7, width: 11, height: 21, ascent: 18 },
        RunMetrics { face: 8, width: 12, height: 22, ascent: 19 },
    ]);
    let first = &doc.lines[0].texts[0];
    let second = &doc.lines[1].texts[0];
    assert_eq!(first.metrics.unwrap().face, 7);
    assert_eq!(first.size(), (11, 21));
    assert_eq!(second.metrics.unwrap().face, 8);
    assert_eq!(second.size(), (12, 22));
    assert_eq!(doc.lines[0].max_text_height, 21);
    assert_eq!(doc.lines[1].max_text_height, 22);
}

#[test]
fn measured_content_substitutes_one_trailing_space() {
    let mut t = Text::new(test_font());
    t.content = String::from("ab ");
    assert_eq!(t.measured_content(), "ab0");
    t.content = String::from("ab");
    assert_eq!(t.measured_content(), "ab");
    t.content = String::from("a b");
    assert_eq!(t.measured_content(), "a b");
    t.content = String::from("ab  ");
    assert_eq!(t.measured_content(), "ab 0");
    t.content = String::from("");
    assert_eq!(t.measured_content(), "");
}

#[test]
fn trailing_space_content_keeps_its_length() {
    let mut with_space = Text::new(test_font());
    with_space.content = String::from("ab ");
    let mut without = Text::new(test_font());
    without.content = String::from("ab");
    // the substituted measuring text is strictly longer than the
    // trimmed one, so the trailing gap cannot collapse
    assert!(with_space.measured_content().chars().count() > without.measured_content().chars().count());
}
