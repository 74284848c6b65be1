use postergen::content::Content;
use postergen::font::{FontId, Style, Weight};
use postergen::text::{Alignment, AttrKind, MarkupError};

fn test_font() -> FontId {
    FontId { family_name: String::from("TestFamily"), style: Style::Normal, weight: Weight::Normal }
}

#[test]
fn single_text_is_one_line() {
    let c = Content::parse_input("hello", &test_font()).unwrap();
    assert_eq!(c.line_size(), 1);
    assert_eq!(c.lines[0].texts.len(), 1);
    assert_eq!(c.lines[0].texts[0].content, "hello");
    assert_eq!(c.lines[0].texts[0].line_index, 1);
}

#[test]
fn br_markers_make_one_extra_line_each() {
    let c = Content::parse_input("x<br>y<br>z", &test_font()).unwrap();
    assert_eq!(c.line_size(), 3);
    let c2 = Content::parse_input("a<br>b<br>c<br>d", &test_font()).unwrap();
    assert_eq!(c2.line_size(), 4);
}

#[test]
fn trailing_br_leaves_an_empty_last_line() {
    let c = Content::parse_input("a<br>", &test_font()).unwrap();
    assert_eq!(c.line_size(), 2);
    assert_eq!(c.lines[0].texts.len(), 1);
    assert_eq!(c.lines[1].texts.len(), 0);
}

#[test]
fn literal_newline_acts_like_br() {
    let a = Content::parse_input("a\nb", &test_font()).unwrap();
    let b = Content::parse_input("a<br>b", &test_font()).unwrap();
    assert_eq!(a.line_size(), 2);
    assert_eq!(b.line_size(), 2);
    for (la, lb) in a.lines.iter().zip(b.lines.iter()) {
        assert_eq!(la.texts.len(), lb.texts.len());
        for (ta, tb) in la.texts.iter().zip(lb.texts.iter()) {
            assert_eq!(ta.content, tb.content);
            assert_eq!(ta.line_index, tb.line_index);
        }
    }
}

#[test]
fn carriage_returns_are_stripped() {
    let c = Content::parse_input("a\r\nb", &test_font()).unwrap();
    assert_eq!(c.line_size(), 2);
    assert_eq!(c.lines[0].texts[0].content, "a");
    assert_eq!(c.lines[1].texts[0].content, "b");
}

#[test]
fn run_line_indices_follow_breaks() {
    let c = Content::parse_input("a<br>b", &test_font()).unwrap();
    assert_eq!(c.lines[0].texts[0].line_index, 1);
    assert_eq!(c.lines[1].texts[0].line_index, 2);
}

#[test]
fn alignment_tags_set_explicit_alignment() {
    let c = Content::parse_input("<l>a</l><c>b</c><r>d</r>", &test_font()).unwrap();
    let runs = &c.lines[0].texts;
    assert_eq!(runs.len(), 3);
    assert!(matches!(runs[0].alignment, Some(Alignment::Left)));
    assert!(matches!(runs[1].alignment, Some(Alignment::Center)));
    assert!(matches!(runs[2].alignment, Some(Alignment::Right)));
}

#[test]
fn style_is_inherited_and_copied_on_descent() {
    let c = Content::parse_input("<l><font size=\"40\">a</font>b</l>c", &test_font()).unwrap();
    let runs = &c.lines[0].texts;
    assert_eq!(runs.len(), 3);
    assert_eq!(runs[0].font_size, 40_000);
    assert!(matches!(runs[0].alignment, Some(Alignment::Left)));
    // the sibling after the font element keeps the inherited size
    assert_eq!(runs[1].font_size, 120_000);
    assert!(matches!(runs[1].alignment, Some(Alignment::Left)));
    // the sibling outside the alignment tag keeps the defaults
    assert_eq!(runs[2].font_size, 120_000);
    assert!(runs[2].alignment.is_none());
}

#[test]
fn font_attributes_override_fields() {
    let c = Content::parse_input(
        "<font size=\"64\" color=\"#102030\" background=\"#00000000\" family=\"Demo\" weight=\"bold\" style=\"italic\">t</font>",
        &test_font(),
    )
    .unwrap();
    let t = &c.lines[0].texts[0];
    assert_eq!(t.font_size, 64_000);
    assert_eq!(t.font_color.red, 16);
    assert_eq!(t.font_color.green, 32);
    assert_eq!(t.font_color.blue, 48);
    assert_eq!(t.font_color.alpha, 255);
    assert_eq!(t.background_color.alpha, 0);
    assert_eq!(t.font_id.family_name, "Demo");
    assert!(matches!(t.font_id.weight, Weight::Bold));
    assert!(matches!(t.font_id.style, Style::Italic));
}

#[test]
fn named_css_color_is_parsed() {
    let c = Content::parse_input("<font color=\"red\">t</font>", &test_font()).unwrap();
    let t = &c.lines[0].texts[0];
    assert_eq!(t.font_color.red, 255);
    assert_eq!(t.font_color.green, 0);
    assert_eq!(t.font_color.blue, 0);
    assert_eq!(t.font_color.alpha, 255);
}

#[test]
fn unknown_elements_are_transparent() {
    let c = Content::parse_input("<x>a</x>", &test_font()).unwrap();
    assert_eq!(c.line_size(), 1);
    assert_eq!(c.lines[0].texts[0].content, "a");
}

#[test]
fn default_style_fields() {
    let c = Content::parse_input("a", &test_font()).unwrap();
    let t = &c.lines[0].texts[0];
    assert_eq!(t.font_size, 120_000);
    assert_eq!((t.font_color.red, t.font_color.green, t.font_color.blue, t.font_color.alpha), (0, 0, 0, 255));
    assert_eq!(
        (t.background_color.red, t.background_color.green, t.background_color.blue, t.background_color.alpha),
        (255, 255, 255, 255),
    );
    assert_eq!(t.font_id.family_name, "TestFamily");
    assert!(t.metrics.is_none());
    assert!(t.alignment.is_none());
}

#[test]
fn invalid_size_is_a_fatal_attribute_error() {
    let r = Content::parse_input("<font size=\"abc\">t</font>", &test_font());
    assert_eq!(r.err().unwrap(), MarkupError::InvalidAttribute(AttrKind::Size));
}

#[test]
fn invalid_color_is_a_fatal_attribute_error() {
    let r = Content::parse_input("<font color=\"nosuchcolor\">t</font>", &test_font());
    assert_eq!(r.err().unwrap(), MarkupError::InvalidAttribute(AttrKind::Color));
}

#[test]
fn invalid_background_is_a_fatal_attribute_error() {
    let r = Content::parse_input("<font background=\"nosuchcolor\">t</font>", &test_font());
    assert_eq!(r.err().unwrap(), MarkupError::InvalidAttribute(AttrKind::Background));
}

#[test]
fn fractional_size_is_kept_in_thousandths() {
    let c = Content::parse_input("<font size=\"40.5\">t</font>", &test_font()).unwrap();
    assert_eq!(c.lines[0].texts[0].font_size, 40_500);
    let c = Content::parse_input("<font size=\".5\">t</font>", &test_font()).unwrap();
    assert_eq!(c.lines[0].texts[0].font_size, 500);
    let c = Content::parse_input("<font size=\"12.\">t</font>", &test_font()).unwrap();
    assert_eq!(c.lines[0].texts[0].font_size, 12_000);
    // fraction digits beyond the size resolution are cut
    let c = Content::parse_input("<font size=\"1.23456\">t</font>", &test_font()).unwrap();
    assert_eq!(c.lines[0].texts[0].font_size, 1_234);
}

#[test]
fn size_at_the_representable_limit_parses() {
    let c = Content::parse_input("<font size=\"4294967.295\">t</font>", &test_font()).unwrap();
    assert_eq!(c.lines[0].texts[0].font_size, u32::MAX);
}

#[test]
fn size_beyond_the_representable_limit_is_rejected() {
    let r = Content::parse_input("<font size=\"4294967.296\">t</font>", &test_font());
    assert_eq!(r.err().unwrap(), MarkupError::InvalidAttribute(AttrKind::Size));
    let r = Content::parse_input("<font size=\"4294968\">t</font>", &test_font());
    assert_eq!(r.err().unwrap(), MarkupError::InvalidAttribute(AttrKind::Size));
}

#[test]
fn size_with_two_points_or_a_sign_is_rejected() {
    let r = Content::parse_input("<font size=\"1.2.3\">t</font>", &test_font());
    assert_eq!(r.err().unwrap(), MarkupError::InvalidAttribute(AttrKind::Size));
    let r = Content::parse_input("<font size=\"-4\">t</font>", &test_font());
    assert_eq!(r.err().unwrap(), MarkupError::InvalidAttribute(AttrKind::Size));
    let r = Content::parse_input("<font size=\".\">t</font>", &test_font());
    assert_eq!(r.err().unwrap(), MarkupError::InvalidAttribute(AttrKind::Size));
}

#[test]
fn valueless_attribute_is_ignored() {
    let c = Content::parse_input("<font size>t</font>", &test_font()).unwrap();
    assert_eq!(c.lines[0].texts[0].font_size, 120_000);
}

#[test]
fn malformed_markup_is_fatal() {
    let r = Content::parse_input("<div></div><body></body>", &test_font());
    assert_eq!(r.err().unwrap(), MarkupError::InvalidMarkup);
}

#[test]
fn empty_input_is_one_empty_line() {
    let c = Content::parse_input("", &test_font()).unwrap();
    assert_eq!(c.line_size(), 1);
    assert!(c.lines[0].texts.is_empty());
}
