use postergen::font::{FontError, FontId, FontLoader, LoadOutcome, Style, Weight};
use postergen::utils::MapNone;

fn key(name: &str) -> FontId {
    FontId { family_name: String::from(name), style: Style::Normal, weight: Weight::Normal }
}

#[test]
fn weight_parses_case_insensitively() {
    assert!(matches!(Weight::from_str("bold"), Weight::Bold));
    assert!(matches!(Weight::from_str("BOLD"), Weight::Bold));
    assert!(matches!(Weight::from_str("Light"), Weight::Light));
    assert!(matches!(Weight::from_str("anything"), Weight::Normal));
    assert!(matches!(Weight::from_str(""), Weight::Normal));
}

#[test]
fn style_parses_case_insensitively() {
    assert!(matches!(Style::from_str("italic"), Style::Italic));
    assert!(matches!(Style::from_str("Italic"), Style::Italic));
    assert!(matches!(Style::from_str("upright"), Style::Normal));
}

#[test]
fn pick_default_takes_the_first_cjk_capable_family() {
    let families = vec![
        String::from("Arial"),
        String::from("Microsoft YaHei"),
        String::from("Noto Kaiti SC"),
    ];
    let id = FontId::pick_default(&families).unwrap();
    assert_eq!(id.family_name, "Microsoft YaHei");
    assert!(matches!(id.style, Style::Normal));
    assert!(matches!(id.weight, Weight::Normal));
}

#[test]
fn pick_default_fails_without_a_cjk_family() {
    let families = vec![String::from("Arial"), String::from("Helvetica")];
    assert!(FontId::pick_default(&families).is_none());
}

#[test]
fn cache_returns_the_stored_handle() {
    let mut loader = FontLoader::new();
    assert!(loader.lookup(&key("A")).is_none());
    loader.store(key("A"), 3);
    assert_eq!(loader.lookup(&key("A")), Some(3));
    assert!(loader.lookup(&key("B")).is_none());
    let mut italic = key("A");
    italic.style = Style::Italic;
    assert!(loader.lookup(&italic).is_none());
}

#[test]
fn load_font_prefers_cache_then_primary_then_fallback() {
    let mut loader = FontLoader::new();
    // miss, primary loads
    let r = loader.load_font(&key("A"), LoadOutcome { primary: Some(1), fallback: Some(9) });
    assert_eq!(r, Ok(1));
    // hit: the outcome is ignored, the cached handle returns
    let r = loader.load_font(&key("A"), LoadOutcome { primary: Some(5), fallback: None });
    assert_eq!(r, Ok(1));
    // miss, primary fails, the default fallback substitutes
    let r = loader.load_font(&key("B"), LoadOutcome { primary: None, fallback: Some(9) });
    assert_eq!(r, Ok(9));
    assert_eq!(loader.lookup(&key("B")), Some(9));
}

#[test]
fn no_usable_font_is_fatal() {
    let mut loader = FontLoader::new();
    let r = loader.load_font(&key("Missing"), LoadOutcome { primary: None, fallback: None });
    assert_eq!(r, Err(FontError::NoUsableFont));
}

#[test]
fn map_none_runs_the_effect_only_when_absent() {
    let mut hits = 0;
    let some: Option<u32> = Some(4);
    let r = some.map_none(|| hits += 1);
    assert_eq!(r, Some(4));
    assert_eq!(hits, 0);
    let none: Option<u32> = None;
    let r = none.map_none(|| hits += 1);
    assert_eq!(r, None);
    assert_eq!(hits, 1);
}
