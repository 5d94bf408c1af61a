use tetanes::localization::{Language, LocalizedTexts, Localization, TextTree};

fn branch(entries: Vec<(&str, TextTree)>) -> TextTree {
    TextTree::Branch(entries.into_iter().map(|(k, v)| (k.to_string(), v)).collect())
}

fn text(s: &str) -> TextTree {
    TextTree::Text(s.to_string())
}

fn translations() -> Localization {
    let en = branch(vec![
        ("ui", branch(vec![("quit", text("Quit"))])),
        ("menu", branch(vec![("about_text", text("About")), ("count", TextTree::Other)])),
    ]);
    let zh = branch(vec![
        ("ui", branch(vec![("quit", text("退出"))])),
        ("menu", branch(vec![("about_text", text("关于"))])),
    ]);
    Localization::from_trees(Some(en), Some(zh))
}

const EN_JSON: &str = r#"{"ui": {"quit": "Quit", "version": 2}, "menu": {"about_text": "About", "items": ["a", "b"]}}"#;
const ZH_JSON: &str = r#"{"ui": {"quit": "退出"}, "menu": {"about_text": "关于"}}"#;

#[test]
fn test_translations() {
    let mut localization = Localization::new(EN_JSON.as_bytes(), ZH_JSON.as_bytes());
    let mut cache = LocalizedTexts::new();

    localization.set_language(Language::English);
    assert_eq!(localization.get_text("/ui/quit", &mut cache), "Quit");
    assert_eq!(localization.get_text("/menu/about_text", &mut cache), "About");

    localization.set_language(Language::Chinese);
    assert_eq!(localization.get_text("/ui/quit", &mut cache), "退出");
    assert_eq!(localization.get_text("/menu/about_text", &mut cache), "关于");

    assert_eq!(localization.get_text("/nonexistent/path", &mut cache), "/nonexistent/path");
}

#[test]
fn parsed_non_text_values_are_not_texts() {
    let mut localization = Localization::new(EN_JSON.as_bytes(), ZH_JSON.as_bytes());
    localization.set_language(Language::English);
    let mut cache = LocalizedTexts::new();
    assert_eq!(localization.get_text("/ui/version", &mut cache), "ui/version");
    assert_eq!(localization.get_text("/menu/items", &mut cache), "menu/items");
    assert_eq!(localization.get_text("/menu/items/0", &mut cache), "/menu/items/0");
}

#[test]
fn unparsable_translation_is_dropped() {
    let mut localization = Localization::new(b"{not json", ZH_JSON.as_bytes());
    localization.set_language(Language::English);
    let mut cache = LocalizedTexts::new();
    assert_eq!(localization.get_text("/ui/quit", &mut cache), "ui/quit");
    localization.set_language(Language::Chinese);
    assert_eq!(localization.get_text("/ui/quit", &mut cache), "退出");
}

#[test]
fn default_language_is_chinese() {
    assert_eq!(Language::default(), Language::Chinese);
    assert_eq!(translations().current_language(), Language::Chinese);
}

#[test]
fn found_text_is_cached_under_trimmed_path() {
    let mut localization = translations();
    localization.set_language(Language::English);
    let mut cache = LocalizedTexts::new();
    assert_eq!(localization.get_text("//ui/quit", &mut cache), "Quit");
    assert_eq!(cache.get_text("ui/quit"), Some("Quit".to_string()));
    assert_eq!(cache.get_text("//ui/quit"), None);
}

#[test]
fn cached_text_wins() {
    let localization = translations();
    let mut cache = LocalizedTexts::new();
    cache.insert("/ui/quit", "cached".to_string());
    assert_eq!(localization.get_text("/ui/quit", &mut cache), "cached");
}

#[test]
fn non_text_gives_path_and_is_cached() {
    let mut localization = translations();
    localization.set_language(Language::English);
    let mut cache = LocalizedTexts::new();
    assert_eq!(localization.get_text("/menu/count", &mut cache), "menu/count");
    assert_eq!(cache.get_text("menu/count"), Some("menu/count".to_string()));
    assert_eq!(localization.get_text("/menu", &mut cache), "menu");
}

#[test]
fn missing_path_is_not_cached() {
    let localization = translations();
    let mut cache = LocalizedTexts::new();
    assert_eq!(localization.get_text("ui/quit/more", &mut cache), "ui/quit/more");
    assert_eq!(cache.get_text("ui/quit/more"), None);
    assert_eq!(localization.get_text("", &mut cache), "");
}

#[test]
fn missing_language_gives_path() {
    let mut localization = Localization::from_trees(None, Some(text("x")));
    localization.set_language(Language::English);
    let mut cache = LocalizedTexts::new();
    assert_eq!(localization.get_text("/ui/quit", &mut cache), "ui/quit");
    assert_eq!(cache.get_text("ui/quit"), None);
}

#[test]
fn repeated_lookup_gives_same_text() {
    let mut localization = translations();
    localization.set_language(Language::English);
    let mut cache = LocalizedTexts::new();
    let first = localization.get_text("/menu/about_text", &mut cache);
    let second = localization.get_text("/menu/about_text", &mut cache);
    assert_eq!(first, second);
    assert_eq!(localization.get_text("menu/about_text", &mut cache), "About");
}

#[test]
fn cache_insert_get_clear() {
    let mut cache = LocalizedTexts::new();
    assert_eq!(cache.get_text("a"), None);
    cache.insert("a", "one".to_string());
    cache.insert("b", "two".to_string());
    cache.insert("a", "three".to_string());
    assert_eq!(cache.get_text("a"), Some("three".to_string()));
    assert_eq!(cache.get_text("b"), Some("two".to_string()));
    cache.clear();
    assert_eq!(cache.get_text("a"), None);
}
