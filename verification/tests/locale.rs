use dsh_desktop::locale::{
    get_ui_locale, parse_locale_preference, read_dsh_locale, tr, TextLanguage,
};

#[test]
fn preference_en() {
    assert_eq!(parse_locale_preference("locale:\n  preference: en\n"), Some(true));
}

#[test]
fn preference_zh() {
    assert_eq!(parse_locale_preference("locale:\n  preference: zh\n"), Some(false));
}

#[test]
fn missing_block_yields_none() {
    assert_eq!(parse_locale_preference("ui-theme:\n  preference: dark\n"), None);
}

#[test]
fn block_ends_at_next_top_level_key() {
    let text = "locale:\n  preference: en\nother:\n  preference: zh\n";
    assert_eq!(parse_locale_preference(text), Some(true));
}

#[test]
fn quoted_value_with_comment() {
    assert_eq!(parse_locale_preference("locale:\n  preference: 'en' # web ui\n"), Some(true));
}

#[test]
fn file_like_real_settings() {
    let text = "beast-tamer:\n  lang: zh\npermission:\n  defaultPreset: danger-full-access\nlocale:\n  preference: en\n";
    assert_eq!(parse_locale_preference(text), Some(true));
}

#[test]
fn preference_of_another_block_does_not_count() {
    assert_eq!(parse_locale_preference("locale:\n  other: 1\nui:\n  preference: en\n"), None);
}

#[test]
fn blank_line_does_not_end_the_block() {
    assert_eq!(parse_locale_preference("locale:\n\n  preference: en\n"), Some(true));
}

#[test]
fn double_quotes_and_tabs() {
    assert_eq!(parse_locale_preference("locale:\r\n\tpreference:\t\"en-US\"\r\n"), Some(true));
}

#[test]
fn missing_settings_mean_chinese() {
    assert!(!read_dsh_locale(None));
    assert!(!read_dsh_locale(Some("")));
    assert!(read_dsh_locale(Some("locale:\n  preference: en")));
    assert_eq!(get_ui_locale(None), "zh");
    assert_eq!(get_ui_locale(Some("locale:\n  preference: en")), "en");
}

#[test]
fn unknown_language_yields_none() {
    assert_eq!(parse_locale_preference("locale:\n  preference: fr\n"), None);
    assert_eq!(parse_locale_preference("locale:\n  preference:\n"), None);
    assert_eq!(parse_locale_preference("locale:\n  preference: fr\n  preference: en\n"), None);
    assert_eq!(parse_locale_preference("locale:\n  preference: zh-CN\n"), Some(false));
    assert!(!read_dsh_locale(Some("locale:\n  preference: fr")));
    assert_eq!(get_ui_locale(Some("locale:\n  preference: fr")), "zh");
}

#[test]
fn language_is_read_once() {
    let mut language = TextLanguage::new();
    assert_eq!(language.english, None);
    assert!(language.is_english(Some("locale:\n  preference: en")));
    assert_eq!(language.english, Some(true));
    assert!(language.is_english(Some("locale:\n  preference: zh")));
    assert!(language.is_english(None));
    let mut language = TextLanguage::new();
    assert!(!language.is_english(None));
    assert!(!language.is_english(Some("locale:\n  preference: en")));
}

#[test]
fn tr_picks_the_language() {
    assert_eq!(tr(true, "Quit", "退出"), "Quit");
    assert_eq!(tr(false, "Quit", "退出"), "退出");
}
