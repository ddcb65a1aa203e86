use dfi18n::game::{current_lang_tag, get_lang_tag_mut, mod_version, os_platform, set_game_info, version, LangState};
use dfi18n::translator::{
    do_translate, parse_tags, reset, should_skip_translation, translate, CacheOutcome, SimpleDictionaries,
    TextAlignment, TranslationCaches, TranslationResponse,
};

#[test]
fn skip_rules() {
    assert!(should_skip_translation("a", "50.13"));
    assert!(should_skip_translation("", "50.13"));
    assert!(!should_skip_translation("é", "50.13"));
    assert!(should_skip_translation("FPS: 30 (40)", "50.13"));
    assert!(should_skip_translation("123, 456.", "50.13"));
    assert!(!should_skip_translation("Hello", "50.13"));
    assert!(!should_skip_translation("50.13", "50.13"));
    assert!(should_skip_translation("50.14", "50.13"));
}

#[test]
fn tags_are_parsed() {
    let tags = parse_tags("[ALIGNMENT:RIGHT][X:Y] junk [X:Z]");
    assert_eq!(tags, vec![("ALIGNMENT".to_string(), "RIGHT".to_string()), ("X".to_string(), "Z".to_string())]);
    assert_eq!(parse_tags("no tags"), vec![]);
    assert_eq!(parse_tags("[A:B:C]"), vec![]);
}

#[test]
fn dictionaries_translate() {
    let mut d = SimpleDictionaries::new();
    d.ensure_dict("zh");
    assert!(d.translate("zh", "Hello").is_none());
    d.add_entry("zh", "Hello".to_string(), "你好".to_string(), "[ALIGNMENT:CENTER]");
    d.add_entry("zh", "Bye".to_string(), "再见".to_string(), "");
    let r = d.translate("zh", "Hello").unwrap();
    assert_eq!(r.translated, "你好");
    assert_eq!(r.alignment, TextAlignment::Center);
    assert_eq!(d.translate("zh", "Bye").unwrap().alignment, TextAlignment::Left);
    assert!(d.translate("ja", "Hello").is_none());
    d.add_entry("zh", "Hello".to_string(), "您好".to_string(), "[ALIGNMENT:RIGHT]");
    let r = d.translate("zh", "Hello").unwrap();
    assert_eq!(r.translated, "您好");
    assert_eq!(r.alignment, TextAlignment::Right);
}

#[test]
fn cache_answers_requests() {
    let mut c = TranslationCaches::new();
    let no_dicts = SimpleDictionaries::new();
    assert!(matches!(translate(&mut c, &no_dicts, "zh", "k", "Hello"), CacheOutcome::Started));
    assert!(matches!(translate(&mut c, &no_dicts, "zh", "k", "Hello"), CacheOutcome::Cached(None)));
    c.record(
        "zh",
        "k",
        Some(TranslationResponse { translated: "好".to_string(), alignment: TextAlignment::Left }),
    );
    match translate(&mut c, &no_dicts, "zh", "k", "Hello") {
        CacheOutcome::Cached(Some(r)) => assert_eq!(r.translated, "好"),
        _ => panic!("expected a cached translation"),
    }
    assert!(matches!(translate(&mut c, &no_dicts, "ja", "k", "Hello"), CacheOutcome::Started));
    let mut d = SimpleDictionaries::new();
    reset(&mut d, &mut c);
    assert!(matches!(translate(&mut c, &no_dicts, "zh", "k", "Hello"), CacheOutcome::Started));
}

#[test]
fn version_string_gets_mod_info() {
    let info = set_game_info("linux".to_string(), "x64".to_string(), "50.13".to_string(), "1.2".to_string());
    assert_eq!(version(&info), "50.13");
    assert_eq!(os_platform(&info), "linux-x64");
    assert_eq!(mod_version(&info), "1.2");
    let d = SimpleDictionaries::new();
    let r = do_translate("50.13", &info, &d, "zh", None).unwrap();
    assert_eq!(r.translated, "50.13 + dfi18n-linux-x64 v1.2");
    assert_eq!(r.alignment, TextAlignment::Left);
}

#[test]
fn translation_order() {
    let info = set_game_info("linux".to_string(), "x64".to_string(), "50.13".to_string(), "1.2".to_string());
    let mut d = SimpleDictionaries::new();
    d.add_entry("zh", "Hello".to_string(), "你好".to_string(), "");
    assert_eq!(do_translate("Hello", &info, &d, "zh", Some("規則".to_string())).unwrap().translated, "你好");
    assert_eq!(do_translate("Bye", &info, &d, "zh", Some("規則".to_string())).unwrap().translated, "規則");
    assert!(do_translate("Bye", &info, &d, "zh", None).is_none());
}

#[test]
fn language_tags() {
    let mut s = LangState::new();
    assert_eq!(current_lang_tag(&s), "en");
    *get_lang_tag_mut(&mut s) = Some("zh".to_string());
    assert_eq!(current_lang_tag(&s), "zh");
}

#[test]
fn dictionary_text_is_answered_at_once() {
    let mut c = TranslationCaches::new();
    let mut d = SimpleDictionaries::new();
    d.ensure_dict("zh");
    d.add_entry("zh", "Hello".to_string(), "您好".to_string(), "");
    match translate(&mut c, &d, "zh", "k", "Hello") {
        CacheOutcome::Dictionary(r) => assert_eq!(r.translated, "您好"),
        _ => panic!("expected the dictionary's translation"),
    }
    // the cache was not touched: other text still starts a translation
    assert!(matches!(translate(&mut c, &d, "zh", "k", "Bye"), CacheOutcome::Started));
    assert!(matches!(translate(&mut c, &d, "zh", "k", "Bye"), CacheOutcome::Cached(None)));
    // dictionary text is answered even where the cache holds the request
    assert!(matches!(translate(&mut c, &d, "zh", "k", "Hello"), CacheOutcome::Dictionary(_)));
    assert!(matches!(translate(&mut c, &d, "ja", "k", "Hello"), CacheOutcome::Started));
}

#[test]
fn tags_follow_the_tag_grammar() {
    let pair = |k: &str, v: &str| (k.to_string(), v.to_string());
    assert_eq!(parse_tags("[[K:V]"), vec![pair("K", "V")]);
    assert_eq!(parse_tags("[a]b:c]"), vec![pair("a]b", "c")]);
    assert_eq!(parse_tags("[a:b:c][k:v]"), vec![pair("k", "v")]);
    assert_eq!(parse_tags("[:v][k:][k:w]"), vec![pair("k", "w")]);
    assert_eq!(parse_tags("[k:a[b]"), vec![pair("k", "a[b")]);
}
