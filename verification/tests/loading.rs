use uniquant::backend::TranslationBackend;
use uniquant::locale::Locale;
use uniquant::store::{LoadError, RenderError, ResourceStore};
use uniquant::template::{Template, TranslateArgs};

fn src(name: &str, body: &str) -> (String, String) {
    (name.to_string(), body.to_string())
}

fn en_body() -> &'static str {
    "# english messages\n\
     error-not_found = Not found: {resource}/{identifier}\n\
     error-bad_request = Bad request: {message}.\n\
     greeting = Hello, {name}!\n"
}

fn zh_body() -> &'static str {
    "error-not_found = 未找到: {resource}/{identifier}\n\
     error-bad_request = 请求错误: {message}。\n\
     greeting = 你好，{name}！\n"
}

#[test]
fn round_trip_supported_locales() {
    let sources = vec![src("en", en_body()), src("zh-CN", zh_body())];
    let backend = TranslationBackend::load_resources(&sources, "en").unwrap();
    let supported = backend.supported_locales();
    assert_eq!(supported.len(), 2);
    assert!(supported.iter().any(|l| l.eq_tag(&Locale::parse("en").unwrap())));
    assert!(supported.iter().any(|l| l.eq_tag(&Locale::parse("zh-CN").unwrap())));
}

#[test]
fn removing_default_resource_fails_load() {
    let sources = vec![src("zh-CN", zh_body())];
    match TranslationBackend::load_resources(&sources, "en") {
        Err(LoadError::MissingDefaultLocale { tag }) => assert_eq!(tag, "en"),
        other => panic!("expected a missing default locale, got {:?}", other),
    }
}

#[test]
fn bad_resource_name_fails_load() {
    let sources = vec![src("en", en_body()), src("not a tag", "k = v\n")];
    match TranslationBackend::load_resources(&sources, "en") {
        Err(LoadError::InvalidLocaleTag { name }) => assert_eq!(name, "not a tag"),
        other => panic!("expected an invalid locale tag, got {:?}", other),
    }
}

#[test]
fn malformed_line_fails_whole_load() {
    let sources = vec![src("en", "error-not_found = ok\nno separator here\n")];
    match TranslationBackend::load_resources(&sources, "en") {
        Err(LoadError::InvalidResource { name }) => assert_eq!(name, "en"),
        other => panic!("expected an invalid resource, got {:?}", other),
    }
}

#[test]
fn unclosed_placeholder_fails_whole_load() {
    let sources = vec![src("en", "k = broken {placeholder\n")];
    assert!(matches!(
        TranslationBackend::load_resources(&sources, "en"),
        Err(LoadError::InvalidResource { .. })
    ));
}

#[test]
fn duplicate_key_fails_whole_load() {
    let sources = vec![src("en", "k = one\nk = two\n")];
    assert!(matches!(
        TranslationBackend::load_resources(&sources, "en"),
        Err(LoadError::InvalidResource { .. })
    ));
}

#[test]
fn duplicate_locale_fails_load() {
    // The same locale under differently-cased names is still a duplicate.
    let sources = vec![src("en", "k = one\n"), src("EN", "k = two\n")];
    match TranslationBackend::load_resources(&sources, "en") {
        Err(LoadError::DuplicateLocale { name }) => assert_eq!(name, "en"),
        other => panic!("expected a duplicate locale, got {:?}", other),
    }
}

#[test]
fn bad_default_tag_fails_load() {
    let sources = vec![src("en", "k = one\n")];
    match TranslationBackend::load_resources(&sources, "???") {
        Err(LoadError::InvalidDefaultTag { tag }) => assert_eq!(tag, "???"),
        other => panic!("expected an invalid default tag, got {:?}", other),
    }
}

#[test]
fn comments_and_blank_lines_are_skipped() {
    let sources = vec![src("en", "\n# a comment\n\n  \nk = value\n# another\n")];
    let backend = TranslationBackend::load_resources(&sources, "en").unwrap();
    let out = backend
        .translate("k", &Locale::parse("en").unwrap(), &TranslateArgs::new())
        .unwrap();
    assert_eq!(out, "value");
}

#[test]
fn exact_template_substitution() {
    let t = Template::parse("Not found: {resource}/{identifier}").unwrap();
    let args = TranslateArgs::new()
        .add("resource", "Instrument")
        .add("identifier", "7");
    assert_eq!(t.render(&args), "Not found: Instrument/7");
}

#[test]
fn missing_argument_renders_empty() {
    let t = Template::parse("Hello, {name}!").unwrap();
    assert_eq!(t.render(&TranslateArgs::new()), "Hello, !");
}

#[test]
fn closing_brace_is_literal() {
    let t = Template::parse("a} {x} }b").unwrap();
    let args = TranslateArgs::new().add("x", "X");
    assert_eq!(t.render(&args), "a} X }b");
}

#[test]
fn template_grammar_rejects_bad_placeholders() {
    assert!(Template::parse("open {name").is_none());
    assert!(Template::parse("empty {}").is_none());
    assert!(Template::parse("bad {na me}").is_none());
    assert!(Template::parse("{x}").is_some());
    assert!(Template::parse("").is_some());
}

#[test]
fn later_binding_replaces_earlier() {
    let args = TranslateArgs::new().add("k", "one").add("k", "two");
    assert_eq!(args.get("k").map(|s| s.as_str()), Some("two"));
    assert_eq!(args.len(), 1);
    assert!(args.contains_key("k"));
    assert!(!args.contains_key("other"));
    assert!(!args.is_empty());
    // A fresh key grows the list by one; a rebound key does not.
    let grown = args.add("other", "three");
    assert_eq!(grown.len(), 2);
    let same = grown.add("k", "four");
    assert_eq!(same.len(), 2);
}

#[test]
fn translate_renders_in_each_locale() {
    let sources = vec![src("en", en_body()), src("zh-CN", zh_body())];
    let backend = TranslationBackend::load_resources(&sources, "en").unwrap();
    let args = TranslateArgs::new().add("name", "Alice");
    let en = backend
        .translate("greeting", &Locale::parse("en").unwrap(), &args)
        .unwrap();
    let zh = backend
        .translate("greeting", &Locale::parse("zh-CN").unwrap(), &args)
        .unwrap();
    assert_eq!(en, "Hello, Alice!");
    assert_eq!(zh, "你好，Alice！");
}

#[test]
fn unsupported_locale_uses_default_bundle() {
    let sources = vec![src("en", en_body()), src("zh-CN", zh_body())];
    let backend = TranslationBackend::load_resources(&sources, "en").unwrap();
    let args = TranslateArgs::new().add("name", "Alice");
    let out = backend
        .translate("greeting", &Locale::parse("fr").unwrap(), &args)
        .unwrap();
    assert_eq!(out, "Hello, Alice!");
}

#[test]
fn missing_key_is_a_render_error() {
    let sources = vec![src("en", en_body())];
    let backend = TranslationBackend::load_resources(&sources, "en").unwrap();
    match backend.translate(
        "no-such-key",
        &Locale::parse("en").unwrap(),
        &TranslateArgs::new(),
    ) {
        Err(RenderError::MissingKey { key }) => assert_eq!(key, "no-such-key"),
        other => panic!("expected a missing key, got {:?}", other),
    }
}

#[test]
fn store_render_exact_reports_missing_locale() {
    let sources = vec![src("en", en_body())];
    let store = ResourceStore::load_from_sources(&sources).unwrap();
    match store.render_exact(
        &Locale::parse("fr").unwrap(),
        "greeting",
        &TranslateArgs::new(),
    ) {
        Err(RenderError::MissingLocale { locale }) => {
            assert!(locale.eq_tag(&Locale::parse("fr").unwrap()));
        }
        other => panic!("expected a missing locale, got {:?}", other),
    }
}

#[test]
fn set_locale_accepts_supported_and_refuses_unknown() {
    let sources = vec![src("en", en_body()), src("zh-CN", zh_body())];
    let mut backend = TranslationBackend::load_resources(&sources, "en").unwrap();
    assert!(backend.current_locale().eq_tag(&Locale::parse("en").unwrap()));
    backend.set_locale(&Locale::parse("zh-CN").unwrap()).unwrap();
    assert!(backend.current_locale().eq_tag(&Locale::parse("zh-CN").unwrap()));
    assert!(matches!(
        backend.set_locale(&Locale::parse("fr").unwrap()),
        Err(RenderError::MissingLocale { .. })
    ));
    assert!(backend.current_locale().eq_tag(&Locale::parse("zh-CN").unwrap()));
}

#[test]
fn store_render_exact_renders_without_fallback() {
    let sources = vec![src("en", en_body()), src("zh-CN", zh_body())];
    let store = ResourceStore::load_from_sources(&sources).unwrap();
    let args = TranslateArgs::new().add("name", "Bob");
    let out = store
        .render_exact(&Locale::parse("zh-CN").unwrap(), "greeting", &args)
        .unwrap();
    assert_eq!(out, "你好，Bob！");
}

#[test]
fn bundle_lookup_finds_loaded_keys() {
    let sources = vec![src("en", "a = first\nb = {x} second\n")];
    let store = ResourceStore::load_from_sources(&sources).unwrap();
    let bundle = &store.bundles[0].1;
    assert!(bundle.has_key("a"));
    assert!(bundle.has_key("b"));
    assert!(!bundle.has_key("c"));
    assert!(bundle.get("a").is_some());
    assert!(bundle.get("c").is_none());
}

#[test]
fn adjacent_placeholders_render_in_order() {
    let t = Template::parse("{a}{b}{a}").unwrap();
    let args = TranslateArgs::new().add("a", "1").add("b", "2");
    assert_eq!(t.render(&args), "121");
}
