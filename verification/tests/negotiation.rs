use uniquant::locale::Locale;
use uniquant::negotiate::{negotiate, parse_qvalue};

fn loc(tag: &str) -> Locale {
    Locale::parse(tag).unwrap()
}

fn supported(tags: &[&str]) -> Vec<Locale> {
    tags.iter().map(|t| loc(t)).collect()
}

#[test]
fn negotiation_returns_supported_member() {
    let sup = supported(&["en", "zh-CN"]);
    let def = loc("en");
    let headers = [
        "fr-FR,de;q=0.5",
        "en-US,en;q=0.9,zh-CN;q=0.8",
        "zh-CN",
        "",
        "???",
        "  zh-cn ; q=0.3 , en ; q=0.2",
        "*;q=0.1,ja",
    ];
    for h in headers {
        let r = negotiate(h, &sup, &def);
        assert!(sup.iter().any(|s| s.eq_tag(&r)), "header {:?}", h);
    }
}

#[test]
fn exact_match_wins_at_higher_quality() {
    let sup = supported(&["en", "zh-CN"]);
    let def = loc("en");
    let r = negotiate("zh;q=0.5,zh-CN;q=0.9", &sup, &def);
    assert!(r.eq_tag(&loc("zh-CN")));
}

#[test]
fn primary_subtag_fallback_when_exact_absent() {
    let sup = supported(&["en", "zh"]);
    let def = loc("en");
    let r = negotiate("zh-CN;q=0.1,zh;q=0.9", &sup, &def);
    assert!(r.eq_tag(&loc("zh")));
}

#[test]
fn requested_region_matches_bare_primary() {
    // zh-HK has no exact match; the first supported locale sharing the
    // primary subtag wins.
    let sup = supported(&["en", "zh"]);
    let def = loc("en");
    let r = negotiate("zh-HK", &sup, &def);
    assert!(r.eq_tag(&loc("zh")));
}

#[test]
fn bare_primary_matches_supported_region() {
    let sup = supported(&["en", "zh-CN"]);
    let def = loc("en");
    let r = negotiate("zh", &sup, &def);
    assert!(r.eq_tag(&loc("zh-CN")));
}

#[test]
fn empty_header_yields_default() {
    let sup = supported(&["en", "zh-CN"]);
    let def = loc("en");
    let r = negotiate("", &sup, &def);
    assert!(r.eq_tag(&def));
}

#[test]
fn malformed_header_yields_default() {
    let sup = supported(&["en", "zh-CN"]);
    let def = loc("en");
    for h in ["???", "*", "123", "toolonglang", ";;q=0.5", "zh_CN"] {
        let r = negotiate(h, &sup, &def);
        assert!(r.eq_tag(&def), "header {:?}", h);
    }
}

#[test]
fn malformed_entries_are_dropped_not_fatal() {
    let sup = supported(&["en", "zh-CN"]);
    let def = loc("en");
    // The malformed entries are skipped; the valid one still matches.
    let r = negotiate("???,zh-CN;q=0.4,*", &sup, &def);
    assert!(r.eq_tag(&loc("zh-CN")));
}

#[test]
fn omitted_quality_defaults_to_one() {
    let sup = supported(&["en", "zh-CN"]);
    let def = loc("zh-CN");
    // "en" with implied q=1.0 beats zh-CN with q=0.9.
    let r = negotiate("zh-CN;q=0.9,en", &sup, &def);
    assert!(r.eq_tag(&loc("en")));
}

#[test]
fn equal_quality_prefers_first_listed() {
    let sup = supported(&["en", "zh-CN"]);
    let def = loc("en");
    let r = negotiate("zh-CN;q=0.8,en;q=0.8", &sup, &def);
    assert!(r.eq_tag(&loc("zh-CN")));
}

#[test]
fn entry_with_bad_quality_is_dropped() {
    let sup = supported(&["en", "zh-CN"]);
    let def = loc("en");
    // zh-CN's quality is malformed, so only en remains.
    let r = negotiate("zh-CN;q=1.5,en;q=0.2", &sup, &def);
    assert!(r.eq_tag(&loc("en")));
}

#[test]
fn locale_tags_are_canonicalized() {
    let l = Locale::parse("ZH-cn").unwrap();
    assert!(l.eq_tag(&loc("zh-CN")));
    let m = Locale::parse("EN").unwrap();
    assert!(m.eq_tag(&loc("en")));
}

#[test]
fn locale_grammar_rejects_bad_tags() {
    for t in ["", "-", "zh-", "-CN", "zh--CN", "abcdefghi", "z1", "zh-C", "zh-CHINA", "zh-12"] {
        assert!(Locale::parse(t).is_none(), "tag {:?}", t);
    }
    for t in ["zh", "zh-CN", "abcdefgh", "de-123", "yue-HK"] {
        assert!(Locale::parse(t).is_some(), "tag {:?}", t);
    }
}

#[test]
fn quality_grammar_scales_to_thousandths() {
    let q = |s: &str| parse_qvalue(&s.chars().collect());
    assert_eq!(q("0"), Some(0));
    assert_eq!(q("1"), Some(1000));
    assert_eq!(q("0.5"), Some(500));
    assert_eq!(q("0.90"), Some(900));
    assert_eq!(q("0.125"), Some(125));
    assert_eq!(q("1.000"), Some(1000));
    assert_eq!(q("0."), Some(0));
    assert_eq!(q("1.001"), None);
    assert_eq!(q("2"), None);
    assert_eq!(q("0.1234"), None);
    assert_eq!(q(""), None);
    assert_eq!(q("x"), None);
}

#[test]
fn trailing_and_doubled_commas_are_harmless() {
    let sup = supported(&["en", "zh-CN"]);
    let def = loc("en");
    let r = negotiate("zh-CN;q=0.8,,", &sup, &def);
    assert!(r.eq_tag(&loc("zh-CN")));
    let r2 = negotiate(",", &sup, &def);
    assert!(r2.eq_tag(&def));
}

#[test]
fn whitespace_around_entries_is_trimmed() {
    let sup = supported(&["en", "zh-CN"]);
    let def = loc("en");
    let r = negotiate("\t zh-CN \t; q=0.7 , en;q=0.1", &sup, &def);
    assert!(r.eq_tag(&loc("zh-CN")));
}
