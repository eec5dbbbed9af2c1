use language_codes::code::LanguageCode;
use language_codes::languages;
use language_codes::parser::LanguageCodeError;

fn parses_as(input: &str, result: &str) {
    let code: LanguageCode = LanguageCode::parse(input).unwrap();
    assert_eq!(code.to_string(), result);
}

fn maximizes_to(input: &str, result: &str) {
    let code: LanguageCode = LanguageCode::parse(input).unwrap();
    assert_eq!(code.maximize().to_string(), result);
}

fn minimizes_to(input: &str, result: &str) {
    let code: LanguageCode = LanguageCode::parse(input).unwrap();
    assert_eq!(code.minimize().to_string(), result);
}

fn check_distance(lang1: &str, lang2: &str, dist: i32) {
    let code1: LanguageCode = LanguageCode::parse(lang1).unwrap();
    let code2: LanguageCode = LanguageCode::parse(lang2).unwrap();
    assert_eq!(code1.match_distance(code2), dist)
}

#[test]
fn lib_test_parse() {
    let code: LanguageCode = LanguageCode::parse("zh-hant-tw").unwrap();
    assert_eq!(code.get_language(), Some("zh".to_string()));
    assert_eq!(code.get_script(), Some("Hant".to_string()));
    assert_eq!(code.get_region(), Some("TW".to_string()));
    assert_eq!(code.to_string(), "zh-Hant-TW");
}

#[test]
fn lib_test_replacement() {
    parses_as("sh-ME", "sr-Latn-ME");
    parses_as("sh-Cyrl", "sr-Cyrl");
    parses_as("sgn-be-fr", "sfb");
    parses_as("no-bokmal", "nb");
    parses_as("mn-Cyrl-MN", "mn-MN");
    parses_as("zh-CN", "zh-Hans-CN");
    parses_as("i-hak", "hak");
    parses_as("en-UK", "en-GB");
    parses_as("fra", "fr");
    parses_as("fre", "fr");
    parses_as("fi-zZZZ-zZ", "fi");
    parses_as("es-419", "es-419");
    parses_as("en-840", "en-US");
    parses_as("de-DD", "de-DE");
    parses_as("sh-QU", "sr-Latn-EU");
    parses_as("sh-Qaai", "sr-Zinh");
}

#[test]
fn lib_test_named() {
    let ref lcode: LanguageCode = languages::unknown();
    assert_eq!(lcode.language_subtag(), "und");

    let lcode: LanguageCode = LanguageCode::parse("und").unwrap();
    assert_eq!(lcode, languages::unknown());

    let lcode: LanguageCode = LanguageCode::parse("eng").unwrap();
    assert_eq!(lcode, languages::english());

    let lcode: LanguageCode = LanguageCode::parse("zh-hans").unwrap();
    assert_eq!(lcode, languages::simplified_chinese());

    let lcode: LanguageCode = LanguageCode::parse("zh-hant-hk").unwrap();
    assert_eq!(lcode, languages::hong_kong_chinese());

    assert_eq!(
        languages::brazilian_portuguese().language_only(),
        languages::portuguese()
    );
}

#[test]
fn test_maximize() {
    maximizes_to("en", "en-Latn-US");
    maximizes_to("ja-US", "ja-Jpan-US");
    maximizes_to("und", "en-Latn-US");
    maximizes_to("und-014", "sw-Latn-TZ");
    maximizes_to("und-Vaii", "vai-Vaii-LR");
}

#[test]
fn test_minimize() {
    minimizes_to("en-Latn-US", "en");
    minimizes_to("ja-Jpan", "ja");
    minimizes_to("ja-JP", "ja");
    minimizes_to("zh-Hant-TW", "zh-Hant");
    minimizes_to("en-Shaw-GB", "en-Shaw");
    minimizes_to("vai-Vaii-LR", "vai");
    minimizes_to("pt-Latn-PT", "pt-PT");
    minimizes_to("zh-Latn-US", "zh-Latn-US");
}

#[test]
fn test_distance() {
    check_distance("no", "no", 0);
    check_distance("no", "nb", 0);
    check_distance("en", "en-Latn", 0);
    check_distance("en-US", "en-PR", 4);
    check_distance("en-GB", "en-IN", 4);
    check_distance("en-US", "en-GB", 6);
    check_distance("ta", "en", 14);
    check_distance("mg", "fr", 14);
    check_distance("zh-Hans", "zh-Hant", 19);
    check_distance("zh-Hant", "zh-Hans", 23);
    check_distance("en", "en-Shaw", 46);
    check_distance("en", "ja", 124);
}

#[test]
fn test_distance_named() {
    assert_eq!(
        languages::norwegian_bokmal().match_distance(languages::norwegian()),
        1
    );
    assert_eq!(
        languages::american_english().match_distance(languages::british_english()),
        6
    );
    assert_eq!(
        languages::chinese().match_distance(languages::traditional_chinese()),
        19
    );
}

#[test]
fn test_maximize_idempotent_cases() {
    for tag in ["en", "und", "zh-Hant", "pt-BR", "und-014", "ine-pro"] {
        let m = LanguageCode::parse(tag).unwrap().maximize();
        assert_eq!(m.maximize(), m);
    }
}

#[test]
fn test_minimize_idempotent_cases() {
    for tag in ["en-Latn-US", "zh-Hant-TW", "pt-Latn-PT", "zh-Latn-US"] {
        let m = LanguageCode::parse(tag).unwrap().minimize();
        assert_eq!(m.minimize(), m);
    }
}

#[test]
fn test_max_min_fixpoint_cases() {
    for tag in ["en-Latn-US", "zh-Hant-TW", "ja-JP", "vai-Vaii-LR", "und"] {
        let c = LanguageCode::parse(tag).unwrap();
        assert_eq!(c.minimize().maximize(), c.maximize());
    }
}

#[test]
fn test_distance_zero_iff_same_maximum() {
    let a = LanguageCode::parse("no").unwrap();
    let b = LanguageCode::parse("nb").unwrap();
    assert_eq!(a.match_distance(b), 0);
    assert_eq!(a.maximize(), b.maximize());
    let c = LanguageCode::parse("en-US").unwrap();
    let d = LanguageCode::parse("en-GB").unwrap();
    assert!(c.match_distance(d) > 0);
    assert_ne!(c.maximize(), d.maximize());
}

#[test]
fn test_distance_bounds_cases() {
    for x in ["en", "ja", "zh-Hant", "und", "pt-BR", "ta"] {
        for y in ["en", "ja", "zh-Hans", "und-Vaii", "es-419", "mg"] {
            let a = LanguageCode::parse(x).unwrap();
            let b = LanguageCode::parse(y).unwrap();
            let d = a.match_distance(b);
            assert!(0 <= d && d <= 124);
        }
    }
}

#[test]
fn test_get_extlang() {
    let code = LanguageCode::parse("ine-pro").unwrap();
    assert_eq!(code.get_extlang(), Some("pro".to_string()));
    assert_eq!(code.to_string(), "ine-pro");
    let code = LanguageCode::parse("roa-opt-pro").unwrap();
    assert_eq!(code.get_extlang(), Some("opt-pro".to_string()));
    let code = LanguageCode::parse("en").unwrap();
    assert_eq!(code.get_extlang(), None);
}

#[test]
fn test_parse_errors() {
    match LanguageCode::parse("no^way") {
        Err(LanguageCodeError::InvalidCharacter(s)) => assert_eq!(s, "no^way"),
        other => panic!("expected an invalid-character error, got {:?}", other),
    }
    match LanguageCode::parse("en-") {
        Err(LanguageCodeError::SubtagFormatError(s)) => assert_eq!(s, "en-"),
        other => panic!("expected a subtag-format error, got {:?}", other),
    }
    match LanguageCode::parse("") {
        Err(LanguageCodeError::ParseError(s)) => assert_eq!(s, ""),
        other => panic!("expected a parse error, got {:?}", other),
    }
}

#[test]
fn test_broaden() {
    let code = LanguageCode::parse("zh-Hant-TW").unwrap();
    let broader: Vec<String> = code.broaden().into_iter().map(|c| c.to_string()).collect();
    assert_eq!(
        broader,
        vec!["zh-TW", "zh-Hant", "zh", "und-TW", "und-Hant", "und"]
    );
}

#[test]
fn test_lang_literal() {
    let code = language_codes::code::lang("pt-BR");
    assert_eq!(code, languages::brazilian_portuguese());
}
