use language_codes::code::{lang, LanguageCode};
use language_codes::languages;
use language_codes::matching::match_lists_with_cutoff;

#[test]
fn test_match_supported_exact_precedence() {
    // An exact match wins with distance 0 even when it stands late in
    // the supported list.
    let desired = lang("zh-CN");
    let supported: Vec<LanguageCode> = vec![lang("zh-TW"), lang("ja"), lang("zh-Hans-CN")];
    let (best, dist) = desired.match_supported(&supported);
    assert_eq!(dist, 0);
    assert_eq!(best, lang("zh-Hans-CN"));
}

#[test]
fn test_match_supported_equal_beats_earlier_equivalent() {
    // `en` maximizes to en-Latn-US too, but the element equal to the
    // desired code wins even though it stands later.
    let desired = lang("en-Latn-US");
    let supported: Vec<LanguageCode> = vec![lang("en"), lang("en-Latn-US")];
    let (best, dist) = desired.match_supported(&supported);
    assert_eq!(best, lang("en-Latn-US"));
    assert_eq!(dist, 0);
}

#[test]
fn test_match_supported_closest() {
    let desired = lang("en-GB");
    let supported: Vec<LanguageCode> = vec![lang("ja"), lang("en-US"), lang("fr")];
    let (best, dist) = desired.match_supported(&supported);
    assert_eq!(best, lang("en-US"));
    assert_eq!(dist, 6);
}

#[test]
fn test_match_supported_none_acceptable() {
    let desired = lang("en");
    let supported: Vec<LanguageCode> = vec![lang("ja"), lang("ko")];
    let (best, dist) = desired.match_supported(&supported);
    assert_eq!(best, languages::unknown());
    assert_eq!(dist, 1000);
}

#[test]
fn test_match_supported_with_cutoff_equal_element() {
    let desired = lang("fr");
    let supported: Vec<LanguageCode> = vec![lang("de"), lang("fr")];
    let (best, dist) = desired.match_supported_with_cutoff(25, &supported);
    assert_eq!(best, lang("fr"));
    assert_eq!(dist, 0);
}

#[test]
fn test_match_desired_rank_penalty() {
    // The supported language prefers the earlier desired entry when
    // the later one is no more than the rank penalty better.
    let supported = lang("en");
    let desired: Vec<LanguageCode> = vec![lang("ja"), lang("en-GB")];
    let (best, dist) = supported.match_desired(&desired);
    assert_eq!(best, lang("en-GB"));
    assert_eq!(dist, 6);
}

#[test]
fn test_match_desired_with_cutoff() {
    let supported = lang("es");
    let desired: Vec<LanguageCode> = vec![lang("es-419"), lang("en")];
    let (best, dist) = supported.match_desired_with_cutoff(10, &desired);
    assert_eq!(best, lang("es-419"));
    assert!(dist > 0 && dist < 10);
}

#[test]
fn test_match_lists() {
    let desired: Vec<LanguageCode> = vec![lang("ta"), lang("en-GB")];
    let supported: Vec<LanguageCode> = vec![lang("en-US")];
    let (best, dist) = match_lists_with_cutoff(5, 25, &desired, &supported);
    assert_eq!(best, lang("en-GB"));
    assert_eq!(dist, 6);
}

#[test]
fn test_match_lists_nothing_acceptable() {
    let desired: Vec<LanguageCode> = vec![lang("en")];
    let supported: Vec<LanguageCode> = vec![lang("ja")];
    let (best, dist) = match_lists_with_cutoff(5, 25, &desired, &supported);
    assert_eq!(best, languages::unknown());
    assert_eq!(dist, 1000);
}

#[test]
fn test_find_match_first_wins_ties() {
    let desired = lang("en");
    // Both supported codes lie at the same distance; the first wins.
    let supported: Vec<LanguageCode> = vec![lang("en-GB"), lang("en-001")];
    let (best, dist) = desired.find_match(0, 25, &supported);
    assert_eq!(best, lang("en-GB"));
    assert!(dist > 0);
}
