use language_codes::display::unparse_tag;
use language_codes::fields::{broader_tags, update_tag, EMPTY_CODE, MISSING_CODE};
use language_codes::parser::parse_tag;
use language_codes::subtag::encode_subtag;

fn round_trip(tag: &str) {
    let val = parse_tag(tag).unwrap();
    let decoded = unparse_tag(val);
    assert_eq!(tag, &decoded)
}

#[test]
fn test_subtag() {
    assert_eq!(encode_subtag("999", 3), 999);
    assert_eq!(encode_subtag("aa", 3), 2056);
}

#[test]
fn test_parse() {
    round_trip("zh-Hant-TW");
    round_trip("en");
    round_trip("und");
    round_trip("pt-BR");
    round_trip("und-Vaii");
    round_trip("es-419");
    round_trip("ine-pro");
    round_trip("roa-opt-pro");
}

#[test]
fn test_subtag_decode_shapes() {
    // A numeric subtag below 1000 decodes zero-padded to three digits.
    assert_eq!(unparse_tag(parse_tag("en-042").unwrap()), "en-042");
    // The empty code prints as the undetermined tag.
    assert_eq!(unparse_tag(EMPTY_CODE), "und");
    // The missing-tag sentinel decodes to `mis`.
    assert_eq!(unparse_tag(MISSING_CODE), "mis");
}

#[test]
fn test_missing_code_paths() {
    assert_eq!(parse_tag("i-whatever").unwrap(), MISSING_CODE);
    assert_eq!(parse_tag("x-private").unwrap(), MISSING_CODE);
}

#[test]
fn test_extension_stops_parsing() {
    assert_eq!(
        parse_tag("en-GB-u-ca-islamic").unwrap(),
        parse_tag("en-GB").unwrap()
    );
    assert_eq!(
        parse_tag("fr-x-anything-goes").unwrap(),
        parse_tag("fr").unwrap()
    );
}

#[test]
fn test_variant_presence_only() {
    // Variants are consumed but leave no bits behind.
    assert_eq!(parse_tag("sl-rozaj").unwrap(), parse_tag("sl").unwrap());
    assert_eq!(parse_tag("de-1901").unwrap(), parse_tag("de").unwrap());
}

#[test]
fn test_update_tag() {
    let en_us = parse_tag("en-US").unwrap();
    let fr = parse_tag("fr").unwrap();
    assert_eq!(unparse_tag(update_tag(en_us, fr)), "fr-US");
    let zh_hant = parse_tag("zh-Hant").unwrap();
    assert_eq!(unparse_tag(update_tag(en_us, zh_hant)), "zh-Hant-US");
}

#[test]
fn test_broader_tags() {
    let full = parse_tag("zh-Hant-TW").unwrap();
    let broader: Vec<String> = broader_tags(full).into_iter().map(unparse_tag).collect();
    assert_eq!(broader, vec!["zh-TW", "zh-Hant", "zh", "und-TW", "und-Hant"]);
}

#[test]
fn test_case_and_underscore_normalization() {
    assert_eq!(parse_tag("EN_us").unwrap(), parse_tag("en-US").unwrap());
    assert_eq!(unparse_tag(parse_tag("ZH_HANT_TW").unwrap()), "zh-Hant-TW");
}
