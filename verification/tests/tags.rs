use language_codes::tag::{simplified_chinese_tag, LanguageTag, LanguageTagError};

fn parses_as(input: &str, result: &str) {
    let tag: LanguageTag = LanguageTag::parse(input).unwrap();
    assert_eq!(tag.to_string(), result.to_string());
}

#[test]
fn it_works() {
    let tag: LanguageTag = LanguageTag::empty();
    assert_eq!(tag.language_code(), "und");
}

#[test]
fn tag_test_parse() {
    let tag: LanguageTag = LanguageTag::parse("zh-hant-tw").unwrap();
    assert_eq!(tag.language_code(), "zh");
    assert_eq!(tag.get_script(), Some("Hant".to_string()));
    assert_eq!(tag.get_region(), Some("TW".to_string()));
    assert_eq!(tag.to_string(), "zh-Hant-TW".to_string());
}

#[test]
fn test_replacement() {
    parses_as("sh-ME", "sr-Latn-ME");
    parses_as("sh-Cyrl", "sr-Cyrl");
}

#[test]
fn test_named() {
    let tag: LanguageTag = LanguageTag::parse("zh-hans").unwrap();
    assert_eq!(tag, simplified_chinese_tag());
}

#[test]
fn test_tag_new_and_fields() {
    let tag = LanguageTag::new(Some("pt"), None, Some("BR"));
    assert_eq!(tag.language_code(), "pt");
    assert_eq!(tag.get_language(), Some("pt".to_string()));
    assert_eq!(tag.get_script(), None);
    assert_eq!(tag.get_region(), Some("BR".to_string()));
    assert_eq!(tag.to_string(), "pt-BR");
}

#[test]
fn test_tag_from_language_subtag() {
    let tag = LanguageTag::from_language_subtag("fr");
    assert_eq!(tag.to_string(), "fr");
}

#[test]
fn test_tag_errors() {
    assert_eq!(
        LanguageTag::parse("no^way"),
        Err(LanguageTagError::InvalidCharacter)
    );
    assert_eq!(
        LanguageTag::parse("en-"),
        Err(LanguageTagError::SubtagFormatError)
    );
}

#[test]
fn test_tag_whole_alias() {
    parses_as("no-bokmal", "nb");
    parses_as("zh-CN", "zh-Hans-CN");
    parses_as("i-hak", "hak");
}
