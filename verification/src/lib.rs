//! Parsing, normalization, and comparison of BCP 47 language tags.
//!
//! A language tag such as `zh-Hant-TW` is packed into a single `u64`
//! code with bitfields for the language, extlang, script, and region
//! subtags.  On top of that encoding the crate offers the CLDR-style
//! operations: alias substitution while parsing, likely-subtag
//! addition (`maximize`) and removal (`minimize`), a language-match
//! distance, and selection of the best supported locale for a list of
//! desired locales.
//!
//! The embedded data tables hold a subset of the CLDR data (see
//! `tables`); outside the covered languages the operations follow
//! the documented algorithms over that subset, not the full CLDR
//! tables.

pub mod fields;
pub mod subtag;
pub mod strutil;
pub mod display;
pub mod parser;
pub mod tables;
pub mod code;
pub mod distance;
pub mod matching;
pub mod languages;
pub mod tag;
pub mod roundtrip;

pub use code::{lang, LanguageCode};
pub use display::{decode_extlang, decode_language, decode_region, decode_script, unparse_tag};
pub use fields::{broader_tags, update_tag};
pub use matching::match_lists_with_cutoff;
pub use parser::{parse_tag, LanguageCodeError};
pub use tag::{LanguageTag, LanguageTagError};
