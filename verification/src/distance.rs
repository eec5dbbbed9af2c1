//! The match-distance metric between two maximized codes.
//!
//! The metric compares two codes level by level: regions first, then
//! scripts, then languages.  At each level a pre-computed table entry
//! wins; otherwise a wildcard amount is added and the next level
//! decides.  The wildcards encode CLDR's special cases: New-World
//! against Old-World Portuguese, the American, British, and
//! international flavors of English, European against Latin-American
//! Spanish, and the Simplified/Traditional Chinese script pair.

use vstd::prelude::*;
use crate::fields::{langext_bits, script_bits, region_bits, stray_bits, lemma_field_decomposition};
use crate::tables::{has_match_dist, match_dist_val, match_dist_lookup, lemma_match_dist_entry};
use crate::code::{LanguageCode, maximize_spec, lemma_maximize_shape};

verus! {

/// The packed form of `pt`, the Portuguese language subtag alone.
pub const LANG_PT: u64 = 0x4668_0000_0000_0000u64;

/// The packed form of `en`.
pub const LANG_EN: u64 = 0x19a8_0000_0000_0000u64;

/// The packed form of `es`.
pub const LANG_ES: u64 = 0x1a48_0000_0000_0000u64;

/// Language-and-region forms the wildcards single out.
pub const LR_PT_BR: u64 = 0x4668_0000_0000_043au64;

pub const LR_PT_US: u64 = 0x4668_0000_0000_069bu64;

pub const LR_EN_US: u64 = 0x19a8_0000_0000_069bu64;

pub const LR_EN_GB: u64 = 0x19a8_0000_0000_04cau64;

pub const LR_EN_001: u64 = 0x19a8_0000_0000_0001u64;

pub const LR_ES_ES: u64 = 0x1a48_0000_0000_049bu64;

pub const LR_ES_419: u64 = 0x1a48_0000_0000_01a3u64;

/// The script field holding `Hans`, Simplified Chinese.
pub const SIMPLIFIED: u64 = 0x0000_0000_204d_d800u64;

/// The script field holding `Hant`, Traditional Chinese.
pub const TRADITIONAL: u64 = 0x0000_0000_204d_e000u64;

/// Distance at the language level: equal languages cost nothing, a
/// table entry decides otherwise, and unrelated languages cost 80.
pub open spec fn language_distance_spec(a: u64, b: u64) -> int {
    let l1 = langext_bits(a);
    let l2 = langext_bits(b);
    if l1 == l2 {
        0
    } else if has_match_dist(l1, l2) {
        match_dist_val(l1, l2) as int
    } else {
        80
    }
}

/// Distance at the script level, the regions having already agreed
/// or been charged for.
pub open spec fn script_distance_spec(a: u64, b: u64) -> int {
    let ls1 = langext_bits(a) | script_bits(a);
    let ls2 = langext_bits(b) | script_bits(b);
    if ls1 == ls2 {
        0
    } else if script_bits(a) == script_bits(b) {
        language_distance_spec(a, b)
    } else if has_match_dist(ls1, ls2) {
        match_dist_val(ls1, ls2) as int
    } else if script_bits(a) == SIMPLIFIED && script_bits(b) == TRADITIONAL {
        15 + language_distance_spec(a, b)
    } else if script_bits(a) == TRADITIONAL && script_bits(b) == SIMPLIFIED {
        19 + language_distance_spec(a, b)
    } else {
        40 + language_distance_spec(a, b)
    }
}

/// The amount a region mismatch adds before the script level is
/// consulted.
pub open spec fn region_wildcard_spec(a: u64, b: u64) -> int {
    let l1 = langext_bits(a);
    let l2 = langext_bits(b);
    let lr1 = langext_bits(a) | region_bits(a);
    let lr2 = langext_bits(b) | region_bits(b);
    if l1 == LANG_PT && l2 == LANG_PT {
        if lr1 == LR_PT_BR || lr2 == LR_PT_BR || lr1 == LR_PT_US || lr2 == LR_PT_US {
            8
        } else {
            4
        }
    } else if l1 == LANG_EN && l2 == LANG_EN {
        if lr1 == LR_EN_US || lr2 == LR_EN_US {
            6
        } else if lr1 == LR_EN_GB || lr2 == LR_EN_GB || lr1 == LR_EN_001 || lr2 == LR_EN_001 {
            4
        } else {
            5
        }
    } else if l1 == LANG_ES && l2 == LANG_ES {
        if lr1 == LR_ES_ES || lr2 == LR_ES_ES {
            8
        } else if lr1 == LR_ES_419 || lr2 == LR_ES_419 {
            4
        } else {
            5
        }
    } else {
        4
    }
}

/// Distance between two maximized codes, starting at the region
/// level.
pub open spec fn region_distance_spec(a: u64, b: u64) -> int {
    if a == b {
        0
    } else if has_match_dist(a, b) {
        match_dist_val(a, b) as int
    } else if region_bits(a) == region_bits(b) {
        script_distance_spec(a, b)
    } else {
        region_wildcard_spec(a, b) + script_distance_spec(a, b)
    }
}

/// The distance between two codes: maximize both, then compare.
pub open spec fn distance_spec(a: u64, b: u64) -> int {
    region_distance_spec(maximize_spec(a), maximize_spec(b))
}

pub proof fn lemma_language_distance_bounds(a: u64, b: u64)
    ensures
        0 <= language_distance_spec(a, b) <= 80,
{
    lemma_match_dist_entry(langext_bits(a), langext_bits(b));
}

pub proof fn lemma_script_distance_bounds(a: u64, b: u64)
    ensures
        0 <= script_distance_spec(a, b) <= 120,
        langext_bits(a) == langext_bits(b) ==> script_distance_spec(a, b) <= 80,
{
    lemma_language_distance_bounds(a, b);
    lemma_match_dist_entry(langext_bits(a) | script_bits(a), langext_bits(b) | script_bits(b));
}

pub proof fn lemma_region_distance_bounds(a: u64, b: u64)
    ensures
        0 <= region_distance_spec(a, b) <= 124,
{
    lemma_script_distance_bounds(a, b);
    lemma_match_dist_entry(a, b);
}

/// The distance between two codes lies between 0 and 124.
pub proof fn lemma_distance_bounds(a: u64, b: u64)
    ensures
        0 <= distance_spec(a, b) <= 124,
{
    lemma_region_distance_bounds(maximize_spec(a), maximize_spec(b));
}

/// A code is at distance zero from itself.
pub proof fn lemma_distance_self(a: u64)
    ensures
        distance_spec(a, a) == 0,
{
}

/// For codes without stray bits, the distance is zero exactly when
/// the two maximal forms coincide.
pub proof fn lemma_distance_zero_iff(a: u64, b: u64)
    requires
        stray_bits(a) == 0,
        stray_bits(b) == 0,
    ensures
        distance_spec(a, b) == 0 <==> maximize_spec(a) == maximize_spec(b),
{
    let x = maximize_spec(a);
    let y = maximize_spec(b);
    lemma_maximize_shape(a);
    lemma_maximize_shape(b);
    assert(stray_bits(x) == 0);
    assert(stray_bits(y) == 0);
    if x == y {
    } else {
        lemma_match_dist_entry(x, y);
        lemma_match_dist_entry(langext_bits(x) | script_bits(x), langext_bits(y) | script_bits(y));
        lemma_match_dist_entry(langext_bits(x), langext_bits(y));
        lemma_language_distance_bounds(x, y);
        lemma_script_distance_bounds(x, y);
        if !has_match_dist(x, y) && region_bits(x) == region_bits(y) {
            lemma_field_decomposition(x);
            lemma_field_decomposition(y);
            if langext_bits(x) | script_bits(x) == langext_bits(y) | script_bits(y) {
                assert(script_bits(x) == script_bits(y)) by {
                    crate::fields::lemma_ls_union_fields(x, y);
                }
                assert(x == y);
            }
        }
    }
}

impl LanguageCode {
    /// Distance between two maximized codes, comparing just the
    /// language portion.
    fn match_distance_language(self, other: LanguageCode) -> (r: i32)
        ensures
            r as int == language_distance_spec(self@, other@),
            0 <= r <= 80,
    {
        proof {
            lemma_language_distance_bounds(self@, other@);
        }
        let lang1: u64 = self.data & crate::fields::LANGUAGE_EXT_MASK;
        let lang2: u64 = other.data & crate::fields::LANGUAGE_EXT_MASK;
        if lang1 == lang2 {
            0
        } else {
            match match_dist_lookup(lang1, lang2) {
                Option::Some(dist) => dist,
                Option::None => 80,
            }
        }
    }

    /// Distance between two maximized codes at the script level,
    /// the regions having already been handled.
    fn match_distance_script(self, other: LanguageCode) -> (r: i32)
        ensures
            r as int == script_distance_spec(self@, other@),
            0 <= r <= 120,
    {
        proof {
            lemma_script_distance_bounds(self@, other@);
        }
        let lang1: u64 = self.data & crate::fields::LANGUAGE_EXT_MASK;
        let lang2: u64 = other.data & crate::fields::LANGUAGE_EXT_MASK;
        let script1: u64 = self.data & crate::fields::SCRIPT_MASK;
        let script2: u64 = other.data & crate::fields::SCRIPT_MASK;
        if (lang1 | script1) == (lang2 | script2) {
            0
        } else if script1 == script2 {
            self.match_distance_language(other)
        } else {
            match match_dist_lookup(lang1 | script1, lang2 | script2) {
                Option::Some(dist) => dist,
                Option::None => {
                    if script1 == SIMPLIFIED && script2 == TRADITIONAL {
                        15 + self.match_distance_language(other)
                    } else if script1 == TRADITIONAL && script2 == SIMPLIFIED {
                        19 + self.match_distance_language(other)
                    } else {
                        40 + self.match_distance_language(other)
                    }
                },
            }
        }
    }

    /// Distance between two maximized codes, starting at the region
    /// level: a known pair wins, equal regions pass the work down,
    /// and a region mismatch adds its wildcard amount.
    fn match_distance_region(self, other: LanguageCode) -> (r: i32)
        ensures
            r as int == region_distance_spec(self@, other@),
            0 <= r <= 124,
    {
        proof {
            lemma_region_distance_bounds(self@, other@);
            lemma_script_distance_bounds(self@, other@);
        }
        if self.data == other.data {
            return 0;
        }
        match match_dist_lookup(self.data, other.data) {
            Option::Some(dist) => dist,
            Option::None => {
                let lang1: u64 = self.data & crate::fields::LANGUAGE_EXT_MASK;
                let lang2: u64 = other.data & crate::fields::LANGUAGE_EXT_MASK;
                let region1: u64 = self.data & crate::fields::REGION_MASK;
                let region2: u64 = other.data & crate::fields::REGION_MASK;
                if region1 == region2 {
                    self.match_distance_script(other)
                } else {
                    let lang_region1 = lang1 | region1;
                    let lang_region2 = lang2 | region2;
                    if lang1 == LANG_PT && lang2 == LANG_PT {
                        if lang_region1 == LR_PT_BR || lang_region2 == LR_PT_BR || lang_region1
                            == LR_PT_US || lang_region2 == LR_PT_US {
                            8 + self.match_distance_script(other)
                        } else {
                            4 + self.match_distance_script(other)
                        }
                    } else if lang1 == LANG_EN && lang2 == LANG_EN {
                        if lang_region1 == LR_EN_US || lang_region2 == LR_EN_US {
                            6 + self.match_distance_script(other)
                        } else if lang_region1 == LR_EN_GB || lang_region2 == LR_EN_GB
                            || lang_region1 == LR_EN_001 || lang_region2 == LR_EN_001 {
                            4 + self.match_distance_script(other)
                        } else {
                            5 + self.match_distance_script(other)
                        }
                    } else if lang1 == LANG_ES && lang2 == LANG_ES {
                        if lang_region1 == LR_ES_ES || lang_region2 == LR_ES_ES {
                            8 + self.match_distance_script(other)
                        } else if lang_region1 == LR_ES_419 || lang_region2 == LR_ES_419 {
                            4 + self.match_distance_script(other)
                        } else {
                            5 + self.match_distance_script(other)
                        }
                    } else {
                        4 + self.match_distance_script(other)
                    }
                }
            },
        }
    }

    /// The distance between this code (the desired language) and
    /// another (the supported one): 0 is exact, small values are
    /// minor variations, and 124 separates unrelated languages.
    pub fn match_distance(self, other: LanguageCode) -> (r: i32)
        ensures
            r as int == distance_spec(self@, other@),
            0 <= r <= 124,
    {
        self.maximize().match_distance_region(other.maximize())
    }
}

} // verus!
