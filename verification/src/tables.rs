//! The CLDR-derived data tables, as verified lookup functions.
//!
//! Five tables drive normalization and matching: whole-tag aliases
//! keyed by the normalized text, language-subtag aliases and region
//! aliases keyed by partial codes, the likely-subtags table behind
//! `maximize`, and the pre-computed distances for specific pairs.
//! Each table is a pair of spec and exec functions over literal
//! entries, so every proof sees exactly the data the code uses.
//!
//! The entries are a subset of the full CLDR data: the aliases,
//! likely subtags, and distances for the languages this crate's
//! tests and documented cases exercise.  For languages outside that
//! subset the algorithms still behave as specified over these
//! tables -- `maximize` falls back along the broadening chain and a
//! distance falls back to its wildcard amounts -- but the results
//! need not agree with what the complete CLDR tables would give.

use vstd::prelude::*;
use crate::strutil::chars_eq_str;
use crate::fields::{LANGUAGE_MASK, EXTLANG_MASK, PROTO_MASK, LANGUAGE_EXT_MASK, SCRIPT_MASK, REGION_MASK};

verus! {

/// The script field holding `Zinh` (inherited script), the modern
/// alias of `Qaai`.
pub const INHERIT_SCRIPT: u64 = 0x0000_0000_694d_8000u64;

/// The script field holding the old inherited-script code `Qaai`.
pub const INHERIT_SCRIPT_OLD: u64 = 0x0000_0000_4440_8800u64;

/// The whole-tag aliases: grandfathered and legacy tags, keyed by
/// the full normalized text, replaced by a complete code.
pub open spec fn tag_replace_spec(t: Seq<char>) -> Option<u64> {
    if t == "sh"@ {
        Some(0x522800003053b000u64)  // sr-Latn
    } else if t == "no"@ {
        Some(0x3c28000000000000u64)  // nb
    } else if t == "no-bokmal"@ {
        Some(0x3c28000000000000u64)  // nb
    } else if t == "no-nynorsk"@ {
        Some(0x3da8000000000000u64)  // nn
    } else if t == "i-hak"@ {
        Some(0x2413000000000000u64)  // hak
    } else if t == "i-navajo"@ {
        Some(0x3ea8000000000000u64)  // nv
    } else if t == "sgn-be-fr"@ {
        Some(0x50aa000000000000u64)  // sfb
    } else if t == "sgn-be-nl"@ {
        Some(0x5cdc000000000000u64)  // vgt
    } else if t == "sgn-ch-de"@ {
        Some(0x50cf000000000000u64)  // sgg
    } else if t == "zh-cn"@ {
        Some(0x6ce80000204ddc56u64)  // zh-Hans-CN
    } else if t == "zh-tw"@ {
        Some(0x6ce80000204de67fu64)  // zh-Hant-TW
    } else if t == "zh-hk"@ {
        Some(0x6ce80000204de4f3u64)  // zh-Hant-HK
    } else if t == "zh-sg"@ {
        Some(0x6ce80000204dde4fu64)  // zh-Hans-SG
    } else if t == "mn-cyrl-mn"@ {
        Some(0x39a8000000000596u64)  // mn-MN
    } else if t == "fra"@ {
        Some(0x1e28000000000000u64)  // fr
    } else if t == "fre"@ {
        Some(0x1e28000000000000u64)  // fr
    } else if t == "eng"@ {
        Some(0x19a8000000000000u64)  // en
    } else if t == "deu"@ {
        Some(0x1488000000000000u64)  // de
    } else if t == "ger"@ {
        Some(0x1488000000000000u64)  // de
    } else if t == "in"@ {
        Some(0x2868000000000000u64)  // id
    } else if t == "iw"@ {
        Some(0x2488000000000000u64)  // he
    } else if t == "ji"@ {
        Some(0x6908000000000000u64)  // yi
    } else if t == "tl"@ {
        Some(0x1d14000000000000u64)  // fil
    } else if t == "mo"@ {
        Some(0x4dc8000000000000u64)  // ro
    } else {
        None
    }
}

/// Look a normalized tag up among the whole-tag aliases.
pub fn tag_replace(t: &Vec<char>) -> (r: Option<u64>)
    ensures
        r == tag_replace_spec(t@),
{
    if chars_eq_str(t, "sh") {
        return Some(0x522800003053b000u64);
    }
    if chars_eq_str(t, "no") {
        return Some(0x3c28000000000000u64);
    }
    if chars_eq_str(t, "no-bokmal") {
        return Some(0x3c28000000000000u64);
    }
    if chars_eq_str(t, "no-nynorsk") {
        return Some(0x3da8000000000000u64);
    }
    if chars_eq_str(t, "i-hak") {
        return Some(0x2413000000000000u64);
    }
    if chars_eq_str(t, "i-navajo") {
        return Some(0x3ea8000000000000u64);
    }
    if chars_eq_str(t, "sgn-be-fr") {
        return Some(0x50aa000000000000u64);
    }
    if chars_eq_str(t, "sgn-be-nl") {
        return Some(0x5cdc000000000000u64);
    }
    if chars_eq_str(t, "sgn-ch-de") {
        return Some(0x50cf000000000000u64);
    }
    if chars_eq_str(t, "zh-cn") {
        return Some(0x6ce80000204ddc56u64);
    }
    if chars_eq_str(t, "zh-tw") {
        return Some(0x6ce80000204de67fu64);
    }
    if chars_eq_str(t, "zh-hk") {
        return Some(0x6ce80000204de4f3u64);
    }
    if chars_eq_str(t, "zh-sg") {
        return Some(0x6ce80000204dde4fu64);
    }
    if chars_eq_str(t, "mn-cyrl-mn") {
        return Some(0x39a8000000000596u64);
    }
    if chars_eq_str(t, "fra") {
        return Some(0x1e28000000000000u64);
    }
    if chars_eq_str(t, "fre") {
        return Some(0x1e28000000000000u64);
    }
    if chars_eq_str(t, "eng") {
        return Some(0x19a8000000000000u64);
    }
    if chars_eq_str(t, "deu") {
        return Some(0x1488000000000000u64);
    }
    if chars_eq_str(t, "ger") {
        return Some(0x1488000000000000u64);
    }
    if chars_eq_str(t, "in") {
        return Some(0x2868000000000000u64);
    }
    if chars_eq_str(t, "iw") {
        return Some(0x2488000000000000u64);
    }
    if chars_eq_str(t, "ji") {
        return Some(0x6908000000000000u64);
    }
    if chars_eq_str(t, "tl") {
        return Some(0x1d14000000000000u64);
    }
    if chars_eq_str(t, "mo") {
        return Some(0x4dc8000000000000u64);
    }
    None
}

/// The language-subtag aliases, keyed by a language-only code.
pub open spec fn has_lang_replace(c: u64) -> bool {
    c == 0x50e8000000000000u64
        || c == 0x3dc8000000000000u64
        || c == 0x1e29000000000000u64
        || c == 0x1e2d000000000000u64
        || c == 0x19af000000000000u64
        || c == 0x149d000000000000u64
        || c == 0x209a000000000000u64
        || c == 0x29a8000000000000u64
        || c == 0x2ac8000000000000u64
        || c == 0x2d08000000000000u64
        || c == 0x5568000000000000u64
        || c == 0x39c8000000000000u64
}

pub open spec fn lang_replace_val(c: u64) -> u64 {
    if c == 0x50e8000000000000u64 {
        0x522800003053b000u64
    } else if c == 0x3dc8000000000000u64 {
        0x3c28000000000000u64
    } else if c == 0x1e29000000000000u64 {
        0x1e28000000000000u64
    } else if c == 0x1e2d000000000000u64 {
        0x1e28000000000000u64
    } else if c == 0x19af000000000000u64 {
        0x19a8000000000000u64
    } else if c == 0x149d000000000000u64 {
        0x1488000000000000u64
    } else if c == 0x209a000000000000u64 {
        0x1488000000000000u64
    } else if c == 0x29a8000000000000u64 {
        0x2868000000000000u64
    } else if c == 0x2ac8000000000000u64 {
        0x2488000000000000u64
    } else if c == 0x2d08000000000000u64 {
        0x6908000000000000u64
    } else if c == 0x5568000000000000u64 {
        0x1d14000000000000u64
    } else if c == 0x39c8000000000000u64 {
        0x4dc8000000000000u64
    } else {
        0
    }
}

pub fn lang_replace_lookup(c: u64) -> (r: Option<u64>)
    ensures
        r is Some <==> has_lang_replace(c),
        r matches Some(v) ==> v == lang_replace_val(c),
{
    if c == 0x50e8000000000000u64 {
        return Some(0x522800003053b000u64);
    }
    if c == 0x3dc8000000000000u64 {
        return Some(0x3c28000000000000u64);
    }
    if c == 0x1e29000000000000u64 {
        return Some(0x1e28000000000000u64);
    }
    if c == 0x1e2d000000000000u64 {
        return Some(0x1e28000000000000u64);
    }
    if c == 0x19af000000000000u64 {
        return Some(0x19a8000000000000u64);
    }
    if c == 0x149d000000000000u64 {
        return Some(0x1488000000000000u64);
    }
    if c == 0x209a000000000000u64 {
        return Some(0x1488000000000000u64);
    }
    if c == 0x29a8000000000000u64 {
        return Some(0x2868000000000000u64);
    }
    if c == 0x2ac8000000000000u64 {
        return Some(0x2488000000000000u64);
    }
    if c == 0x2d08000000000000u64 {
        return Some(0x6908000000000000u64);
    }
    if c == 0x5568000000000000u64 {
        return Some(0x1d14000000000000u64);
    }
    if c == 0x39c8000000000000u64 {
        return Some(0x4dc8000000000000u64);
    }
    None
}

/// The region aliases, keyed by a region-only code.
pub open spec fn has_region_replace(c: u64) -> bool {
    c == 0x0000000000000693u64
        || c == 0x000000000000046cu64
        || c == 0x00000000000004c0u64
        || c == 0x000000000000061du64
        || c == 0x0000000000000348u64
        || c == 0x0000000000000118u64
}

pub open spec fn region_replace_val(c: u64) -> u64 {
    if c == 0x0000000000000693u64 {
        0x00000000000004cau64
    } else if c == 0x000000000000046cu64 {
        0x000000000000046du64
    } else if c == 0x00000000000004c0u64 {
        0x00000000000004bau64
    } else if c == 0x000000000000061du64 {
        0x000000000000049du64
    } else if c == 0x0000000000000348u64 {
        0x000000000000069bu64
    } else if c == 0x0000000000000118u64 {
        0x000000000000046du64
    } else {
        0
    }
}

pub fn region_replace_lookup(c: u64) -> (r: Option<u64>)
    ensures
        r is Some <==> has_region_replace(c),
        r matches Some(v) ==> v == region_replace_val(c),
{
    if c == 0x0000000000000693u64 {
        return Some(0x00000000000004cau64);
    }
    if c == 0x000000000000046cu64 {
        return Some(0x000000000000046du64);
    }
    if c == 0x00000000000004c0u64 {
        return Some(0x00000000000004bau64);
    }
    if c == 0x000000000000061du64 {
        return Some(0x000000000000049du64);
    }
    if c == 0x0000000000000348u64 {
        return Some(0x000000000000069bu64);
    }
    if c == 0x0000000000000118u64 {
        return Some(0x000000000000046du64);
    }
    None
}

/// The likely-subtags table: the maximal form of a partial code.
pub open spec fn has_likely(c: u64) -> bool {
    c == 0x0000000000000000u64
        || c == 0x19a8000000000000u64
        || c == 0x19a800004d20f800u64
        || c == 0x000000004d20f800u64
        || c == 0x000000000000000eu64
        || c == 0x0000000058488800u64
        || c == 0x5c11000000000000u64
        || c == 0x2c08000000000000u64
        || c == 0x6ce8000000000000u64
        || c == 0x6ce80000204de000u64
        || c == 0x00000000204de000u64
        || c == 0x00000000204dd800u64
        || c == 0x4668000000000000u64
        || c == 0x1a48000000000000u64
        || c == 0x52c8000000000000u64
        || c == 0x3c28000000000000u64
        || c == 0x3dc8000000000000u64
        || c == 0x3da8000000000000u64
        || c == 0x5408000000000000u64
        || c == 0x38c8000000000000u64
        || c == 0x1e28000000000000u64
        || c == 0x1d08000000000000u64
        || c == 0x39a8000000000000u64
        || c == 0x5228000000000000u64
        || c == 0x1488000000000000u64
        || c == 0x2413000000000000u64
        || c == 0x2868000000000000u64
        || c == 0x2488000000000000u64
        || c == 0x6908000000000000u64
        || c == 0x1d14000000000000u64
        || c == 0x4dc8000000000000u64
        || c == 0x31c8000000000000u64
        || c == 0x4e88000000000000u64
        || c == 0x0a28000000000000u64
        || c == 0x2508000000000000u64
        || c == 0x3ea8000000000000u64
}

pub open spec fn likely_val(c: u64) -> u64 {
    if c == 0x0000000000000000u64 {
        0x19a800003053b69bu64
    } else if c == 0x19a8000000000000u64 {
        0x19a800003053b69bu64
    } else if c == 0x19a800004d20f800u64 {
        0x19a800004d20fccau64
    } else if c == 0x000000004d20f800u64 {
        0x19a800004d20fccau64
    } else if c == 0x000000000000000eu64 {
        0x52c800003053b682u64
    } else if c == 0x0000000058488800u64 {
        0x5c11000058488d7au64
    } else if c == 0x5c11000000000000u64 {
        0x5c11000058488d7au64
    } else if c == 0x2c08000000000000u64 {
        0x2c0800002a20b538u64
    } else if c == 0x6ce8000000000000u64 {
        0x6ce80000204ddc56u64
    } else if c == 0x6ce80000204de000u64 {
        0x6ce80000204de67fu64
    } else if c == 0x00000000204de000u64 {
        0x6ce80000204de67fu64
    } else if c == 0x00000000204dd800u64 {
        0x6ce80000204ddc56u64
    } else if c == 0x4668000000000000u64 {
        0x466800003053b43au64
    } else if c == 0x1a48000000000000u64 {
        0x1a4800003053b49bu64
    } else if c == 0x52c8000000000000u64 {
        0x52c800003053b682u64
    } else if c == 0x3c28000000000000u64 {
        0x3c2800003053b5b7u64
    } else if c == 0x3dc8000000000000u64 {
        0x3dc800003053b5b7u64
    } else if c == 0x3da8000000000000u64 {
        0x3da800003053b5b7u64
    } else if c == 0x5408000000000000u64 {
        0x54080000504ca516u64
    } else if c == 0x38c8000000000000u64 {
        0x38c800003053b58fu64
    } else if c == 0x1e28000000000000u64 {
        0x1e2800003053b4bau64
    } else if c == 0x1d08000000000000u64 {
        0x1d0800003053b4b1u64
    } else if c == 0x39a8000000000000u64 {
        0x39a800000f51a596u64
    } else if c == 0x5228000000000000u64 {
        0x522800000f51a63bu64
    } else if c == 0x1488000000000000u64 {
        0x148800003053b46du64
    } else if c == 0x2413000000000000u64 {
        0x24130000204ddc56u64
    } else if c == 0x2868000000000000u64 {
        0x286800003053b50cu64
    } else if c == 0x2488000000000000u64 {
        0x2488000020c1d514u64
    } else if c == 0x6908000000000000u64 {
        0x6908000020c1d001u64
    } else if c == 0x1d14000000000000u64 {
        0x1d1400003053b5f0u64
    } else if c == 0x4dc8000000000000u64 {
        0x4dc800003053b637u64
    } else if c == 0x31c8000000000000u64 {
        0x31c800002e116d5au64
    } else if c == 0x4e88000000000000u64 {
        0x4e8800000f51a63du64
    } else if c == 0x0a28000000000000u64 {
        0x0a2800000660548fu64
    } else if c == 0x2508000000000000u64 {
        0x2508000010d54d16u64
    } else if c == 0x3ea8000000000000u64 {
        0x3ea800003053b69bu64
    } else {
        0
    }
}

pub fn likely_lookup(c: u64) -> (r: Option<u64>)
    ensures
        r is Some <==> has_likely(c),
        r matches Some(v) ==> v == likely_val(c),
{
    if c == 0x0000000000000000u64 {
        return Some(0x19a800003053b69bu64);
    }
    if c == 0x19a8000000000000u64 {
        return Some(0x19a800003053b69bu64);
    }
    if c == 0x19a800004d20f800u64 {
        return Some(0x19a800004d20fccau64);
    }
    if c == 0x000000004d20f800u64 {
        return Some(0x19a800004d20fccau64);
    }
    if c == 0x000000000000000eu64 {
        return Some(0x52c800003053b682u64);
    }
    if c == 0x0000000058488800u64 {
        return Some(0x5c11000058488d7au64);
    }
    if c == 0x5c11000000000000u64 {
        return Some(0x5c11000058488d7au64);
    }
    if c == 0x2c08000000000000u64 {
        return Some(0x2c0800002a20b538u64);
    }
    if c == 0x6ce8000000000000u64 {
        return Some(0x6ce80000204ddc56u64);
    }
    if c == 0x6ce80000204de000u64 {
        return Some(0x6ce80000204de67fu64);
    }
    if c == 0x00000000204de000u64 {
        return Some(0x6ce80000204de67fu64);
    }
    if c == 0x00000000204dd800u64 {
        return Some(0x6ce80000204ddc56u64);
    }
    if c == 0x4668000000000000u64 {
        return Some(0x466800003053b43au64);
    }
    if c == 0x1a48000000000000u64 {
        return Some(0x1a4800003053b49bu64);
    }
    if c == 0x52c8000000000000u64 {
        return Some(0x52c800003053b682u64);
    }
    if c == 0x3c28000000000000u64 {
        return Some(0x3c2800003053b5b7u64);
    }
    if c == 0x3dc8000000000000u64 {
        return Some(0x3dc800003053b5b7u64);
    }
    if c == 0x3da8000000000000u64 {
        return Some(0x3da800003053b5b7u64);
    }
    if c == 0x5408000000000000u64 {
        return Some(0x54080000504ca516u64);
    }
    if c == 0x38c8000000000000u64 {
        return Some(0x38c800003053b58fu64);
    }
    if c == 0x1e28000000000000u64 {
        return Some(0x1e2800003053b4bau64);
    }
    if c == 0x1d08000000000000u64 {
        return Some(0x1d0800003053b4b1u64);
    }
    if c == 0x39a8000000000000u64 {
        return Some(0x39a800000f51a596u64);
    }
    if c == 0x5228000000000000u64 {
        return Some(0x522800000f51a63bu64);
    }
    if c == 0x1488000000000000u64 {
        return Some(0x148800003053b46du64);
    }
    if c == 0x2413000000000000u64 {
        return Some(0x24130000204ddc56u64);
    }
    if c == 0x2868000000000000u64 {
        return Some(0x286800003053b50cu64);
    }
    if c == 0x2488000000000000u64 {
        return Some(0x2488000020c1d514u64);
    }
    if c == 0x6908000000000000u64 {
        return Some(0x6908000020c1d001u64);
    }
    if c == 0x1d14000000000000u64 {
        return Some(0x1d1400003053b5f0u64);
    }
    if c == 0x4dc8000000000000u64 {
        return Some(0x4dc800003053b637u64);
    }
    if c == 0x31c8000000000000u64 {
        return Some(0x31c800002e116d5au64);
    }
    if c == 0x4e88000000000000u64 {
        return Some(0x4e8800000f51a63du64);
    }
    if c == 0x0a28000000000000u64 {
        return Some(0x0a2800000660548fu64);
    }
    if c == 0x2508000000000000u64 {
        return Some(0x2508000010d54d16u64);
    }
    if c == 0x3ea8000000000000u64 {
        return Some(0x3ea800003053b69bu64);
    }
    None
}

/// The pre-computed match distances for specific ordered pairs.
pub open spec fn has_match_dist(a: u64, b: u64) -> bool {
    (a == 0x3c28000000000000u64 && b == 0x3dc8000000000000u64)
        || (a == 0x3dc8000000000000u64 && b == 0x3c28000000000000u64)
        || (a == 0x3da8000000000000u64 && b == 0x3dc8000000000000u64)
        || (a == 0x3dc8000000000000u64 && b == 0x3da8000000000000u64)
        || (a == 0x1408000000000000u64 && b == 0x3dc8000000000000u64)
        || (a == 0x1408000000000000u64 && b == 0x3c28000000000000u64)
        || (a == 0x54080000504ca000u64 && b == 0x19a800003053b000u64)
        || (a == 0x19a800003053b000u64 && b == 0x54080000504ca000u64)
        || (a == 0x38c8000000000000u64 && b == 0x1e28000000000000u64)
        || (a == 0x1e28000000000000u64 && b == 0x38c8000000000000u64)
        || (a == 0x3a48000000000000u64 && b == 0x2868000000000000u64)
        || (a == 0x2868000000000000u64 && b == 0x3a48000000000000u64)
        || (a == 0x19a800003053b69bu64 && b == 0x19a800003053b5fau64)
        || (a == 0x19a800003053b5fau64 && b == 0x19a800003053b69bu64)
        || (a == 0x19a800003053b69bu64 && b == 0x19a800003053b6b1u64)
        || (a == 0x19a800003053b6b1u64 && b == 0x19a800003053b69bu64)
        || (a == 0x19a800003053b69bu64 && b == 0x19a800003053b4ddu64)
        || (a == 0x19a800003053b4ddu64 && b == 0x19a800003053b69bu64)
        || (a == 0x19a800003053b69bu64 && b == 0x19a800003053b695u64)
        || (a == 0x19a800003053b695u64 && b == 0x19a800003053b69bu64)
}

pub open spec fn match_dist_val(a: u64, b: u64) -> i32 {
    if a == 0x3c28000000000000u64 && b == 0x3dc8000000000000u64 {
        1i32  // nb / no
    } else if a == 0x3dc8000000000000u64 && b == 0x3c28000000000000u64 {
        1i32  // no / nb
    } else if a == 0x3da8000000000000u64 && b == 0x3dc8000000000000u64 {
        3i32  // nn / no
    } else if a == 0x3dc8000000000000u64 && b == 0x3da8000000000000u64 {
        3i32  // no / nn
    } else if a == 0x1408000000000000u64 && b == 0x3dc8000000000000u64 {
        9i32  // da / no
    } else if a == 0x1408000000000000u64 && b == 0x3c28000000000000u64 {
        9i32  // da / nb
    } else if a == 0x54080000504ca000u64 && b == 0x19a800003053b000u64 {
        10i32  // ta-Taml / en-Latn
    } else if a == 0x19a800003053b000u64 && b == 0x54080000504ca000u64 {
        10i32  // en-Latn / ta-Taml
    } else if a == 0x38c8000000000000u64 && b == 0x1e28000000000000u64 {
        10i32  // mg / fr
    } else if a == 0x1e28000000000000u64 && b == 0x38c8000000000000u64 {
        10i32  // fr / mg
    } else if a == 0x3a48000000000000u64 && b == 0x2868000000000000u64 {
        10i32  // ms / id
    } else if a == 0x2868000000000000u64 && b == 0x3a48000000000000u64 {
        10i32  // id / ms
    } else if a == 0x19a800003053b69bu64 && b == 0x19a800003053b5fau64 {
        4i32  // en-Latn-US / en-Latn-PR
    } else if a == 0x19a800003053b5fau64 && b == 0x19a800003053b69bu64 {
        4i32  // en-Latn-PR / en-Latn-US
    } else if a == 0x19a800003053b69bu64 && b == 0x19a800003053b6b1u64 {
        4i32  // en-Latn-US / en-Latn-VI
    } else if a == 0x19a800003053b6b1u64 && b == 0x19a800003053b69bu64 {
        4i32  // en-Latn-VI / en-Latn-US
    } else if a == 0x19a800003053b69bu64 && b == 0x19a800003053b4ddu64 {
        4i32  // en-Latn-US / en-Latn-GU
    } else if a == 0x19a800003053b4ddu64 && b == 0x19a800003053b69bu64 {
        4i32  // en-Latn-GU / en-Latn-US
    } else if a == 0x19a800003053b69bu64 && b == 0x19a800003053b695u64 {
        4i32  // en-Latn-US / en-Latn-UM
    } else if a == 0x19a800003053b695u64 && b == 0x19a800003053b69bu64 {
        4i32  // en-Latn-UM / en-Latn-US
    } else {
        0i32
    }
}

pub fn match_dist_lookup(a: u64, b: u64) -> (r: Option<i32>)
    ensures
        r is Some <==> has_match_dist(a, b),
        r matches Some(d) ==> d == match_dist_val(a, b),
{
    if a == 0x3c28000000000000u64 && b == 0x3dc8000000000000u64 {
        return Some(1i32);
    }
    if a == 0x3dc8000000000000u64 && b == 0x3c28000000000000u64 {
        return Some(1i32);
    }
    if a == 0x3da8000000000000u64 && b == 0x3dc8000000000000u64 {
        return Some(3i32);
    }
    if a == 0x3dc8000000000000u64 && b == 0x3da8000000000000u64 {
        return Some(3i32);
    }
    if a == 0x1408000000000000u64 && b == 0x3dc8000000000000u64 {
        return Some(9i32);
    }
    if a == 0x1408000000000000u64 && b == 0x3c28000000000000u64 {
        return Some(9i32);
    }
    if a == 0x54080000504ca000u64 && b == 0x19a800003053b000u64 {
        return Some(10i32);
    }
    if a == 0x19a800003053b000u64 && b == 0x54080000504ca000u64 {
        return Some(10i32);
    }
    if a == 0x38c8000000000000u64 && b == 0x1e28000000000000u64 {
        return Some(10i32);
    }
    if a == 0x1e28000000000000u64 && b == 0x38c8000000000000u64 {
        return Some(10i32);
    }
    if a == 0x3a48000000000000u64 && b == 0x2868000000000000u64 {
        return Some(10i32);
    }
    if a == 0x2868000000000000u64 && b == 0x3a48000000000000u64 {
        return Some(10i32);
    }
    if a == 0x19a800003053b69bu64 && b == 0x19a800003053b5fau64 {
        return Some(4i32);
    }
    if a == 0x19a800003053b5fau64 && b == 0x19a800003053b69bu64 {
        return Some(4i32);
    }
    if a == 0x19a800003053b69bu64 && b == 0x19a800003053b6b1u64 {
        return Some(4i32);
    }
    if a == 0x19a800003053b6b1u64 && b == 0x19a800003053b69bu64 {
        return Some(4i32);
    }
    if a == 0x19a800003053b69bu64 && b == 0x19a800003053b4ddu64 {
        return Some(4i32);
    }
    if a == 0x19a800003053b4ddu64 && b == 0x19a800003053b69bu64 {
        return Some(4i32);
    }
    if a == 0x19a800003053b69bu64 && b == 0x19a800003053b695u64 {
        return Some(4i32);
    }
    if a == 0x19a800003053b695u64 && b == 0x19a800003053b69bu64 {
        return Some(4i32);
    }
    None
}

/// Every likely-subtags value is a full code with no stray bits,
/// and every key is free of extlang and proto bits.
pub proof fn lemma_likely_entry(c: u64)
    by (bit_vector)
    ensures
        has_likely(c) ==> likely_val(c) & LANGUAGE_MASK != 0 && likely_val(c) & SCRIPT_MASK != 0
            && likely_val(c) & REGION_MASK != 0 && likely_val(c) & !(LANGUAGE_EXT_MASK
            | SCRIPT_MASK | REGION_MASK) == 0,
        has_likely(c) ==> c & (EXTLANG_MASK | PROTO_MASK) == 0,
{
}

/// Every pre-computed distance lies between 1 and 80.
pub proof fn lemma_match_dist_entry(a: u64, b: u64)
    by (bit_vector)
    ensures
        has_match_dist(a, b) ==> 1 <= match_dist_val(a, b) <= 80,
{
}

} // verus!
