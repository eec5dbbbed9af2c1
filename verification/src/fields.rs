//! The bitfield layout of a language code.
//!
//! A code packs four subtags into one `u64` (from the most significant
//! bits down): the primary language, a one-bit flag for a `pro`
//! extlang, the first other extlang, the script, and the region.  A
//! field is zero exactly when its subtag is absent, so the all-zero
//! code means "undetermined" and prints as `und`.

use vstd::prelude::*;

verus! {

pub const LANGUAGE_MASK: u64 = 0x7fff_0000_0000_0000u64;
pub const PROTO_MASK: u64 = 0x0000_8000_0000_0000u64;
pub const EXTLANG_MASK: u64 = 0x0000_7fff_0000_0000u64;
pub const LANGUAGE_EXT_MASK: u64 = 0x7fff_ffff_0000_0000u64;
pub const SCRIPT_MASK: u64 = 0x0000_0000_7fff_f800u64;
pub const REGION_MASK: u64 = 0x0000_0000_0000_07ffu64;
pub const SCRIPT_SHIFT: u64 = 11u64;
pub const EXTLANG_SHIFT: u64 = 32u64;
pub const LANGUAGE_SHIFT: u64 = 48u64;
pub const EMPTY_CODE: u64 = 0u64;
/// The sentinel for a private-use tag that the packed form cannot
/// represent; its language field encodes `mis`.
pub const MISSING_CODE: u64 = 0x391b_0000_0000_0000u64;

/// The language field of a code, in place (not shifted down).
pub open spec fn lang_bits(c: u64) -> u64 {
    c & LANGUAGE_MASK
}

/// The language-and-extlang portion of a code, proto bit included.
pub open spec fn langext_bits(c: u64) -> u64 {
    c & LANGUAGE_EXT_MASK
}

pub open spec fn script_bits(c: u64) -> u64 {
    c & SCRIPT_MASK
}

pub open spec fn region_bits(c: u64) -> u64 {
    c & REGION_MASK
}

/// The bits outside every field (bits 63 and 31); always zero in a
/// code assembled from encoded subtags.
pub open spec fn stray_bits(c: u64) -> u64 {
    c & !(LANGUAGE_EXT_MASK | SCRIPT_MASK | REGION_MASK)
}

/// A code is full when language, script, and region are all present.
pub open spec fn is_full(c: u64) -> bool {
    lang_bits(c) != 0 && script_bits(c) != 0 && region_bits(c) != 0
}

/// Every code is exactly the disjoint union of its three fields and
/// its stray bits, and each extractor stays inside its own mask.
pub proof fn lemma_field_decomposition(c: u64)
    by (bit_vector)
    ensures
        c == langext_bits(c) | script_bits(c) | region_bits(c) | stray_bits(c),
        langext_bits(c) & LANGUAGE_EXT_MASK == langext_bits(c),
        script_bits(c) & SCRIPT_MASK == script_bits(c),
        region_bits(c) & REGION_MASK == region_bits(c),
        lang_bits(c) == langext_bits(c) & LANGUAGE_MASK,
        lang_bits(c) & LANGUAGE_MASK == lang_bits(c),
        langext_bits(c) == lang_bits(c) | (c & (EXTLANG_MASK | PROTO_MASK)),
        c & (EXTLANG_MASK | PROTO_MASK) == 0 ==> langext_bits(c) == lang_bits(c),
        lang_bits(c) == 0 && langext_bits(c) != 0 ==> c & (EXTLANG_MASK | PROTO_MASK) != 0,
        lang_bits(c) != 0 ==> langext_bits(c) != 0,
{
}

/// A language-and-script union determines both of its parts.
pub proof fn lemma_ls_union_fields(x: u64, y: u64)
    by (bit_vector)
    requires
        (x & LANGUAGE_EXT_MASK) | (x & SCRIPT_MASK) == (y & LANGUAGE_EXT_MASK) | (y & SCRIPT_MASK),
    ensures
        x & LANGUAGE_EXT_MASK == y & LANGUAGE_EXT_MASK,
        x & SCRIPT_MASK == y & SCRIPT_MASK,
{
}

/// How the three minimization candidates' masks interact.
pub proof fn lemma_mask_algebra(c: u64)
    by (bit_vector)
    ensures
        (c & LANGUAGE_MASK) & LANGUAGE_MASK == c & LANGUAGE_MASK,
        (c & (LANGUAGE_MASK | SCRIPT_MASK)) & LANGUAGE_MASK == c & LANGUAGE_MASK,
        (c & (LANGUAGE_MASK | SCRIPT_MASK)) & (LANGUAGE_MASK | SCRIPT_MASK) == c & (LANGUAGE_MASK
            | SCRIPT_MASK),
        (c & (LANGUAGE_MASK | REGION_MASK)) & LANGUAGE_MASK == c & LANGUAGE_MASK,
        (c & (LANGUAGE_MASK | REGION_MASK)) & (LANGUAGE_MASK | SCRIPT_MASK) == c & LANGUAGE_MASK,
        (c & (LANGUAGE_MASK | REGION_MASK)) & (LANGUAGE_MASK | REGION_MASK) == c & (LANGUAGE_MASK
            | REGION_MASK),
{
}

/// The mask of the sub-regions that `n` would replace in an update:
/// each of language-and-extlang, script, and region is replaced when
/// `n` has any bit in it, and kept otherwise.
pub open spec fn update_mask(n: u64) -> u64 {
    (if n & LANGUAGE_EXT_MASK != 0 {
        LANGUAGE_EXT_MASK
    } else {
        0u64
    }) | (if n & SCRIPT_MASK != 0 {
        SCRIPT_MASK
    } else {
        0u64
    }) | (if n & REGION_MASK != 0 {
        REGION_MASK
    } else {
        0u64
    })
}

/// The merge of two codes: fields present in `n` win, the rest are
/// kept from `o`.
pub open spec fn spec_update(o: u64, n: u64) -> u64 {
    (o & !update_mask(n)) | (n & update_mask(n))
}

/// How an update acts on each field separately, and on the stray bits.
pub proof fn lemma_update_fields(o: u64, n: u64)
    by (bit_vector)
    ensures
        langext_bits(spec_update(o, n)) == if langext_bits(n) != 0 {
            langext_bits(n)
        } else {
            langext_bits(o)
        },
        script_bits(spec_update(o, n)) == if script_bits(n) != 0 {
            script_bits(n)
        } else {
            script_bits(o)
        },
        region_bits(spec_update(o, n)) == if region_bits(n) != 0 {
            region_bits(n)
        } else {
            region_bits(o)
        },
        lang_bits(spec_update(o, n)) == if langext_bits(n) != 0 {
            lang_bits(n)
        } else {
            lang_bits(o)
        },
        stray_bits(spec_update(o, n)) == stray_bits(o),
{
}

/// One broadening candidate: kept unless it equals the input.
pub open spec fn keep_cand(x: u64, c: u64) -> Seq<u64> {
    if x == c {
        Seq::empty()
    } else {
        seq![x]
    }
}

/// The broader forms of a code, most specific first: the six masked
/// combinations, each dropped when it equals the input.
pub open spec fn broader_tags_spec(c: u64) -> Seq<u64> {
    keep_cand(c & (LANGUAGE_MASK | SCRIPT_MASK | REGION_MASK), c) + keep_cand(
        c & (LANGUAGE_MASK | REGION_MASK),
        c,
    ) + keep_cand(c & (LANGUAGE_MASK | SCRIPT_MASK), c) + keep_cand(c & LANGUAGE_MASK, c)
        + keep_cand(c & REGION_MASK, c) + keep_cand(c & SCRIPT_MASK, c)
}

/// The broader forms with the empty code appended, in the order the
/// likely-subtags search walks.
pub open spec fn broaden_spec(c: u64) -> Seq<u64> {
    broader_tags_spec(c) + keep_cand(EMPTY_CODE, c)
}

/// List the broader forms of a code, most specific first.
pub fn broader_tags(tag: u64) -> (r: Vec<u64>)
    ensures
        r@ == broader_tags_spec(tag),
{
    let mut v: Vec<u64> = Vec::new();
    let m1 = tag & (LANGUAGE_MASK | SCRIPT_MASK | REGION_MASK);
    if m1 != tag {
        v.push(m1);
    }
    let m2 = tag & (LANGUAGE_MASK | REGION_MASK);
    if m2 != tag {
        v.push(m2);
    }
    let m3 = tag & (LANGUAGE_MASK | SCRIPT_MASK);
    if m3 != tag {
        v.push(m3);
    }
    let m4 = tag & LANGUAGE_MASK;
    if m4 != tag {
        v.push(m4);
    }
    let m5 = tag & REGION_MASK;
    if m5 != tag {
        v.push(m5);
    }
    let m6 = tag & SCRIPT_MASK;
    if m6 != tag {
        v.push(m6);
    }
    proof {
        assert(v@ =~= broader_tags_spec(tag));
    }
    v
}

/// Merge two codes as `spec_update` describes.
pub fn update_tag(old_tag: u64, new_tag: u64) -> (r: u64)
    ensures
        r == spec_update(old_tag, new_tag),
{
    let update_mask: u64 = (if new_tag & LANGUAGE_EXT_MASK != 0 {
        LANGUAGE_EXT_MASK
    } else {
        0u64
    }) | (if new_tag & SCRIPT_MASK != 0 {
        SCRIPT_MASK
    } else {
        0u64
    }) | (if new_tag & REGION_MASK != 0 {
        REGION_MASK
    } else {
        0u64
    });
    (old_tag & !update_mask) | (new_tag & update_mask)
}

} // verus!
