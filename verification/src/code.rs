//! The `LanguageCode` type and the operations on it.
//!
//! A `LanguageCode` wraps one packed `u64`; copying it is free.
//! `parse` builds one from text with the alias tables applied, and
//! the likely-subtags, distance, and matching operations work on the
//! packed form directly.

use vstd::prelude::*;
use crate::fields::{
    LANGUAGE_SHIFT, LANGUAGE_MASK, EXTLANG_MASK, PROTO_MASK, LANGUAGE_EXT_MASK, SCRIPT_MASK, REGION_MASK,
    EMPTY_CODE, lang_bits, langext_bits, script_bits, region_bits, stray_bits, is_full,
    spec_update, update_tag, lemma_update_fields, lemma_field_decomposition,
    lemma_mask_algebra, keep_cand, broaden_spec,
};
use crate::subtag::decode_subtag_chars;
use crate::display::{
    lang_part, extlang_part, script_part, region_part, unparse_tag_spec, und_chars,
    decode_extlang, decode_script, decode_region, unparse_tag,
};
use crate::parser::{
    LanguageCodeError, ParseOutcome, ParseFault, parse_tokens, split_tokens, normalize_chars,
    normalize, parse_lowercase_tag,
};
use crate::tables::{
    tag_replace_spec, tag_replace, has_lang_replace, lang_replace_val, lang_replace_lookup,
    has_region_replace, region_replace_val, region_replace_lookup, has_likely, likely_val,
    likely_lookup, has_match_dist, match_dist_val, match_dist_lookup, lemma_likely_entry,
    lemma_match_dist_entry, INHERIT_SCRIPT, INHERIT_SCRIPT_OLD,
};
use crate::strutil::{chars_to_string, chars_eq_str};

verus! {

/// A language code: one packed `u64`, wrapped.  Copy it freely.
#[derive(PartialEq, Eq, Structural, Clone, Copy, Debug, Hash)]
pub struct LanguageCode {
    pub(crate) data: u64,
}

impl View for LanguageCode {
    type V = u64;

    open(crate) spec fn view(&self) -> u64 {
        self.data
    }
}

/// Two codes are equal exactly when their packed values are.
pub proof fn lemma_code_eq(a: LanguageCode, b: LanguageCode)
    ensures
        (a == b) <==> (a@ == b@),
{
}

/// The alias substitutions applied after a shape-machine parse:
/// language replacement (keeping the caller's other fields), the
/// `Qaai` to `Zinh` script fixup, then region replacement.
pub open spec fn substitute_spec(v: u64) -> u64 {
    let v1 = if has_lang_replace(lang_bits(v)) {
        spec_update(spec_update(v, lang_replace_val(lang_bits(v))), v & !LANGUAGE_EXT_MASK)
    } else {
        v
    };
    let v2 = if script_bits(v1) == INHERIT_SCRIPT_OLD {
        spec_update(v1, INHERIT_SCRIPT)
    } else {
        v1
    };
    if has_region_replace(region_bits(v2)) {
        spec_update(v2, region_replace_val(region_bits(v2)))
    } else {
        v2
    }
}

/// What `LanguageCode::parse` yields: the whole-tag aliases first,
/// else the shape machine followed by the substitutions.
pub open spec fn lc_parse_spec(s: Seq<char>) -> ParseOutcome {
    let norm = normalize_chars(s);
    match tag_replace_spec(norm) {
        Option::Some(repl) => ParseOutcome::Value(repl),
        Option::None => match parse_tokens(split_tokens(norm)) {
            ParseOutcome::Value(v) => ParseOutcome::Value(substitute_spec(v)),
            out => out,
        },
    }
}

/// The first likely-subtags hit along a candidate list, merged with
/// the original code; the code itself when no candidate hits.
pub open spec fn max_from(cands: Seq<u64>, c: u64) -> u64
    decreases cands.len(),
{
    if cands.len() == 0 {
        c
    } else if has_likely(cands[0]) {
        spec_update(likely_val(cands[0]), c)
    } else {
        max_from(cands.skip(1), c)
    }
}

/// The maximal (likely-subtags) form of a code.
pub open spec fn maximize_spec(c: u64) -> u64 {
    if is_full(c) {
        c
    } else if has_likely(c) {
        likely_val(c)
    } else {
        max_from(broaden_spec(c), c)
    }
}

/// The minimal form: the narrowest of language, language-script, and
/// language-region that still maximizes to the same code.
pub open spec fn minimize_spec(c: u64) -> u64 {
    let m = maximize_spec(c);
    if maximize_spec(c & LANGUAGE_MASK) == m {
        c & LANGUAGE_MASK
    } else if maximize_spec(c & (LANGUAGE_MASK | SCRIPT_MASK)) == m {
        c & (LANGUAGE_MASK | SCRIPT_MASK)
    } else if maximize_spec(c & (LANGUAGE_MASK | REGION_MASK)) == m {
        c & (LANGUAGE_MASK | REGION_MASK)
    } else {
        c
    }
}

/// Some broadening candidate always has a likely-subtags entry: at
/// the latest, the empty code at the end of the list.
pub proof fn lemma_broaden_has_hit(c: u64)
    requires
        c != EMPTY_CODE,
    ensures
        exists|j: int|
            0 <= j < broaden_spec(c).len() && has_likely(#[trigger] broaden_spec(c)[j]),
{
    let b = broaden_spec(c);
    assert(keep_cand(EMPTY_CODE, c) == seq![EMPTY_CODE]);
    assert(b[b.len() - 1] == EMPTY_CODE);
    assert(has_likely(EMPTY_CODE));
}

/// A code with language-or-extlang, script, region all present and
/// no stray bits passes through any likely-subtags merge unchanged.
pub proof fn lemma_update_absorbs(v: u64, m: u64)
    requires
        langext_bits(m) != 0,
        script_bits(m) != 0,
        region_bits(m) != 0,
        stray_bits(m) == 0,
        stray_bits(v) == 0,
    ensures
        spec_update(v, m) == m,
{
    lemma_update_fields(v, m);
    lemma_field_decomposition(m);
    lemma_field_decomposition(spec_update(v, m));
}

/// `max_from` returns such a code unchanged, as soon as any
/// candidate hits.
pub proof fn lemma_max_from_self(cands: Seq<u64>, m: u64)
    requires
        langext_bits(m) != 0,
        script_bits(m) != 0,
        region_bits(m) != 0,
        stray_bits(m) == 0,
        exists|j: int| 0 <= j < cands.len() && has_likely(#[trigger] cands[j]),
    ensures
        max_from(cands, m) == m,
    decreases cands.len(),
{
    let w = choose|j: int| 0 <= j < cands.len() && has_likely(#[trigger] cands[j]);
    assert(0 <= w < cands.len());
    if has_likely(cands[0]) {
        lemma_likely_entry(cands[0]);
        lemma_field_decomposition(likely_val(cands[0]));
        lemma_update_absorbs(likely_val(cands[0]), m);
    } else {
        assert(cands.skip(1)[w - 1] == cands[w]);
        lemma_max_from_self(cands.skip(1), m);
    }
}

/// The shape of every maximized code: either it is full, or its
/// language is empty while an extlang or the proto flag is present;
/// in both cases script and region are present, and except for a
/// full input's own bits nothing stray remains.
pub proof fn lemma_maximize_shape(c: u64)
    ensures
        is_full(c) ==> maximize_spec(c) == c,
        !is_full(c) ==> langext_bits(maximize_spec(c)) != 0 && script_bits(maximize_spec(c)) != 0
            && region_bits(maximize_spec(c)) != 0 && stray_bits(maximize_spec(c)) == 0,
{
    if is_full(c) {
    } else if has_likely(c) {
        lemma_likely_entry(c);
        lemma_field_decomposition(likely_val(c));
    } else {
        lemma_broaden_has_hit(c);
        lemma_max_from_shape(broaden_spec(c), c);
    }
}

/// In the search case the result is some entry merged with `c`, and
/// its fields are present as `lemma_maximize_shape` states.
pub proof fn lemma_max_from_shape(cands: Seq<u64>, c: u64)
    requires
        exists|j: int| 0 <= j < cands.len() && has_likely(#[trigger] cands[j]),
    ensures
        langext_bits(max_from(cands, c)) != 0,
        script_bits(max_from(cands, c)) != 0,
        region_bits(max_from(cands, c)) != 0,
        stray_bits(max_from(cands, c)) == 0,
    decreases cands.len(),
{
    let w = choose|j: int| 0 <= j < cands.len() && has_likely(#[trigger] cands[j]);
    assert(0 <= w < cands.len());
    if has_likely(cands[0]) {
        let v0 = likely_val(cands[0]);
        lemma_likely_entry(cands[0]);
        assert(v0 & LANGUAGE_MASK != 0);
        lemma_field_decomposition(v0);
        assert(langext_bits(v0) != 0);
        assert(script_bits(v0) != 0);
        assert(region_bits(v0) != 0);
        assert(stray_bits(v0) == 0);
        assert(max_from(cands, c) == spec_update(v0, c));
        lemma_update_fields(v0, c);
        assert(langext_bits(spec_update(v0, c)) != 0);
        assert(script_bits(spec_update(v0, c)) != 0);
        assert(region_bits(spec_update(v0, c)) != 0);
        assert(stray_bits(spec_update(v0, c)) == 0);
    } else {
        assert(cands.skip(1)[w - 1] == cands[w]);
        lemma_max_from_shape(cands.skip(1), c);
    }
}

/// Maximizing is idempotent.
pub proof fn lemma_maximize_idempotent(c: u64)
    ensures
        maximize_spec(maximize_spec(c)) == maximize_spec(c),
{
    let m = maximize_spec(c);
    lemma_maximize_shape(c);
    if is_full(c) {
    } else {
        lemma_field_decomposition(m);
        if is_full(m) {
        } else {
            assert(lang_bits(m) == 0 && langext_bits(m) != 0);
            assert(m & (EXTLANG_MASK | PROTO_MASK) != 0);
            lemma_likely_entry(m);
            assert(!has_likely(m));
            assert(m != EMPTY_CODE);
            lemma_broaden_has_hit(m);
            lemma_max_from_self(broaden_spec(m), m);
        }
    }
}

/// Minimizing is idempotent.
pub proof fn lemma_minimize_idempotent(c: u64)
    ensures
        minimize_spec(minimize_spec(c)) == minimize_spec(c),
{
    lemma_mask_algebra(c);
    lemma_max_min_fixpoint(c);
}

/// Maximizing the minimal form gives the maximal form back.
pub proof fn lemma_max_min_fixpoint(c: u64)
    ensures
        maximize_spec(minimize_spec(c)) == maximize_spec(c),
{
}

impl LanguageCode {
    /// Wrap a packed value.
    pub fn new(val: u64) -> (r: LanguageCode)
        ensures
            r@ == val,
    {
        LanguageCode { data: val }
    }

    /// The language subtag as text, `und` when absent.
    pub fn language_subtag(self) -> (r: String)
        ensures
            r@ == lang_part(self@),
    {
        crate::display::decode_language(self.data)
    }

    /// The language subtag, or `None` when it is unknown.
    pub fn get_language(self) -> (r: Option<String>)
        ensures
            r is None <==> lang_part(self@) == und_chars(),
            r matches Some(s) ==> s@ == lang_part(self@),
    {
        match decode_subtag_chars((self.data & LANGUAGE_MASK) >> LANGUAGE_SHIFT) {
            Option::Some(chars) => {
                if chars_eq_str(&chars, "und") {
                    proof {
                        reveal_strlit("und");
                        assert("und"@ =~= und_chars());
                    }
                    Option::None
                } else {
                    proof {
                        reveal_strlit("und");
                        assert("und"@ =~= und_chars());
                    }
                    Option::Some(chars_to_string(&chars))
                }
            },
            Option::None => Option::None,
        }
    }

    /// The extlang subtag, if present; `pro` marks a proto-language.
    pub fn get_extlang(self) -> (r: Option<String>)
        ensures
            r is None <==> extlang_part(self@) is None,
            r matches Some(s) ==> extlang_part(self@) == Some(s@),
    {
        decode_extlang(self.data)
    }

    /// This code with script and region removed: only the language
    /// (and extlang) remains.
    pub fn language_only(self) -> (r: LanguageCode)
        ensures
            r@ == langext_bits(self@),
    {
        LanguageCode { data: self.data & LANGUAGE_EXT_MASK }
    }

    /// The script subtag as title-cased text, if present.
    pub fn get_script(&self) -> (r: Option<String>)
        ensures
            r is None <==> script_part(self@) is None,
            r matches Some(s) ==> script_part(self@) == Some(s@),
    {
        decode_script(self.data)
    }

    /// The region subtag as uppercased text, if present.
    pub fn get_region(&self) -> (r: Option<String>)
        ensures
            r is None <==> region_part(self@) is None,
            r matches Some(s) ==> region_part(self@) == Some(s@),
    {
        decode_region(self.data)
    }

    /// The canonical hyphen-joined text of this code.
    pub fn to_string(&self) -> (r: String)
        ensures
            r@ == unparse_tag_spec(self@),
    {
        unparse_tag(self.data)
    }

    /// Parse text into a normalized code: whole-tag aliases first,
    /// else the shape machine followed by language, script, and
    /// region substitutions.
    pub fn parse(tag: &str) -> (r: Result<LanguageCode, LanguageCodeError>)
        requires
            !(lc_parse_spec(tag@) is Undefined),
        ensures
            lc_parse_spec(tag@) matches ParseOutcome::Value(v) ==> (r matches Ok(c) && c@ == v),
            lc_parse_spec(tag@) == ParseOutcome::Failure(ParseFault::InvalidCharacter) ==> (
            r matches Err(LanguageCodeError::InvalidCharacter(s)) && s@ == normalize_chars(tag@)),
            lc_parse_spec(tag@) == ParseOutcome::Failure(ParseFault::SubtagFormat) ==> (r matches
                Err(LanguageCodeError::SubtagFormatError(s)) && s@ == normalize_chars(tag@)),
            lc_parse_spec(tag@) == ParseOutcome::Failure(ParseFault::NoSubtag) ==> (r matches Err(
                LanguageCodeError::ParseError(s),
            ) && s@ == normalize_chars(tag@)),
    {
        let norm = normalize(tag);
        match tag_replace(&norm) {
            Option::Some(repl) => Result::Ok(LanguageCode { data: repl }),
            Option::None => {
                let mut val = match parse_lowercase_tag(&norm) {
                    Result::Ok(v) => v,
                    Result::Err(e) => {
                        return Result::Err(e);
                    },
                };
                match lang_replace_lookup(val & LANGUAGE_MASK) {
                    Option::Some(newlang) => {
                        val = update_tag(update_tag(val, newlang), val & !LANGUAGE_EXT_MASK);
                    },
                    Option::None => {},
                }
                if val & SCRIPT_MASK == INHERIT_SCRIPT_OLD {
                    val = update_tag(val, INHERIT_SCRIPT);
                }
                match region_replace_lookup(val & REGION_MASK) {
                    Option::Some(newregion) => {
                        val = update_tag(val, newregion);
                    },
                    Option::None => {},
                }
                Result::Ok(LanguageCode { data: val })
            },
        }
    }

    /// The more general forms of this code, most specific first.
    pub fn broaden(self) -> (r: Vec<LanguageCode>)
        ensures
            r@.map_values(|x: LanguageCode| x@) == broaden_spec(self@),
    {
        let cands = crate::fields::broader_tags(self.data);
        let mut out: Vec<LanguageCode> = Vec::new();
        let mut i: usize = 0;
        while i < cands.len()
            invariant
                0 <= i <= cands@.len(),
                out@.len() == i,
                forall|k: int| 0 <= k < i ==> #[trigger] out@[k]@ == cands@[k],
            decreases cands@.len() - i,
        {
            out.push(LanguageCode { data: cands[i] });
            i += 1;
        }
        if self.data != EMPTY_CODE {
            out.push(LanguageCode { data: EMPTY_CODE });
        }
        proof {
            assert(out@.map_values(|x: LanguageCode| x@) =~= broaden_spec(self@));
        }
        out
    }

    /// Fill in the most likely script, region, and language for the
    /// fields this code leaves unspecified.
    pub fn maximize(self) -> (r: Self)
        ensures
            r@ == maximize_spec(self@),
    {
        if (self.data & LANGUAGE_MASK != 0) && (self.data & SCRIPT_MASK != 0) && (self.data
            & REGION_MASK != 0) {
            return self;
        }
        match likely_lookup(self.data) {
            Option::Some(max) => {
                return LanguageCode { data: max };
            },
            Option::None => {},
        }
        let ghost cands = broaden_spec(self@);
        let broader = crate::fields::broader_tags(self.data);
        proof {
            if self@ == EMPTY_CODE {
                assert(has_likely(EMPTY_CODE));
                assert(false);
            }
            lemma_broaden_has_hit(self@);
            assert(cands == broader@ + keep_cand(EMPTY_CODE, self@));
            assert(cands.skip(0) =~= cands);
        }
        let mut i: usize = 0;
        while i < broader.len()
            invariant
                0 <= i <= broader@.len(),
                cands == broaden_spec(self@),
                cands == broader@ + keep_cand(EMPTY_CODE, self@),
                self@ != EMPTY_CODE,
                forall|k: int| 0 <= k < i ==> !has_likely(#[trigger] broader@[k]),
                max_from(cands, self@) == max_from(cands.skip(i as int), self@),
                !is_full(self@),
                !has_likely(self@),
            decreases broader@.len() - i,
        {
            match likely_lookup(broader[i]) {
                Option::Some(max) => {
                    proof {
                        assert(cands.skip(i as int)[0] == broader@[i as int]);
                    }
                    return LanguageCode { data: update_tag(max, self.data) };
                },
                Option::None => {},
            }
            proof {
                assert(cands.skip(i as int)[0] == broader@[i as int]);
                assert(cands.skip(i as int).skip(1) =~= cands.skip(i as int + 1));
            }
            i += 1;
        }
        proof {
            assert(cands.skip(broader@.len() as int) =~= keep_cand(EMPTY_CODE, self@));
            assert(keep_cand(EMPTY_CODE, self@) == seq![EMPTY_CODE]);
            assert(cands.skip(broader@.len() as int)[0] == EMPTY_CODE);
            assert(has_likely(EMPTY_CODE));
        }
        let last = match likely_lookup(EMPTY_CODE) {
            Option::Some(max) => max,
            Option::None => {
                proof {
                    assert(false);
                }
                0
            },
        };
        LanguageCode { data: update_tag(last, self.data) }
    }

    /// Remove every field that maximizing would add back, favoring
    /// script over region.
    pub fn minimize(self) -> (r: Self)
        ensures
            r@ == minimize_spec(self@),
    {
        let max = self.maximize();
        let c1 = LanguageCode { data: self.data & LANGUAGE_MASK };
        if c1.maximize() == max {
            return c1;
        }
        let c2 = LanguageCode { data: self.data & (LANGUAGE_MASK | SCRIPT_MASK) };
        if c2.maximize() == max {
            return c2;
        }
        let c3 = LanguageCode { data: self.data & (LANGUAGE_MASK | REGION_MASK) };
        if c3.maximize() == max {
            return c3;
        }
        self
    }
}

/// Parse a literal into a code.  The text must parse; use
/// `LanguageCode::parse` for text that may be rejected.
pub fn lang(s: &str) -> (r: LanguageCode)
    requires
        lc_parse_spec(s@) is Value,
    ensures
        lc_parse_spec(s@) matches ParseOutcome::Value(v) && r@ == v,
{
    match LanguageCode::parse(s) {
        Result::Ok(code) => code,
        Result::Err(_) => {
            proof {
                assert(false);
            }
            LanguageCode::new(0)
        },
    }
}

} // verus!
