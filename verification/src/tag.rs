//! A fixed-size language tag: ten bytes of text fields.
//!
//! `LanguageTag` stores the language (three bytes), script (four
//! bytes), and region (three bytes) as space-padded text in one
//! small buffer, already re-cased: language lowercase, script
//! title-case, region uppercase.  Parsing uses the same token shapes
//! as the packed-code parser, with a string-valued alias table; when
//! a language alias also supplies a script or region, a script or
//! region given by the caller wins.

use vstd::prelude::*;
use vstd::string::StringSliceAdditionalSpecFns;
use crate::parser::{
    ParseFault, ParserState, language_state, normalize_chars, normalize, split_tokens, check_chars,
    is_extension_tok, is_region_tok, is_script_tok,
};
use crate::subtag::{is_digit_char, is_low_alpha};
use crate::strutil::{chars_to_string, chars_eq_str, str_to_chars};

verus! {

/// The padding byte of unused buffer positions.
pub const PAD: u8 = 0x20u8;

/// What can go wrong while parsing into a `LanguageTag`.
#[derive(PartialEq, Eq, Structural, Debug, Clone, Copy)]
pub enum LanguageTagError {
    /// The tag held a character outside `[0-9a-z]` after
    /// normalization.
    InvalidCharacter,
    /// A subtag had an unexpected shape, or stood in the wrong order.
    SubtagFormatError,
    /// No subtag could be read at all.
    ParseError,
}

/// The abstract result of a buffer parse.
pub enum TagOutcome {
    Filled(Seq<u8>),
    Failure(ParseFault),
}

/// A variant token here: starting with a digit, or five or more
/// characters.
pub open spec fn is_variant_text_tok(t: Seq<char>) -> bool {
    t.len() >= 1 && (is_digit_char(t[0]) || t.len() >= 5)
}

/// An extlang token here: exactly three characters.
pub open spec fn is_extlang_text_tok(t: Seq<char>) -> bool {
    t.len() == 3
}

pub open spec fn min_int(a: int, b: int) -> int {
    if a < b {
        a
    } else {
        b
    }
}

/// Write up to `length` bytes of `s` into `arr` at `offset`.
pub open spec fn write_fixed(arr: Seq<u8>, s: Seq<u8>, offset: int, length: int) -> Seq<u8> {
    Seq::new(
        arr.len(),
        |i: int|
            if offset <= i < offset + min_int(length, s.len() as int) {
                s[i - offset]
            } else {
                arr[i]
            },
    )
}

/// The bytes of an ASCII token.
pub open spec fn token_bytes(t: Seq<char>) -> Seq<u8> {
    t.map_values(|c: char| c as u8)
}

pub open spec fn upper_byte(b: u8) -> u8 {
    if 97 <= b && b <= 122 {
        (b - 32) as u8
    } else {
        b
    }
}

pub open spec fn upper_bytes(s: Seq<u8>) -> Seq<u8> {
    s.map_values(|b: u8| upper_byte(b))
}

/// Title-case a token's bytes: first byte uppercased.
pub open spec fn title_bytes(s: Seq<u8>) -> Seq<u8> {
    if s.len() == 0 {
        s
    } else {
        seq![upper_byte(s[0])] + s.skip(1)
    }
}

pub open spec fn empty_buf() -> Seq<u8> {
    Seq::new(10, |i: int| PAD)
}

/// Run the text-field machine over the tokens from `i` on.
pub open spec fn tag_run(tokens: Seq<Seq<char>>, i: int, state: ParserState, buf: Seq<u8>) -> TagOutcome
    decreases tokens.len() - i,
{
    if i < 0 || i >= tokens.len() {
        TagOutcome::Filled(buf)
    } else {
        let t = tokens[i];
        let ls = language_state(state);
        if !check_chars(t) {
            TagOutcome::Failure(ParseFault::InvalidCharacter)
        } else if is_extension_tok(t) {
            TagOutcome::Filled(buf)
        } else if state != ParserState::AfterVariant && is_variant_text_tok(t) {
            tag_run(tokens, i + 1, ParserState::AfterVariant, buf)
        } else if (ls >= 0 || state == ParserState::AfterScript) && is_region_tok(t) {
            tag_run(
                tokens,
                i + 1,
                ParserState::AfterRegion,
                write_fixed(buf, upper_bytes(token_bytes(t)), 7, 3),
            )
        } else if ls >= 0 && is_script_tok(t) {
            tag_run(
                tokens,
                i + 1,
                ParserState::AfterScript,
                write_fixed(buf, title_bytes(token_bytes(t)), 3, 4),
            )
        } else if ls >= 0 && ls < 3 && is_extlang_text_tok(t) {
            tag_run(tokens, i + 1, ParserState::AfterLanguage((ls + 1) as i32), buf)
        } else {
            TagOutcome::Failure(ParseFault::SubtagFormat)
        }
    }
}

/// Parse a whole token list into a buffer that starts as `init`.
pub open spec fn tag_parse_tokens(tokens: Seq<Seq<char>>, init: Seq<u8>) -> TagOutcome {
    if tokens.len() == 0 {
        TagOutcome::Failure(ParseFault::NoSubtag)
    } else {
        let t = tokens[0];
        if t == seq!['i'] || t == seq!['x'] {
            tag_run(
                tokens,
                1,
                ParserState::AfterLanguage(0),
                write_fixed(init, seq![109u8, 105u8, 115u8], 0, 3),
            )
        } else if t == crate::parser::und_tok() {
            tag_run(tokens, 1, ParserState::AfterLanguage(0), init)
        } else if !check_chars(t) {
            TagOutcome::Failure(ParseFault::InvalidCharacter)
        } else {
            tag_run(
                tokens,
                1,
                ParserState::AfterLanguage(0),
                write_fixed(init, token_bytes(t), 0, 3),
            )
        }
    }
}

/// The string-valued alias table of this representation; the values
/// are already normalized text.
pub open spec fn tag_replacement_spec(t: Seq<char>) -> Option<Seq<char>> {
    if t == "sh"@ {
        Some("sr-latn"@)
    } else if t == "no"@ {
        Some("nb"@)
    } else if t == "no-bokmal"@ {
        Some("nb"@)
    } else if t == "no-nynorsk"@ {
        Some("nn"@)
    } else if t == "i-hak"@ {
        Some("hak"@)
    } else if t == "i-navajo"@ {
        Some("nv"@)
    } else if t == "sgn-be-fr"@ {
        Some("sfb"@)
    } else if t == "sgn-be-nl"@ {
        Some("vgt"@)
    } else if t == "sgn-ch-de"@ {
        Some("sgg"@)
    } else if t == "zh-cn"@ {
        Some("zh-hans-cn"@)
    } else if t == "zh-tw"@ {
        Some("zh-hant-tw"@)
    } else if t == "zh-hk"@ {
        Some("zh-hant-hk"@)
    } else if t == "zh-sg"@ {
        Some("zh-hans-sg"@)
    } else if t == "mn-cyrl-mn"@ {
        Some("mn-mn"@)
    } else if t == "fra"@ {
        Some("fr"@)
    } else if t == "fre"@ {
        Some("fr"@)
    } else if t == "eng"@ {
        Some("en"@)
    } else if t == "deu"@ {
        Some("de"@)
    } else if t == "ger"@ {
        Some("de"@)
    } else if t == "in"@ {
        Some("id"@)
    } else if t == "iw"@ {
        Some("he"@)
    } else if t == "ji"@ {
        Some("yi"@)
    } else if t == "tl"@ {
        Some("fil"@)
    } else if t == "mo"@ {
        Some("ro"@)
    } else {
        None
    }
}

/// Drop trailing padding bytes.
pub open spec fn trim_pads(s: Seq<u8>) -> Seq<u8>
    decreases s.len(),
{
    if s.len() > 0 && s.last() == PAD {
        trim_pads(s.drop_last())
    } else {
        s
    }
}

/// The bytes of a buffer's field as characters.
pub open spec fn field_chars(s: Seq<u8>) -> Seq<char> {
    s.map_values(|b: u8| b as char)
}

/// The language key of a filled buffer, used for the alias lookup:
/// the trimmed first field, absent when it starts with padding.
pub open spec fn buf_lang_key(buf: Seq<u8>) -> Option<Seq<char>> {
    if buf[0] == PAD {
        None
    } else {
        Some(field_chars(trim_pads(buf.subrange(0, 3))))
    }
}

/// Re-assert the script and region the original buffer itself held,
/// over a buffer rewritten by a language alias.
pub open spec fn restore_fields(orig: Seq<u8>, buf: Seq<u8>) -> Seq<u8> {
    Seq::new(
        10,
        |i: int|
            if 3 <= i < 7 && orig[3] != PAD {
                orig[i]
            } else if 7 <= i < 10 && orig[7] != PAD {
                orig[i]
            } else {
                buf[i]
            },
    )
}

/// What parsing text into a `LanguageTag` yields.
pub open spec fn tag_parse_spec(s: Seq<char>) -> TagOutcome {
    let norm = normalize_chars(s);
    match tag_replacement_spec(norm) {
        Some(repl) => tag_parse_tokens(split_tokens(repl), empty_buf()),
        None => match tag_parse_tokens(split_tokens(norm), empty_buf()) {
            TagOutcome::Filled(buf) => match buf_lang_key(buf) {
                Some(key) => match tag_replacement_spec(key) {
                    Some(repl) => match tag_parse_tokens(split_tokens(repl), buf) {
                        TagOutcome::Filled(buf2) => TagOutcome::Filled(restore_fields(buf, buf2)),
                        f => f,
                    },
                    None => TagOutcome::Filled(buf),
                },
                None => TagOutcome::Filled(buf),
            },
            f => f,
        },
    }
}

/// A language tag held as ten bytes of space-padded text.
#[derive(Debug)]
pub struct LanguageTag {
    pub(crate) data: Vec<u8>,
}

impl View for LanguageTag {
    type V = Seq<u8>;

    open(crate) spec fn view(&self) -> Seq<u8> {
        self.data@
    }
}

impl LanguageTag {
    #[verifier::type_invariant]
    spec fn wf(self) -> bool {
        self.data@.len() == 10
    }
}

impl PartialEq for LanguageTag {
    fn eq(&self, other: &LanguageTag) -> (r: bool) {
        proof {
            use_type_invariant(self);
            use_type_invariant(other);
        }
        let mut i: usize = 0;
        while i < 10
            invariant
                0 <= i <= 10,
                self@.len() == 10,
                other@.len() == 10,
                forall|j: int| 0 <= j < i ==> self@[j] == other@[j],
            decreases 10 - i,
        {
            if self.data[i] != other.data[i] {
                return false;
            }
            i += 1;
        }
        proof {
            assert(self@ =~= other@);
        }
        true
    }
}

impl vstd::std_specs::cmp::PartialEqSpecImpl for LanguageTag {
    open spec fn obeys_eq_spec() -> bool {
        true
    }

    open spec fn eq_spec(&self, other: &LanguageTag) -> bool {
        self@ == other@
    }
}

/// Write up to `length` bytes of `s` into the buffer at `offset`.
fn write_into_fixed(arr: &mut Vec<u8>, s: &Vec<u8>, offset: usize, length: usize)
    requires
        old(arr)@.len() == 10,
        offset + length <= 10,
    ensures
        final(arr)@ == write_fixed(old(arr)@, s@, offset as int, length as int),
{
    let n = if s.len() < length {
        s.len()
    } else {
        length
    };
    let mut i: usize = 0;
    while i < n
        invariant
            0 <= i <= n,
            n == min_int(length as int, s@.len() as int),
            offset + length <= 10,
            arr@.len() == 10,
            forall|j: int|
                0 <= j < 10 ==> arr@[j] == (if offset <= j < offset + i {
                    s@[j - offset]
                } else {
                    old(arr)@[j]
                }),
        decreases n - i,
    {
        arr.set(offset + i, s[i]);
        i += 1;
    }
    proof {
        assert(final(arr)@ =~= write_fixed(old(arr)@, s@, offset as int, length as int));
    }
}

/// The bytes of an ASCII token.
fn token_to_bytes(t: &Vec<char>) -> (r: Vec<u8>)
    requires
        check_chars(t@),
    ensures
        r@ == token_bytes(t@),
{
    let mut out: Vec<u8> = Vec::new();
    let mut i: usize = 0;
    while i < t.len()
        invariant
            0 <= i <= t@.len(),
            check_chars(t@),
            out@ =~= token_bytes(t@).take(i as int),
        decreases t@.len() - i,
    {
        proof {
            assert(is_digit_char(t@[i as int]) || is_low_alpha(t@[i as int]));
        }
        out.push(t[i] as u8);
        i += 1;
        proof {
            assert(out@ =~= token_bytes(t@).take(i as int));
        }
    }
    proof {
        assert(token_bytes(t@).take(t@.len() as int) =~= token_bytes(t@));
    }
    out
}

fn upper_byte_vec(v: Vec<u8>) -> (r: Vec<u8>)
    ensures
        r@ == upper_bytes(v@),
{
    let mut out: Vec<u8> = Vec::new();
    let mut i: usize = 0;
    while i < v.len()
        invariant
            0 <= i <= v@.len(),
            out@ =~= upper_bytes(v@).take(i as int),
        decreases v@.len() - i,
    {
        let b = v[i];
        if 97 <= b && b <= 122 {
            out.push(b - 32);
        } else {
            out.push(b);
        }
        i += 1;
        proof {
            assert(out@ =~= upper_bytes(v@).take(i as int));
        }
    }
    proof {
        assert(upper_bytes(v@).take(v@.len() as int) =~= upper_bytes(v@));
    }
    out
}

fn title_byte_vec(v: Vec<u8>) -> (r: Vec<u8>)
    ensures
        r@ == title_bytes(v@),
{
    if v.len() == 0 {
        return v;
    }
    let mut out: Vec<u8> = Vec::new();
    let b = v[0];
    if 97 <= b && b <= 122 {
        out.push(b - 32);
    } else {
        out.push(b);
    }
    let mut i: usize = 1;
    while i < v.len()
        invariant
            1 <= i <= v@.len(),
            out@ =~= title_bytes(v@).take(i as int),
            title_bytes(v@).len() == v@.len(),
        decreases v@.len() - i,
    {
        out.push(v[i]);
        i += 1;
        proof {
            assert(out@ =~= title_bytes(v@).take(i as int));
        }
    }
    proof {
        assert(title_bytes(v@).take(v@.len() as int) =~= title_bytes(v@));
    }
    out
}

/// Run the text-field machine over already-normalized tag text,
/// writing into `target`.
fn parse_into(target: &mut Vec<u8>, norm: &Vec<char>) -> (r: Result<(), LanguageTagError>)
    requires
        old(target)@.len() == 10,
    ensures
        final(target)@.len() == 10,
        tag_parse_tokens(split_tokens(norm@), old(target)@) matches TagOutcome::Filled(b) ==> (
        r is Ok && final(target)@ == b),
        tag_parse_tokens(split_tokens(norm@), old(target)@) == TagOutcome::Failure(
            ParseFault::InvalidCharacter,
        ) ==> r == Result::<(), LanguageTagError>::Err(LanguageTagError::InvalidCharacter),
        tag_parse_tokens(split_tokens(norm@), old(target)@) == TagOutcome::Failure(
            ParseFault::SubtagFormat,
        ) ==> r == Result::<(), LanguageTagError>::Err(LanguageTagError::SubtagFormatError),
        tag_parse_tokens(split_tokens(norm@), old(target)@) == TagOutcome::Failure(
            ParseFault::NoSubtag,
        ) ==> r == Result::<(), LanguageTagError>::Err(LanguageTagError::ParseError),
{
    let tokens = crate::parser::split_chars(norm);
    let ghost tv = tokens.deep_view();
    let n = tokens.len();
    proof {
        assert(tv.len() == n);
        assert(forall|k: int| 0 <= k < n ==> tv[k] == #[trigger] tokens@[k]@);
    }
    if n == 0 {
        return Result::Err(LanguageTagError::ParseError);
    }
    let first = &tokens[0];
    if chars_eq_str(first, "i") || chars_eq_str(first, "x") {
        proof {
            reveal_strlit("i");
            reveal_strlit("x");
            assert("i"@ =~= seq!['i'] && "x"@ =~= seq!['x']);
        }
        let mut mis: Vec<u8> = Vec::new();
        mis.push(109);
        mis.push(105);
        mis.push(115);
        proof {
            assert(mis@ =~= seq![109u8, 105u8, 115u8]);
        }
        write_into_fixed(target, &mis, 0, 3);
    } else {
        let is_und = chars_eq_str(first, "und");
        proof {
            reveal_strlit("i");
            reveal_strlit("x");
            reveal_strlit("und");
            assert("i"@ =~= seq!['i'] && "x"@ =~= seq!['x']);
            assert("und"@ =~= crate::parser::und_tok());
        }
        if is_und {
        } else if !crate::parser::check_characters(first) {
            return Result::Err(LanguageTagError::InvalidCharacter);
        } else {
            let fb = token_to_bytes(first);
            write_into_fixed(target, &fb, 0, 3);
        }
    }
    let ghost buf0 = target@;
    let mut state = ParserState::AfterLanguage(0);
    let mut i: usize = 1;
    while i < n
        invariant
            1 <= i <= n,
            n == tv.len(),
            n == tokens@.len(),
            tv == tokens.deep_view(),
            tv == split_tokens(norm@),
            forall|k: int| 0 <= k < n ==> tv[k] == #[trigger] tokens@[k]@,
            target@.len() == 10,
            tag_parse_tokens(tv, old(target)@) == tag_run(tv, i as int, state, target@),
        decreases n - i,
    {
        let t = &tokens[i];
        let ghost ts = t@;
        let ls: i32 = match state {
            ParserState::AfterLanguage(num) => num,
            _ => -1,
        };
        proof {
            assert(language_state(state) == ls as int);
        }
        if !crate::parser::check_characters(t) {
            return Result::Err(LanguageTagError::InvalidCharacter);
        }
        if crate::parser::is_extension(t) {
            return Result::Ok(());
        } else if state != ParserState::AfterVariant && is_variant_text(t) {
            state = ParserState::AfterVariant;
        } else if (ls >= 0 || state == ParserState::AfterScript) && crate::parser::is_region(t) {
            let rb = upper_byte_vec(token_to_bytes(t));
            write_into_fixed(target, &rb, 7, 3);
            state = ParserState::AfterRegion;
        } else if ls >= 0 && crate::parser::is_script(t) {
            let sb = title_byte_vec(token_to_bytes(t));
            write_into_fixed(target, &sb, 3, 4);
            state = ParserState::AfterScript;
        } else if ls >= 0 && ls < 3 && is_extlang_text(t) {
            state = ParserState::AfterLanguage(ls + 1);
        } else {
            return Result::Err(LanguageTagError::SubtagFormatError);
        }
        i += 1;
    }
    Result::Ok(())
}

fn is_variant_text(t: &Vec<char>) -> (r: bool)
    ensures
        r == is_variant_text_tok(t@),
{
    if t.len() == 0 {
        return false;
    }
    let cv = t[0] as u32;
    (48 <= cv && cv <= 57) || t.len() >= 5
}

fn is_extlang_text(t: &Vec<char>) -> (r: bool)
    ensures
        r == is_extlang_text_tok(t@),
{
    t.len() == 3
}

/// Look normalized text up among the string-valued aliases.
fn tag_replacement(t: &Vec<char>) -> (r: Option<&'static str>)
    ensures
        r is None <==> tag_replacement_spec(t@) is None,
        r matches Some(s) ==> tag_replacement_spec(t@) == Some(s@),
{
    if chars_eq_str(t, "sh") {
        Some("sr-latn")
    } else if chars_eq_str(t, "no") {
        Some("nb")
    } else if chars_eq_str(t, "no-bokmal") {
        Some("nb")
    } else if chars_eq_str(t, "no-nynorsk") {
        Some("nn")
    } else if chars_eq_str(t, "i-hak") {
        Some("hak")
    } else if chars_eq_str(t, "i-navajo") {
        Some("nv")
    } else if chars_eq_str(t, "sgn-be-fr") {
        Some("sfb")
    } else if chars_eq_str(t, "sgn-be-nl") {
        Some("vgt")
    } else if chars_eq_str(t, "sgn-ch-de") {
        Some("sgg")
    } else if chars_eq_str(t, "zh-cn") {
        Some("zh-hans-cn")
    } else if chars_eq_str(t, "zh-tw") {
        Some("zh-hant-tw")
    } else if chars_eq_str(t, "zh-hk") {
        Some("zh-hant-hk")
    } else if chars_eq_str(t, "zh-sg") {
        Some("zh-hans-sg")
    } else if chars_eq_str(t, "mn-cyrl-mn") {
        Some("mn-mn")
    } else if chars_eq_str(t, "fra") {
        Some("fr")
    } else if chars_eq_str(t, "fre") {
        Some("fr")
    } else if chars_eq_str(t, "eng") {
        Some("en")
    } else if chars_eq_str(t, "deu") {
        Some("de")
    } else if chars_eq_str(t, "ger") {
        Some("de")
    } else if chars_eq_str(t, "in") {
        Some("id")
    } else if chars_eq_str(t, "iw") {
        Some("he")
    } else if chars_eq_str(t, "ji") {
        Some("yi")
    } else if chars_eq_str(t, "tl") {
        Some("fil")
    } else if chars_eq_str(t, "mo") {
        Some("ro")
    } else {
        None
    }
}

/// A fresh all-padding buffer.
fn fresh_buf() -> (r: Vec<u8>)
    ensures
        r@ == empty_buf(),
{
    let mut v: Vec<u8> = Vec::new();
    let mut i: usize = 0;
    while i < 10
        invariant
            0 <= i <= 10,
            v@.len() == i,
            forall|j: int| 0 <= j < i ==> v@[j] == PAD,
        decreases 10 - i,
    {
        v.push(PAD);
        i += 1;
    }
    proof {
        assert(v@ =~= empty_buf());
    }
    v
}

/// The characters of a field, trailing padding trimmed.
fn field_to_chars(buf: &Vec<u8>, from: usize, to: usize) -> (r: Vec<char>)
    requires
        from <= to <= buf@.len(),
    ensures
        r@ == field_chars(trim_pads(buf@.subrange(from as int, to as int))),
{
    let mut end: usize = to;
    while end > from && buf[end - 1] == PAD
        invariant
            from <= end <= to <= buf@.len(),
            trim_pads(buf@.subrange(from as int, to as int)) == trim_pads(
                buf@.subrange(from as int, end as int),
            ),
        decreases end,
    {
        proof {
            let cur = buf@.subrange(from as int, end as int);
            assert(cur.last() == buf@[end - 1]);
            assert(cur.drop_last() =~= buf@.subrange(from as int, end as int - 1));
        }
        end -= 1;
    }
    proof {
        let cur = buf@.subrange(from as int, end as int);
        if cur.len() > 0 {
            assert(cur.last() == buf@[end - 1]);
        }
        assert(trim_pads(cur) == cur);
    }
    let mut out: Vec<char> = Vec::new();
    let mut i: usize = from;
    while i < end
        invariant
            from <= i <= end <= buf@.len(),
            out@ =~= field_chars(buf@.subrange(from as int, end as int)).take(i - from),
        decreases end - i,
    {
        out.push(buf[i] as char);
        i += 1;
        proof {
            assert(out@ =~= field_chars(buf@.subrange(from as int, end as int)).take(i - from));
        }
    }
    proof {
        let cur = buf@.subrange(from as int, end as int);
        assert(field_chars(cur).take(cur.len() as int) =~= field_chars(cur));
    }
    out
}

/// Copy a byte vector.
fn copy_bytes(v: &Vec<u8>) -> (r: Vec<u8>)
    ensures
        r@ == v@,
{
    let mut out: Vec<u8> = Vec::new();
    let mut i: usize = 0;
    while i < v.len()
        invariant
            0 <= i <= v@.len(),
            out@ =~= v@.take(i as int),
        decreases v@.len() - i,
    {
        out.push(v[i]);
        i += 1;
        proof {
            assert(out@ =~= v@.take(i as int));
        }
    }
    proof {
        assert(v@.take(v@.len() as int) =~= v@);
    }
    out
}

/// The characters of a field, padding kept.
fn field_to_chars_raw(buf: &Vec<u8>, from: usize, to: usize) -> (r: Vec<char>)
    requires
        from <= to <= buf@.len(),
    ensures
        r@ == field_chars(buf@.subrange(from as int, to as int)),
{
    let mut out: Vec<char> = Vec::new();
    let mut i: usize = from;
    while i < to
        invariant
            from <= i <= to <= buf@.len(),
            out@ =~= field_chars(buf@.subrange(from as int, to as int)).take(i - from),
        decreases to - i,
    {
        out.push(buf[i] as char);
        i += 1;
        proof {
            assert(out@ =~= field_chars(buf@.subrange(from as int, to as int)).take(i - from));
        }
    }
    proof {
        let cur = buf@.subrange(from as int, to as int);
        assert(field_chars(cur).take(cur.len() as int) =~= field_chars(cur));
    }
    out
}

impl LanguageTag {
    /// Build a tag from its parts.  Each part is written into its
    /// fixed field, truncated to that field's width; absent parts
    /// leave padding.
    pub fn new(language: Option<&str>, script: Option<&str>, region: Option<&str>) -> (r:
        LanguageTag)
        ensures
            r@ == ({
                let b0 = empty_buf();
                let b1 = match language {
                    Some(l) => write_fixed(b0, l.spec_bytes(), 0, 3),
                    None => b0,
                };
                let b2 = match script {
                    Some(s) => write_fixed(b1, s.spec_bytes(), 3, 4),
                    None => b1,
                };
                match region {
                    Some(g) => write_fixed(b2, g.spec_bytes(), 7, 3),
                    None => b2,
                }
            }),
    {
        let mut lang_bytes = fresh_buf();
        match language {
            Some(lang_str) => {
                let b = lang_str.as_bytes_vec();
                write_into_fixed(&mut lang_bytes, &b, 0, 3);
            },
            None => {},
        }
        match script {
            Some(script_str) => {
                let b = script_str.as_bytes_vec();
                write_into_fixed(&mut lang_bytes, &b, 3, 4);
            },
            None => {},
        }
        match region {
            Some(region_str) => {
                let b = region_str.as_bytes_vec();
                write_into_fixed(&mut lang_bytes, &b, 7, 3);
            },
            None => {},
        }
        LanguageTag { data: lang_bytes }
    }

    /// A tag holding just a language subtag of two or three
    /// lowercase letters.
    pub fn from_language_subtag(language: &str) -> (r: LanguageTag)
        ensures
            r@ == write_fixed(empty_buf(), language.spec_bytes(), 0, 3),
    {
        LanguageTag::new(Some(language), None, None)
    }

    /// A tag that provides no information.
    pub fn empty() -> (r: LanguageTag)
        ensures
            r@ == empty_buf(),
    {
        LanguageTag::new(None, None, None)
    }

    /// The language subtag as text, `und` when absent.
    pub fn language_code(&self) -> (r: String)
        ensures
            r@ == match buf_lang_key(self@) {
                Some(key) => key,
                None => crate::parser::und_tok(),
            },
    {
        proof {
            use_type_invariant(self);
        }
        if self.data[0] == PAD {
            let mut v: Vec<char> = Vec::new();
            v.push('u');
            v.push('n');
            v.push('d');
            proof {
                assert(v@ =~= crate::parser::und_tok());
            }
            chars_to_string(&v)
        } else {
            let chars = field_to_chars(&self.data, 0, 3);
            chars_to_string(&chars)
        }
    }

    /// The language subtag, or `None` when it is unknown.
    pub fn get_language(&self) -> (r: Option<String>)
        ensures
            r is None <==> buf_lang_key(self@) is None,
            r matches Some(s) ==> buf_lang_key(self@) == Some(s@),
    {
        proof {
            use_type_invariant(self);
        }
        if self.data[0] == PAD {
            None
        } else {
            let chars = field_to_chars(&self.data, 0, 3);
            Some(chars_to_string(&chars))
        }
    }

    /// The script subtag, or `None` when it is unset.  An implicit
    /// script is not reported: the script of `en` is `None`.
    pub fn get_script(&self) -> (r: Option<String>)
        ensures
            r is None <==> self@[3] == PAD,
            r matches Some(s) ==> s@ == field_chars(self@.subrange(3, 7)),
    {
        proof {
            use_type_invariant(self);
        }
        if self.data[3] == PAD {
            None
        } else {
            let v = field_to_chars_raw(&self.data, 3, 7);
            Some(chars_to_string(&v))
        }
    }

    /// The region subtag, or `None` when it is unset.
    pub fn get_region(&self) -> (r: Option<String>)
        ensures
            r is None <==> self@[7] == PAD,
            r matches Some(s) ==> s@ == field_chars(trim_pads(self@.subrange(7, 10))),
    {
        proof {
            use_type_invariant(self);
        }
        if self.data[7] == PAD {
            None
        } else {
            let chars = field_to_chars(&self.data, 7, 10);
            Some(chars_to_string(&chars))
        }
    }

    /// Parse tag text: normalize, consult the whole-tag aliases,
    /// else run the field machine and then the language alias, with
    /// the caller's own script and region kept.
    pub fn parse(tag: &str) -> (r: Result<LanguageTag, LanguageTagError>)
        ensures
            tag_parse_spec(tag@) matches TagOutcome::Filled(b) ==> (r matches Ok(t) && t@ == b),
            tag_parse_spec(tag@) == TagOutcome::Failure(ParseFault::InvalidCharacter) ==> r
                == Result::<LanguageTag, LanguageTagError>::Err(LanguageTagError::InvalidCharacter),
            tag_parse_spec(tag@) == TagOutcome::Failure(ParseFault::SubtagFormat) ==> r == Result::<
                LanguageTag,
                LanguageTagError,
            >::Err(LanguageTagError::SubtagFormatError),
            tag_parse_spec(tag@) == TagOutcome::Failure(ParseFault::NoSubtag) ==> r == Result::<
                LanguageTag,
                LanguageTagError,
            >::Err(LanguageTagError::ParseError),
    {
        let norm = normalize(tag);
        match tag_replacement(&norm) {
            Some(repl) => {
                let rnorm = str_to_chars(repl);
                let mut buf = fresh_buf();
                match parse_into(&mut buf, &rnorm) {
                    Result::Ok(()) => Result::Ok(LanguageTag { data: buf }),
                    Result::Err(e) => Result::Err(e),
                }
            },
            None => {
                let mut buf = fresh_buf();
                match parse_into(&mut buf, &norm) {
                    Result::Err(e) => {
                        return Result::Err(e);
                    },
                    Result::Ok(()) => {},
                }
                if buf[0] != PAD {
                    let key = field_to_chars(&buf, 0, 3);
                    match tag_replacement(&key) {
                        Some(repl) => {
                            let rnorm = str_to_chars(repl);
                            let mut buf2 = copy_bytes(&buf);
                            match parse_into(&mut buf2, &rnorm) {
                                Result::Err(e) => {
                                    return Result::Err(e);
                                },
                                Result::Ok(()) => {},
                            }
                            let ghost parsed = buf2@;
                            let mut i: usize = 3;
                            while i < 7
                                invariant
                                    3 <= i <= 7,
                                    buf@.len() == 10,
                                    buf2@.len() == 10,
                                    forall|j: int|
                                        0 <= j < 10 ==> buf2@[j] == (if 3 <= j < i && buf@[3]
                                            != PAD {
                                            buf@[j]
                                        } else {
                                            parsed[j]
                                        }),
                                decreases 7 - i,
                            {
                                if buf[3] != PAD {
                                    let b = buf[i];
                                    buf2.set(i, b);
                                }
                                i += 1;
                            }
                            let mut i: usize = 7;
                            while i < 10
                                invariant
                                    7 <= i <= 10,
                                    buf@.len() == 10,
                                    buf2@.len() == 10,
                                    forall|j: int|
                                        0 <= j < 10 ==> buf2@[j] == (if 7 <= j < i && buf@[7]
                                            != PAD {
                                            buf@[j]
                                        } else {
                                            if 3 <= j < 7 && buf@[3] != PAD {
                                                buf@[j]
                                            } else {
                                                parsed[j]
                                            }
                                        }),
                                decreases 10 - i,
                            {
                                if buf[7] != PAD {
                                    let b = buf[i];
                                    buf2.set(i, b);
                                }
                                i += 1;
                            }
                            proof {
                                assert(buf2@ =~= restore_fields(buf@, parsed));
                            }
                            Result::Ok(LanguageTag { data: buf2 })
                        },
                        None => Result::Ok(LanguageTag { data: buf }),
                    }
                } else {
                    Result::Ok(LanguageTag { data: buf })
                }
            },
        }
    }

    /// The tag's text: its present parts joined by hyphens.
    pub fn to_string(&self) -> (r: String)
        ensures
            r@ == ({
                let lang = match buf_lang_key(self@) {
                    Some(key) => key,
                    None => crate::parser::und_tok(),
                };
                let with_script = if self@[3] != PAD {
                    lang + seq!['-'] + field_chars(self@.subrange(3, 7))
                } else {
                    lang
                };
                if self@[7] != PAD {
                    with_script + seq!['-'] + field_chars(trim_pads(self@.subrange(7, 10)))
                } else {
                    with_script
                }
            }),
    {
        proof {
            use_type_invariant(self);
        }
        let mut v: Vec<char>;
        if self.data[0] == PAD {
            v = Vec::new();
            v.push('u');
            v.push('n');
            v.push('d');
            proof {
                assert(v@ =~= crate::parser::und_tok());
            }
        } else {
            v = field_to_chars(&self.data, 0, 3);
        }
        if self.data[3] != PAD {
            v.push('-');
            let mut sc = field_to_chars_raw(&self.data, 3, 7);
            v.append(&mut sc);
        }
        if self.data[7] != PAD {
            v.push('-');
            let mut rg = field_to_chars(&self.data, 7, 10);
            v.append(&mut rg);
        }
        chars_to_string(&v)
    }
}

/// The tag of Simplified Chinese, `zh-Hans`.
pub fn simplified_chinese_tag() -> (r: LanguageTag)
    ensures
        r@ == write_fixed(
            write_fixed(empty_buf(), "zh".spec_bytes(), 0, 3),
            "Hans".spec_bytes(),
            3,
            4,
        ),
{
    LanguageTag::new(Some("zh"), Some("Hans"), None)
}

} // verus!
