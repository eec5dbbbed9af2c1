//! The normalizing parser from tag text to a packed code.
//!
//! The input is first normalized: `_` becomes `-` and ASCII capitals
//! become lowercase.  The normalized text splits on `-` into tokens,
//! and a four-state machine classifies each token by its shape:
//! region (two characters, or three digits), script (four
//! characters), extlang (three characters not starting with a digit),
//! variant (five or more, or four starting with a digit), or the
//! `u` / `x` extension markers, which end the parse.  The sentinels
//! `zzzz` and `zz` (the unknown script and region) are accepted in
//! their positions but store nothing, like the `und` language.

use vstd::prelude::*;
use crate::fields::{
    PROTO_MASK, EXTLANG_MASK, EXTLANG_SHIFT, LANGUAGE_SHIFT, SCRIPT_SHIFT, MISSING_CODE,
};
use crate::subtag::{
    is_low_alpha, is_digit_char, all_digits, encodable, encode_subtag_spec, char_of,
};

verus! {

/// What can go wrong while parsing a tag.
#[derive(Debug)]
pub enum LanguageCodeError {
    /// The tag held a character outside `[0-9a-z]` after
    /// normalization; the payload is the normalized tag.
    InvalidCharacter(String),
    /// A subtag had an unexpected shape, or stood in the wrong order.
    SubtagFormatError(String),
    /// No subtag could be read at all.
    ParseError(String),
}

impl PartialEq for LanguageCodeError {
    fn eq(&self, other: &LanguageCodeError) -> (r: bool) {
        match (self, other) {
            (LanguageCodeError::InvalidCharacter(a), LanguageCodeError::InvalidCharacter(b)) => *a
                == *b,
            (LanguageCodeError::SubtagFormatError(a), LanguageCodeError::SubtagFormatError(b)) => *a
                == *b,
            (LanguageCodeError::ParseError(a), LanguageCodeError::ParseError(b)) => *a == *b,
            _ => false,
        }
    }
}

impl vstd::std_specs::cmp::PartialEqSpecImpl for LanguageCodeError {
    open spec fn obeys_eq_spec() -> bool {
        true
    }

    open spec fn eq_spec(&self, other: &LanguageCodeError) -> bool {
        match (self, other) {
            (LanguageCodeError::InvalidCharacter(a), LanguageCodeError::InvalidCharacter(b)) => a@
                == b@,
            (LanguageCodeError::SubtagFormatError(a), LanguageCodeError::SubtagFormatError(b)) => a@
                == b@,
            (LanguageCodeError::ParseError(a), LanguageCodeError::ParseError(b)) => a@ == b@,
            _ => false,
        }
    }
}

/// Which fault a parse ran into, independent of the offending text.
pub enum ParseFault {
    InvalidCharacter,
    SubtagFormat,
    NoSubtag,
}

/// The abstract result of a parse: a code, a fault, or an input on
/// which the packed encoding is not defined (a token too long or too
/// large for its field), where the parser makes no promise.
pub enum ParseOutcome {
    Value(u64),
    Failure(ParseFault),
    Undefined,
}

#[derive(PartialEq, Eq, Structural, Clone, Copy)]
pub enum ParserState {
    AfterLanguage(i32),
    AfterScript,
    AfterRegion,
    AfterVariant,
}

pub open spec fn language_state(s: ParserState) -> int {
    match s {
        ParserState::AfterLanguage(n) => n as int,
        _ => -1,
    }
}

/// One character after normalization: `_` to `-`, capitals to
/// lowercase.
pub open spec fn norm_char(c: char) -> char {
    if c == '_' {
        '-'
    } else if 65 <= c as u32 && c as u32 <= 90 {
        char_of(c as u32 + 32)
    } else {
        c
    }
}

pub open spec fn normalize_chars(s: Seq<char>) -> Seq<char> {
    s.map_values(|c: char| norm_char(c))
}

/// The index of the first `-`, or the length when there is none.
pub open spec fn first_dash(s: Seq<char>) -> int
    decreases s.len(),
{
    if s.len() == 0 {
        0
    } else if s[0] == '-' {
        0
    } else {
        1 + first_dash(s.skip(1))
    }
}

/// The tokens of `s`, split on `-`.  Splitting never yields an empty
/// list: an input without `-` is one token, possibly empty.
pub open spec fn split_tokens(s: Seq<char>) -> Seq<Seq<char>>
    decreases s.len(),
{
    let i = first_dash(s);
    if 0 <= i < s.len() {
        seq![s.take(i)] + split_tokens(s.skip(i + 1))
    } else {
        seq![s]
    }
}

pub proof fn lemma_first_dash_bounds(s: Seq<char>)
    ensures
        0 <= first_dash(s) <= s.len(),
        first_dash(s) < s.len() ==> s[first_dash(s)] == '-',
        forall|j: int| 0 <= j < first_dash(s) ==> s[j] != '-',
    decreases s.len(),
{
    if s.len() > 0 && s[0] != '-' {
        lemma_first_dash_bounds(s.skip(1));
        assert(forall|j: int| 0 <= j < first_dash(s.skip(1)) ==> s.skip(1)[j] != '-');
        assert(forall|j: int| 1 <= j < first_dash(s) ==> s[j] == s.skip(1)[j - 1]);
    }
}

/// `first_dash` is pinned down by a witness: no dash before `k`, and
/// either a dash at `k` or the end of the text.
pub proof fn lemma_first_dash_is(s: Seq<char>, k: int)
    requires
        0 <= k <= s.len(),
        forall|j: int| 0 <= j < k ==> s[j] != '-',
        k < s.len() ==> s[k] == '-',
    ensures
        first_dash(s) == k,
    decreases s.len(),
{
    if s.len() == 0 {
    } else if s[0] == '-' {
    } else {
        assert(k >= 1);
        assert(forall|j: int| 0 <= j < k - 1 ==> s.skip(1)[j] == s[j + 1]);
        if k - 1 < s.skip(1).len() {
            assert(s.skip(1)[k - 1] == s[k]);
        }
        lemma_first_dash_is(s.skip(1), k - 1);
    }
}

pub open spec fn check_chars(t: Seq<char>) -> bool {
    forall|i: int| 0 <= i < t.len() ==> is_digit_char(t[i]) || is_low_alpha(t[i])
}

pub open spec fn is_extension_tok(t: Seq<char>) -> bool {
    t == seq!['u'] || t == seq!['x']
}

pub open spec fn is_variant_tok(t: Seq<char>) -> bool {
    (t.len() == 4 && is_digit_char(t[0])) || t.len() >= 5
}

pub open spec fn is_region_tok(t: Seq<char>) -> bool {
    t.len() >= 1 && ((is_digit_char(t[0]) && t.len() == 3) || t.len() == 2)
}

pub open spec fn is_script_tok(t: Seq<char>) -> bool {
    t.len() == 4
}

pub open spec fn is_extlang_tok(t: Seq<char>) -> bool {
    t.len() == 3 && !is_digit_char(t[0])
}

pub open spec fn und_tok() -> Seq<char> {
    seq!['u', 'n', 'd']
}

pub open spec fn pro_tok() -> Seq<char> {
    seq!['p', 'r', 'o']
}

/// The unknown-region sentinel `zz`: parsed, but stores nothing.
pub open spec fn zz_tok() -> Seq<char> {
    seq!['z', 'z']
}

/// The unknown-script sentinel `zzzz`: parsed, but stores nothing.
pub open spec fn zzzz_tok() -> Seq<char> {
    seq!['z', 'z', 'z', 'z']
}

/// Run the machine over the tokens from `i` on, with the bits
/// gathered so far in `val`.
pub open spec fn run_tokens(tokens: Seq<Seq<char>>, i: int, state: ParserState, val: u64) -> ParseOutcome
    decreases tokens.len() - i,
{
    if i < 0 || i >= tokens.len() {
        ParseOutcome::Value(val)
    } else {
        let t = tokens[i];
        let ls = language_state(state);
        if !check_chars(t) {
            ParseOutcome::Failure(ParseFault::InvalidCharacter)
        } else if is_extension_tok(t) {
            ParseOutcome::Value(val)
        } else if state != ParserState::AfterVariant && is_variant_tok(t) {
            run_tokens(tokens, i + 1, ParserState::AfterVariant, val)
        } else if (ls >= 0 || state == ParserState::AfterScript) && is_region_tok(t) {
            if t == zz_tok() {
                run_tokens(tokens, i + 1, ParserState::AfterRegion, val)
            } else if !encodable(t, 2) {
                ParseOutcome::Undefined
            } else {
                run_tokens(
                    tokens,
                    i + 1,
                    ParserState::AfterRegion,
                    val | encode_subtag_spec(t, 2) as u64,
                )
            }
        } else if ls >= 0 && is_script_tok(t) {
            if t == zzzz_tok() {
                run_tokens(tokens, i + 1, ParserState::AfterScript, val)
            } else if !encodable(t, 4) {
                ParseOutcome::Undefined
            } else {
                run_tokens(
                    tokens,
                    i + 1,
                    ParserState::AfterScript,
                    val | ((encode_subtag_spec(t, 4) as u64) << SCRIPT_SHIFT),
                )
            }
        } else if ls >= 0 && ls < 3 && is_extlang_tok(t) {
            if t == pro_tok() {
                run_tokens(tokens, i + 1, ParserState::AfterLanguage((ls + 1) as i32), val
                    | PROTO_MASK)
            } else if !encodable(t, 3) {
                ParseOutcome::Undefined
            } else if val & EXTLANG_MASK == 0 {
                run_tokens(
                    tokens,
                    i + 1,
                    ParserState::AfterLanguage((ls + 1) as i32),
                    val | ((encode_subtag_spec(t, 3) as u64) << EXTLANG_SHIFT),
                )
            } else {
                run_tokens(tokens, i + 1, ParserState::AfterLanguage((ls + 1) as i32), val)
            }
        } else {
            ParseOutcome::Failure(ParseFault::SubtagFormat)
        }
    }
}

/// Parse a whole token list: the first token is the language (`i` and
/// `x` yield the missing sentinel, `und` stores nothing), the machine
/// handles the rest.
pub open spec fn parse_tokens(tokens: Seq<Seq<char>>) -> ParseOutcome {
    if tokens.len() == 0 {
        ParseOutcome::Failure(ParseFault::NoSubtag)
    } else {
        let t = tokens[0];
        if t == seq!['i'] || t == seq!['x'] {
            ParseOutcome::Value(MISSING_CODE)
        } else if t == und_tok() {
            run_tokens(tokens, 1, ParserState::AfterLanguage(0), 0)
        } else if t.len() == 0 {
            ParseOutcome::Failure(ParseFault::NoSubtag)
        } else if !check_chars(t) {
            ParseOutcome::Failure(ParseFault::InvalidCharacter)
        } else if !encodable(t, 3) {
            ParseOutcome::Undefined
        } else {
            run_tokens(
                tokens,
                1,
                ParserState::AfterLanguage(0),
                (encode_subtag_spec(t, 3) as u64) << LANGUAGE_SHIFT,
            )
        }
    }
}

/// The outcome of parsing `s`: normalize, split, and run the machine.
pub open spec fn parse_tag_spec(s: Seq<char>) -> ParseOutcome {
    parse_tokens(split_tokens(normalize_chars(s)))
}

pub(crate) fn check_characters(t: &Vec<char>) -> (r: bool)
    ensures
        r == check_chars(t@),
{
    let mut i: usize = 0;
    while i < t.len()
        invariant
            0 <= i <= t@.len(),
            forall|j: int| 0 <= j < i ==> is_digit_char(t@[j]) || is_low_alpha(t@[j]),
        decreases t@.len() - i,
    {
        let cv = t[i] as u32;
        if !((48 <= cv && cv <= 57) || (97 <= cv && cv <= 122)) {
            return false;
        }
        i += 1;
    }
    true
}

pub(crate) fn is_extension(t: &Vec<char>) -> (r: bool)
    ensures
        r == is_extension_tok(t@),
{
    let r = t.len() == 1 && (t[0] == 'u' || t[0] == 'x');
    proof {
        if r {
            if t@[0] == 'u' {
                assert(t@ =~= seq!['u']);
            } else {
                assert(t@ =~= seq!['x']);
            }
        } else {
            assert(t@ != seq!['u'] && t@ != seq!['x']) by {
                assert(seq!['u'].len() == 1 && seq!['x'].len() == 1);
                assert(seq!['u'][0] == 'u' && seq!['x'][0] == 'x');
            }
        }
    }
    r
}

pub(crate) fn is_variant(t: &Vec<char>) -> (r: bool)
    ensures
        r == is_variant_tok(t@),
{
    if t.len() == 4 {
        let cv = t[0] as u32;
        48 <= cv && cv <= 57
    } else {
        t.len() >= 5
    }
}

pub(crate) fn is_region(t: &Vec<char>) -> (r: bool)
    ensures
        r == is_region_tok(t@),
{
    if t.len() == 0 {
        return false;
    }
    let cv = t[0] as u32;
    (48 <= cv && cv <= 57 && t.len() == 3) || t.len() == 2
}

pub(crate) fn is_script(t: &Vec<char>) -> (r: bool)
    ensures
        r == is_script_tok(t@),
{
    t.len() == 4
}

pub(crate) fn is_extlang(t: &Vec<char>) -> (r: bool)
    ensures
        r == is_extlang_tok(t@),
{
    if t.len() != 3 {
        return false;
    }
    let cv = t[0] as u32;
    !(48 <= cv && cv <= 57)
}

/// Normalize tag text: `_` to `-`, ASCII capitals to lowercase.
pub(crate) fn normalize(s: &str) -> (r: Vec<char>)
    ensures
        r@ == normalize_chars(s@),
{
    let n = s.unicode_len();
    let mut v: Vec<char> = Vec::new();
    let mut i: usize = 0;
    while i < n
        invariant
            0 <= i <= n,
            n == s@.len(),
            v@ =~= normalize_chars(s@).take(i as int),
        decreases n - i,
    {
        let c = s.get_char(i);
        let cv = c as u32;
        if c == '_' {
            v.push('-');
        } else if 65 <= cv && cv <= 90 {
            v.push(((cv + 32) as u8) as char);
            proof {
                crate::subtag::lemma_char_of_codepoint(cv as int + 32, ((cv + 32) as u8) as char);
            }
        } else {
            v.push(c);
        }
        i += 1;
        proof {
            assert(v@ =~= normalize_chars(s@).take(i as int));
        }
    }
    proof {
        assert(normalize_chars(s@).take(n as int) =~= normalize_chars(s@));
    }
    v
}

/// Split normalized text into its `-`-separated tokens.
pub(crate) fn split_chars(s: &Vec<char>) -> (r: Vec<Vec<char>>)
    ensures
        r.deep_view() == split_tokens(s@),
{
    let n = s.len();
    let mut toks: Vec<Vec<char>> = Vec::new();
    let mut cur: Vec<char> = Vec::new();
    let mut start: usize = 0;
    let mut i: usize = 0;
    proof {
        assert(s@.skip(0) =~= s@);
        assert(toks.deep_view() =~~= Seq::<Seq<char>>::empty());
        assert(toks.deep_view() + split_tokens(s@) =~~= split_tokens(s@));
    }
    while i < n
        invariant
            0 <= start <= i <= n,
            n == s@.len(),
            cur@ =~= s@.subrange(start as int, i as int),
            forall|j: int| start <= j < i ==> s@[j] != '-',
            split_tokens(s@) == toks.deep_view() + split_tokens(s@.skip(start as int)),
        decreases n - i,
    {
        if s[i] == '-' {
            let ghost old_toks = toks.deep_view();
            let ghost tail = s@.skip(start as int);
            proof {
                assert(forall|j: int| 0 <= j < tail.len() ==> tail[j] == s@[start + j]);
                lemma_first_dash_is(tail, i - start as int);
                assert(tail.take(i - start as int) =~= s@.subrange(start as int, i as int));
                assert(tail.skip(i - start as int + 1) =~= s@.skip(i as int + 1));
            }
            toks.push(cur);
            cur = Vec::new();
            proof {
                assert(toks.deep_view() =~~= old_toks.push(s@.subrange(start as int, i as int)));
                assert(toks.deep_view() + split_tokens(s@.skip(i as int + 1)) =~~= old_toks + (seq![
                    s@.subrange(start as int, i as int)] + split_tokens(s@.skip(i as int + 1))));
            }
            start = i + 1;
        } else {
            proof {
                assert(s@.subrange(start as int, i as int + 1) =~= s@.subrange(
                    start as int,
                    i as int,
                ).push(s@[i as int]));
            }
            cur.push(s[i]);
        }
        i += 1;
    }
    let ghost old_toks = toks.deep_view();
    let ghost tail = s@.skip(start as int);
    proof {
        assert(forall|j: int| 0 <= j < tail.len() ==> tail[j] == s@[start + j]);
        lemma_first_dash_is(tail, n - start as int);
        assert(split_tokens(tail) =~= seq![tail]);
        assert(tail =~= s@.subrange(start as int, n as int));
    }
    toks.push(cur);
    proof {
        assert(toks.deep_view() =~~= old_toks.push(s@.subrange(start as int, n as int)));
        assert(toks.deep_view() =~~= old_toks + seq![s@.subrange(start as int, n as int)]);
        assert(toks.deep_view() =~~= split_tokens(s@));
    }
    toks
}

} // verus!

verus! {

/// Run the shape machine over already-normalized tag text.  The
/// error values carry that text.
pub(crate) fn parse_lowercase_tag(norm: &Vec<char>) -> (r: Result<u64, LanguageCodeError>)
    requires
        !(parse_tokens(split_tokens(norm@)) is Undefined),
    ensures
        parse_tokens(split_tokens(norm@)) matches ParseOutcome::Value(v) ==> r == Result::<
            u64,
            LanguageCodeError,
        >::Ok(v),
        parse_tokens(split_tokens(norm@)) == ParseOutcome::Failure(ParseFault::InvalidCharacter)
            ==> (r matches Result::Err(LanguageCodeError::InvalidCharacter(s)) && s@ == norm@),
        parse_tokens(split_tokens(norm@)) == ParseOutcome::Failure(ParseFault::SubtagFormat) ==> (
        r matches Result::Err(LanguageCodeError::SubtagFormatError(s)) && s@ == norm@),
        parse_tokens(split_tokens(norm@)) == ParseOutcome::Failure(ParseFault::NoSubtag) ==> (
        r matches Result::Err(LanguageCodeError::ParseError(s)) && s@ == norm@),
{
    let tokens = split_chars(norm);
    let ghost tv = tokens.deep_view();
    let n = tokens.len();
    proof {
        assert(tv.len() == n);
        assert(forall|k: int| 0 <= k < n ==> tv[k] == #[trigger] tokens@[k]@);
    }
    if n == 0 {
        return Result::Err(LanguageCodeError::ParseError(crate::strutil::chars_to_string(norm)));
    }
    let first = &tokens[0];
    let mut val: u64 = 0;
    if crate::strutil::chars_eq_str(first, "i") || crate::strutil::chars_eq_str(first, "x") {
        proof {
            reveal_strlit("i");
            reveal_strlit("x");
            assert("i"@ =~= seq!['i'] && "x"@ =~= seq!['x']);
        }
        return Result::Ok(MISSING_CODE);
    }
    let is_und = crate::strutil::chars_eq_str(first, "und");
    proof {
        reveal_strlit("i");
        reveal_strlit("x");
        reveal_strlit("und");
        assert("i"@ =~= seq!['i'] && "x"@ =~= seq!['x'] && "und"@ =~= und_tok());
    }
    if is_und {
    } else if first.len() == 0 {
        return Result::Err(LanguageCodeError::ParseError(crate::strutil::chars_to_string(norm)));
    } else if !check_characters(first) {
        return Result::Err(
            LanguageCodeError::InvalidCharacter(crate::strutil::chars_to_string(norm)),
        );
    } else {
        proof {
            assert(encodable(first@, 3));
        }
        let fs = crate::strutil::chars_to_string(first);
        val = crate::subtag::encode_subtag(fs.as_str(), 3) << LANGUAGE_SHIFT;
    }
    let mut state = ParserState::AfterLanguage(0);
    let mut i: usize = 1;
    while i < n
        invariant
            1 <= i <= n,
            n == tv.len(),
            n == tokens@.len(),
            tv == tokens.deep_view(),
            tv == split_tokens(norm@),
            forall|k: int| 0 <= k < n ==> tv[k] == #[trigger] tokens@[k]@,
            !(parse_tokens(tv) is Undefined),
            parse_tokens(tv) == run_tokens(tv, i as int, state, val),
        decreases n - i,
    {
        let t = &tokens[i];
        let ghost ts = t@;
        let ls: i32 = match state {
            ParserState::AfterLanguage(num) => num,
            _ => -1,
        };
        proof {
            assert(language_state(state) == ls as int);
        }
        if !check_characters(t) {
            return Result::Err(
                LanguageCodeError::InvalidCharacter(crate::strutil::chars_to_string(norm)),
            );
        }
        if is_extension(t) {
            return Result::Ok(val);
        } else if state != ParserState::AfterVariant && is_variant(t) {
            state = ParserState::AfterVariant;
        } else if (ls >= 0 || state == ParserState::AfterScript) && is_region(t) {
            if crate::strutil::chars_eq_str(t, "zz") {
                proof {
                    reveal_strlit("zz");
                    assert("zz"@ =~= zz_tok());
                }
            } else {
                proof {
                    reveal_strlit("zz");
                    assert("zz"@ =~= zz_tok());
                    assert(encodable(ts, 2));
                }
                let s = crate::strutil::chars_to_string(t);
                val = val | crate::subtag::encode_subtag(s.as_str(), 2);
            }
            state = ParserState::AfterRegion;
        } else if ls >= 0 && is_script(t) {
            if crate::strutil::chars_eq_str(t, "zzzz") {
                proof {
                    reveal_strlit("zzzz");
                    assert("zzzz"@ =~= zzzz_tok());
                }
            } else {
                proof {
                    reveal_strlit("zzzz");
                    assert("zzzz"@ =~= zzzz_tok());
                    assert(encodable(ts, 4));
                }
                let s = crate::strutil::chars_to_string(t);
                val = val | (crate::subtag::encode_subtag(s.as_str(), 4) << SCRIPT_SHIFT);
            }
            state = ParserState::AfterScript;
        } else if ls >= 0 && ls < 3 && is_extlang(t) {
            if crate::strutil::chars_eq_str(t, "pro") {
                proof {
                    reveal_strlit("pro");
                    assert("pro"@ =~= pro_tok());
                }
                val = val | PROTO_MASK;
            } else {
                proof {
                    reveal_strlit("pro");
                    assert("pro"@ =~= pro_tok());
                    assert(encodable(ts, 3));
                }
                if val & EXTLANG_MASK == 0 {
                    let s = crate::strutil::chars_to_string(t);
                    val = val | (crate::subtag::encode_subtag(s.as_str(), 3) << EXTLANG_SHIFT);
                }
            }
            state = ParserState::AfterLanguage(ls + 1);
        } else {
            return Result::Err(
                LanguageCodeError::SubtagFormatError(crate::strutil::chars_to_string(norm)),
            );
        }
        i += 1;
    }
    Result::Ok(val)
}

/// Parse arbitrary tag text into a packed code, with no alias
/// tables applied: normalize, then run the shape machine.
pub fn parse_tag(tag: &str) -> (r: Result<u64, LanguageCodeError>)
    requires
        !(parse_tag_spec(tag@) is Undefined),
    ensures
        parse_tag_spec(tag@) matches ParseOutcome::Value(v) ==> r == Result::<
            u64,
            LanguageCodeError,
        >::Ok(v),
        parse_tag_spec(tag@) == ParseOutcome::Failure(ParseFault::InvalidCharacter) ==> (r matches
            Result::Err(LanguageCodeError::InvalidCharacter(s)) && s@ == normalize_chars(tag@)),
        parse_tag_spec(tag@) == ParseOutcome::Failure(ParseFault::SubtagFormat) ==> (r matches
            Result::Err(LanguageCodeError::SubtagFormatError(s)) && s@ == normalize_chars(tag@)),
        parse_tag_spec(tag@) == ParseOutcome::Failure(ParseFault::NoSubtag) ==> (r matches
            Result::Err(LanguageCodeError::ParseError(s)) && s@ == normalize_chars(tag@)),
{
    let norm = normalize(tag);
    parse_lowercase_tag(&norm)
}

} // verus!
