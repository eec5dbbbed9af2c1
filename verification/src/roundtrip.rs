//! The codec round trip: parsing a code's canonical text gives the
//! code back.
//!
//! `well_formed_code` describes the codes the parser itself can
//! produce: every field holds a proper encoding of a token of its
//! kind, none of the sentinel spellings (`i`, `x`, `und`, `pro`,
//! `zzzz`, `zz`) hides in a field where parsing treats it specially,
//! and no bit lies outside the fields.  For every such code, the
//! canonical text from `unparse_tag` parses back to the code itself.

use vstd::prelude::*;
use crate::fields::{
    LANGUAGE_MASK, PROTO_MASK, EXTLANG_MASK, SCRIPT_MASK, REGION_MASK, LANGUAGE_SHIFT,
    EXTLANG_SHIFT, SCRIPT_SHIFT, stray_bits,
};
use crate::subtag::{
    alpha_token, numeric_token, encode_subtag_spec, unpack_letters, digits3,
    num_value, digit_val, all_digits, is_digit_char, is_low_alpha, char_of, lemma_char_of_codepoint,
    lemma_char_of_value, all_low_alpha,
};
use crate::parser::{
    normalize_chars, norm_char, split_tokens, lemma_first_dash_is, check_chars,
    und_tok, pro_tok, zz_tok, zzzz_tok, is_region_tok, is_script_tok, is_extlang_tok,
    is_variant_tok, is_extension_tok, run_tokens, parse_tokens, parse_tag_spec, ParseOutcome,
    ParserState, language_state,
};
use crate::display::{
    lang_part, extlang_part, script_part, region_part, dash_opt, unparse_tag_spec, upper_char,
    upper_chars, title_chars, und_chars, pro_chars,
};

verus! {

/// No hyphen anywhere in the token.
pub open spec fn dash_free(t: Seq<char>) -> bool {
    forall|i: int| 0 <= i < t.len() ==> t[i] != '-'
}

/// An alphabetic field value: the biased packing of `k` lowercase
/// letters that re-encodes to itself at width `w`.
pub open spec fn alpha_field(v: u64, k: nat, w: nat) -> bool {
    &&& v >= 1000
    &&& unpack_letters(v - 1000).len() == k
    &&& alpha_token(unpack_letters(v - 1000), w)
    &&& encode_subtag_spec(unpack_letters(v - 1000), w) == v
}

/// The codes whose canonical text parses back to them: each field
/// holds a faithful encoding of a token that the parser will read in
/// that position, and nothing stray is set.
pub open spec fn well_formed_code(c: u64) -> bool {
    let l = (c & LANGUAGE_MASK) >> LANGUAGE_SHIFT;
    let e = (c & EXTLANG_MASK) >> EXTLANG_SHIFT;
    let s = (c & SCRIPT_MASK) >> SCRIPT_SHIFT;
    let r = c & REGION_MASK;
    &&& stray_bits(c) == 0
    &&& (l == 0 || (1 <= l <= 999) || ((alpha_field(l, 1, 3) || alpha_field(l, 2, 3)
        || alpha_field(l, 3, 3)) && unpack_letters(l - 1000) != seq!['i'] && unpack_letters(
        l - 1000,
    ) != seq!['x'] && unpack_letters(l - 1000) != und_tok()))
    &&& (e == 0 || (alpha_field(e, 3, 3) && unpack_letters(e - 1000) != pro_tok()))
    &&& (s == 0 || (alpha_field(s, 4, 4) && unpack_letters(s - 1000) != zzzz_tok()))
    &&& (r == 0 || (1 <= r <= 999) || (alpha_field(r, 2, 2) && unpack_letters(r - 1000)
        != zz_tok()))
}

/// Normalization distributes over concatenation.
pub proof fn lemma_norm_concat(x: Seq<char>, y: Seq<char>)
    ensures
        normalize_chars(x + y) == normalize_chars(x) + normalize_chars(y),
{
    assert(normalize_chars(x + y) =~= normalize_chars(x) + normalize_chars(y));
}

/// Text of digits and lowercase letters normalizes to itself.
pub proof fn lemma_norm_fixed(t: Seq<char>)
    requires
        check_chars(t),
    ensures
        normalize_chars(t) == t,
{
    assert forall|i: int| 0 <= i < t.len() implies normalize_chars(t)[i] == t[i] by {
        assert(is_digit_char(t[i]) || is_low_alpha(t[i]));
    }
    assert(normalize_chars(t) =~= t);
}

/// An uppercased token normalizes back to its lowercase original.
pub proof fn lemma_norm_upper(t: Seq<char>)
    requires
        check_chars(t),
    ensures
        normalize_chars(upper_chars(t)) == t,
{
    assert forall|i: int| 0 <= i < t.len() implies normalize_chars(upper_chars(t))[i] == t[i] by {
        let ch = t[i];
        assert(is_digit_char(ch) || is_low_alpha(ch));
        if is_low_alpha(ch) {
            let u = upper_char(ch);
            lemma_char_of_value(ch as u32 - 32);
            assert(u as u32 == ch as u32 - 32);
            assert(norm_char(u) == char_of(u as u32 + 32));
            lemma_char_of_codepoint(ch as u32 as int, ch);
        }
    }
    assert(normalize_chars(upper_chars(t)) =~= t);
}

/// A title-cased token normalizes back to its lowercase original.
pub proof fn lemma_norm_title(t: Seq<char>)
    requires
        check_chars(t),
        t.len() >= 1,
    ensures
        normalize_chars(title_chars(t)) == t,
{
    assert forall|i: int| 0 <= i < t.len() implies normalize_chars(title_chars(t))[i] == t[i] by {
        if i == 0 {
            let ch = t[0];
            assert(is_digit_char(ch) || is_low_alpha(ch));
            if is_low_alpha(ch) {
                let u = upper_char(ch);
                lemma_char_of_value(ch as u32 - 32);
                assert(u as u32 == ch as u32 - 32);
                assert(norm_char(u) == char_of(u as u32 + 32));
                lemma_char_of_codepoint(ch as u32 as int, ch);
            }
            assert(title_chars(t)[0] == upper_char(t[0]));
        } else {
            assert(title_chars(t)[i] == t[i]);
        }
    }
    assert(normalize_chars(title_chars(t)) =~= t);
}

/// A dash-free text splits into a single token.
pub proof fn lemma_split_single(t: Seq<char>)
    requires
        dash_free(t),
    ensures
        split_tokens(t) == seq![t],
{
    lemma_first_dash_is(t, t.len() as int);
}

/// Splitting text that starts with a dash-free token and a hyphen
/// peels that token off.
pub proof fn lemma_split_lead(a: Seq<char>, b: Seq<char>)
    requires
        dash_free(a),
    ensures
        split_tokens(a + seq!['-'] + b) == seq![a] + split_tokens(b),
{
    let s = a + seq!['-'] + b;
    assert(forall|j: int| 0 <= j < a.len() ==> s[j] == a[j]);
    assert(s[a.len() as int] == '-');
    lemma_first_dash_is(s, a.len() as int);
    assert(s.take(a.len() as int) =~= a);
    assert(s.skip(a.len() as int + 1) =~= b);
}

/// The three-digit form of a small number is three digits that
/// denote it.
pub proof fn lemma_digits3_value(v: int)
    requires
        0 <= v <= 999,
    ensures
        digits3(v).len() == 3,
        all_digits(digits3(v)),
        is_digit_char(digits3(v)[0]),
        num_value(digits3(v)) == v,
        check_chars(digits3(v)),
        dash_free(digits3(v)),
    decreases v,
{
    let t = digits3(v);
    lemma_char_of_value(48 + v / 100);
    lemma_char_of_value(48 + (v / 10) % 10);
    lemma_char_of_value(48 + v % 10);
    let a = seq![t[0]];
    let b = seq![t[0], t[1]];
    assert(num_value(Seq::<char>::empty()) == 0);
    assert(a.drop_last() =~= Seq::<char>::empty());
    assert(a.last() == t[0]);
    assert(num_value(a) == digit_val(t[0]));
    assert(b.drop_last() =~= a);
    assert(b.last() == t[1]);
    assert(num_value(b) == num_value(a) * 10 + digit_val(t[1]));
    assert(t.drop_last() =~= b);
    assert(t.last() == t[2]);
    assert(num_value(t) == num_value(b) * 10 + digit_val(t[2]));
    assert(digit_val(t[0]) == v / 100);
    assert(digit_val(t[1]) == (v / 10) % 10);
    assert(digit_val(t[2]) == v % 10);
    assert(((v / 100) * 10 + (v / 10) % 10) * 10 + v % 10 == v) by (nonlinear_arith)
        requires
            0 <= v <= 999,
    ;
}

/// An all-lowercase token passes the character check and has no
/// dashes.
pub proof fn lemma_alpha_token_chars(t: Seq<char>)
    requires
        all_low_alpha(t),
    ensures
        check_chars(t),
        dash_free(t),
{
    assert forall|i: int| 0 <= i < t.len() implies t[i] != '-' by {
        assert(is_low_alpha(t[i]));
    }
}

/// A code with no stray bits is the disjoint union of its shifted
/// field values, in the order the parser rebuilds them.
proof fn lemma_assemble(c: u64, l: u64, e: u64, s: u64, r: u64, p: u64)
    by (bit_vector)
    requires
        l == (c & LANGUAGE_MASK) >> LANGUAGE_SHIFT,
        e == (c & EXTLANG_MASK) >> EXTLANG_SHIFT,
        s == (c & SCRIPT_MASK) >> SCRIPT_SHIFT,
        r == c & REGION_MASK,
        p == c & PROTO_MASK,
        c & !(crate::fields::LANGUAGE_EXT_MASK | SCRIPT_MASK | REGION_MASK) == 0,
    ensures
        l < 0x8000,
        e < 0x8000,
        s < 0x100000,
        r < 0x800,
        (l == 0) == (c & LANGUAGE_MASK == 0),
        (e == 0) == (c & EXTLANG_MASK == 0),
        (s == 0) == (c & SCRIPT_MASK == 0),
        c == ((((l << LANGUAGE_SHIFT) | (e << EXTLANG_SHIFT)) | p) | (s << SCRIPT_SHIFT)) | r,
        (l << LANGUAGE_SHIFT) & EXTLANG_MASK == 0,
        p == 0 || p == PROTO_MASK,
        (0u64 << LANGUAGE_SHIFT) == 0,
        (0u64 << EXTLANG_SHIFT) == 0,
        (0u64 << SCRIPT_SHIFT) == 0,
{
}

/// Bitwise-or with zero changes nothing.
proof fn lemma_or_zero(v: u64)
    by (bit_vector)
    ensures
        v | 0 == v,
{
}

/// The leading-hyphen join of one part alone.
pub proof fn lemma_tail_single(t: Seq<char>)
    ensures
        tail_text(seq![t]) == seq!['-'] + t,
{
    assert(seq![t].skip(1) =~= Seq::<Seq<char>>::empty());
    assert(tail_text(Seq::<Seq<char>>::empty()) == Seq::<char>::empty());
    assert(tail_text(seq![t]) =~= seq!['-'] + t);
}

/// The parts of a tag's text joined with hyphens, the leading hyphen
/// included.
pub open spec fn tail_text(parts: Seq<Seq<char>>) -> Seq<char>
    decreases parts.len(),
{
    if parts.len() == 0 {
        Seq::empty()
    } else {
        seq!['-'] + parts[0] + tail_text(parts.skip(1))
    }
}

pub proof fn lemma_tail_text_concat(x: Seq<Seq<char>>, y: Seq<Seq<char>>)
    ensures
        tail_text(x + y) == tail_text(x) + tail_text(y),
    decreases x.len(),
{
    if x.len() == 0 {
        assert(x + y =~= y);
        assert(tail_text(x) + tail_text(y) =~= tail_text(y));
    } else {
        assert((x + y).skip(1) =~= x.skip(1) + y);
        lemma_tail_text_concat(x.skip(1), y);
        assert(tail_text(x + y) =~= tail_text(x) + tail_text(y));
    }
}

/// Splitting a head token followed by hyphen-led parts yields
/// exactly those tokens.
pub proof fn lemma_split_tail(head: Seq<char>, parts: Seq<Seq<char>>)
    requires
        dash_free(head),
        forall|i: int| 0 <= i < parts.len() ==> dash_free(#[trigger] parts[i]),
    ensures
        split_tokens(head + tail_text(parts)) == seq![head] + parts,
    decreases parts.len(),
{
    if parts.len() == 0 {
        assert(head + tail_text(parts) =~= head);
        lemma_split_single(head);
    } else {
        assert(head + tail_text(parts) =~= head + seq!['-'] + (parts[0] + tail_text(
            parts.skip(1),
        )));
        lemma_split_lead(head, parts[0] + tail_text(parts.skip(1)));
        lemma_split_tail(parts[0], parts.skip(1));
        assert(seq![head] + (seq![parts[0]] + parts.skip(1)) =~= seq![head] + parts);
    }
}

/// The normalized extlang portion of the canonical text is the
/// hyphen-led join of its tokens.
#[verifier::spinoff_prover]
proof fn lemma_norm_ext_part(c: u64, e: u64, p: u64, et: Seq<char>)
    requires
        e == (c & EXTLANG_MASK) >> EXTLANG_SHIFT,
        p == c & PROTO_MASK,
        et == unpack_letters(e - 1000),
        e != 0 ==> check_chars(et),
        e != 0 ==> e >= 1000,
    ensures
        normalize_chars(dash_opt(extlang_part(c))) == tail_text(
            (if e != 0 {
                seq![et]
            } else {
                Seq::<Seq<char>>::empty()
            }) + (if p != 0 {
                seq![pro_tok()]
            } else {
                Seq::<Seq<char>>::empty()
            }),
        ),
{
    let a2 = dash_opt(extlang_part(c));
    let etoks: Seq<Seq<char>> = if e != 0 {
        seq![et]
    } else {
        Seq::empty()
    };
    let ptoks: Seq<Seq<char>> = if p != 0 {
        seq![pro_tok()]
    } else {
        Seq::empty()
    };
    assert(is_low_alpha('p') && is_low_alpha('r') && is_low_alpha('o'));
    assert(check_chars(pro_tok()));
    assert(norm_char('-') == '-');
    if e == 0 && p == 0 {
        assert(extlang_part(c) is None);
        assert(tail_text(etoks + ptoks) =~= Seq::<char>::empty());
        assert(normalize_chars(a2) =~= Seq::<char>::empty());
    } else if e == 0 {
        assert(extlang_part(c) == Some(pro_chars()));
        assert(pro_chars() =~= pro_tok());
        assert(a2 =~= seq!['-'] + pro_tok());
        lemma_norm_concat(seq!['-'], pro_tok());
        lemma_norm_fixed(pro_tok());
        assert(normalize_chars(seq!['-']) =~= seq!['-']);
        assert(etoks + ptoks =~= seq![pro_tok()]);
        lemma_tail_single(pro_tok());
    } else if p == 0 {
        assert(extlang_part(c) == Some(et));
        assert(a2 =~= seq!['-'] + et);
        lemma_norm_concat(seq!['-'], et);
        lemma_norm_fixed(et);
        assert(normalize_chars(seq!['-']) =~= seq!['-']);
        assert(etoks + ptoks =~= seq![et]);
        lemma_tail_single(et);
    } else {
        assert(pro_chars() =~= pro_tok());
        assert(extlang_part(c) == Some(et + seq!['-'] + pro_chars()));
        assert(a2 =~= seq!['-'] + et + seq!['-'] + pro_tok());
        assert(a2 =~= seq!['-'] + (et + (seq!['-'] + (pro_tok() + Seq::<char>::empty()))));
        lemma_norm_concat(seq!['-'], et + (seq!['-'] + (pro_tok() + Seq::<char>::empty())));
        lemma_norm_concat(et, seq!['-'] + (pro_tok() + Seq::<char>::empty()));
        lemma_norm_concat(seq!['-'], pro_tok() + Seq::<char>::empty());
        lemma_norm_concat(pro_tok(), Seq::<char>::empty());
        lemma_norm_fixed(et);
        lemma_norm_fixed(pro_tok());
        assert(normalize_chars(seq!['-']) =~= seq!['-']);
        assert(normalize_chars(Seq::<char>::empty()) =~= Seq::<char>::empty());
        assert(etoks + ptoks =~= seq![et, pro_tok()]);
        assert((seq![et, pro_tok()]).skip(1) =~= seq![pro_tok()]);
        lemma_tail_single(pro_tok());
        assert(tail_text(seq![et, pro_tok()]) =~= seq!['-'] + et + (seq!['-'] + pro_tok()));
        assert(seq!['-'] + et + (seq!['-'] + pro_tok()) =~= seq!['-'] + (et + (seq!['-'] + (
        pro_tok() + Seq::<char>::empty()))));
    }
}

/// The normalized script portion of the canonical text.
#[verifier::spinoff_prover]
proof fn lemma_norm_script_part(c: u64, s: u64, st: Seq<char>)
    requires
        s == (c & SCRIPT_MASK) >> SCRIPT_SHIFT,
        st == unpack_letters(s - 1000),
        s != 0 ==> check_chars(st) && st.len() >= 1,
        s != 0 ==> s >= 1000,
    ensures
        normalize_chars(dash_opt(script_part(c))) == tail_text(
            if s != 0 {
                seq![st]
            } else {
                Seq::<Seq<char>>::empty()
            },
        ),
{
    let a3 = dash_opt(script_part(c));
    assert(norm_char('-') == '-');
    if s == 0 {
        assert(script_part(c) is None);
        assert(tail_text(Seq::<Seq<char>>::empty()) =~= Seq::<char>::empty());
        assert(normalize_chars(a3) =~= Seq::<char>::empty());
    } else {
        assert(script_part(c) == Some(title_chars(st)));
        lemma_norm_concat(seq!['-'], title_chars(st));
        lemma_norm_title(st);
        assert(normalize_chars(seq!['-']) =~= seq!['-']);
        lemma_tail_single(st);
    }
}

/// The normalized region portion of the canonical text.
#[verifier::spinoff_prover]
proof fn lemma_norm_region_part(c: u64, r: u64, rt: Seq<char>)
    requires
        r == c & REGION_MASK,
        rt == (if r < 1000 {
            digits3(r as int)
        } else {
            unpack_letters(r - 1000)
        }),
        r != 0 ==> check_chars(rt),
    ensures
        normalize_chars(dash_opt(region_part(c))) == tail_text(
            if r != 0 {
                seq![rt]
            } else {
                Seq::<Seq<char>>::empty()
            },
        ),
{
    let a4 = dash_opt(region_part(c));
    assert(norm_char('-') == '-');
    if r == 0 {
        assert(region_part(c) is None);
        assert(tail_text(Seq::<Seq<char>>::empty()) =~= Seq::<char>::empty());
        assert(normalize_chars(a4) =~= Seq::<char>::empty());
    } else {
        assert(region_part(c) == Some(upper_chars(rt)));
        lemma_norm_concat(seq!['-'], upper_chars(rt));
        lemma_norm_upper(rt);
        assert(normalize_chars(seq!['-']) =~= seq!['-']);
        lemma_tail_single(rt);
    }
}

/// The canonical text of a well-formed code normalizes and splits
/// into its field tokens.
#[verifier::rlimit(100)]
#[verifier::spinoff_prover]
proof fn lemma_text_tokens(
    c: u64,
    l: u64,
    e: u64,
    s: u64,
    r: u64,
    p: u64,
    lt: Seq<char>,
    et: Seq<char>,
    st: Seq<char>,
    rt: Seq<char>,
)
    requires
        well_formed_code(c),
        l == (c & LANGUAGE_MASK) >> LANGUAGE_SHIFT,
        e == (c & EXTLANG_MASK) >> EXTLANG_SHIFT,
        s == (c & SCRIPT_MASK) >> SCRIPT_SHIFT,
        r == c & REGION_MASK,
        p == c & PROTO_MASK,
        lt == (if l == 0 {
            und_tok()
        } else if l < 1000 {
            digits3(l as int)
        } else {
            unpack_letters(l - 1000)
        }),
        et == unpack_letters(e - 1000),
        st == unpack_letters(s - 1000),
        rt == (if r < 1000 {
            digits3(r as int)
        } else {
            unpack_letters(r - 1000)
        }),
    ensures
        split_tokens(normalize_chars(unparse_tag_spec(c))) == seq![lt] + (if e != 0 {
            seq![et]
        } else {
            Seq::<Seq<char>>::empty()
        }) + (if p != 0 {
            seq![pro_tok()]
        } else {
            Seq::<Seq<char>>::empty()
        }) + (if s != 0 {
            seq![st]
        } else {
            Seq::<Seq<char>>::empty()
        }) + (if r != 0 {
            seq![rt]
        } else {
            Seq::<Seq<char>>::empty()
        }),
{
    let etoks: Seq<Seq<char>> = if e != 0 {
        seq![et]
    } else {
        Seq::empty()
    };
    let ptoks: Seq<Seq<char>> = if p != 0 {
        seq![pro_tok()]
    } else {
        Seq::empty()
    };
    let stoks: Seq<Seq<char>> = if s != 0 {
        seq![st]
    } else {
        Seq::empty()
    };
    let rtoks: Seq<Seq<char>> = if r != 0 {
        seq![rt]
    } else {
        Seq::empty()
    };
    let rest = etoks + ptoks + stoks + rtoks;
    // Character classes of each token.
    assert(is_low_alpha('u') && is_low_alpha('n') && is_low_alpha('d'));
    assert(check_chars(und_tok()));
    assert(dash_free(und_tok()));
    if l >= 1000 {
        lemma_alpha_token_chars(lt);
    } else if l != 0 {
        lemma_digits3_value(l as int);
    }
    assert(check_chars(lt) && dash_free(lt));
    if e != 0 {
        lemma_alpha_token_chars(et);
    }
    if s != 0 {
        lemma_alpha_token_chars(st);
    }
    if r >= 1000 {
        lemma_alpha_token_chars(rt);
    } else if r != 0 {
        lemma_digits3_value(r as int);
    }
    assert(is_low_alpha('p') && is_low_alpha('r') && is_low_alpha('o'));
    assert(check_chars(pro_tok()) && dash_free(pro_tok()));
    // The normalized text is the tokens joined with hyphens.
    let text = unparse_tag_spec(c);
    let a1 = lang_part(c);
    let a2 = dash_opt(extlang_part(c));
    let a3 = dash_opt(script_part(c));
    let a4 = dash_opt(region_part(c));
    assert(text == a1 + a2 + a3 + a4);
    lemma_norm_concat(a1 + a2 + a3, a4);
    lemma_norm_concat(a1 + a2, a3);
    lemma_norm_concat(a1, a2);
    assert(a1 == lt) by {
        if l == 0 {
            assert(und_chars() =~= und_tok());
        }
    }
    lemma_norm_fixed(lt);
    lemma_norm_ext_part(c, e, p, et);
    lemma_norm_script_part(c, s, st);
    lemma_norm_region_part(c, r, rt);
    lemma_tail_text_concat(etoks + ptoks, stoks);
    lemma_tail_text_concat(etoks + ptoks + stoks, rtoks);
    assert(etoks + ptoks + stoks + rtoks =~= rest);
    let nrm = normalize_chars(text);
    assert(nrm == lt + tail_text(rest));
    // Splitting recovers the tokens.
    assert(forall|i: int| 0 <= i < rest.len() ==> dash_free(#[trigger] rest[i]));
    lemma_split_tail(lt, rest);
    assert(split_tokens(nrm) == seq![lt] + rest);
    assert(seq![lt] + rest =~= seq![lt] + etoks + ptoks + stoks + rtoks);
}

/// Encoding an alphabetic token yields a field value that decodes
/// and re-encodes to itself; this is how a caller shows a code it
/// assembled is well formed.
pub proof fn lemma_alpha_encode_field(t: Seq<char>, w: nat)
    requires
        alpha_token(t, w),
        w <= 4,
    ensures
        alpha_field(encode_subtag_spec(t, w) as u64, t.len(), w),
        1000 <= encode_subtag_spec(t, w) < 0x100000,
        unpack_letters(encode_subtag_spec(t, w) - 1000) == t,
{
    crate::subtag::lemma_pack_bounds(t);
    crate::subtag::lemma_pow32_pos((w - t.len()) as nat);
    crate::subtag::lemma_pow32_increases((w - t.len()) as nat, 3);
    crate::subtag::lemma_pow32_increases((t.len() - 1) as nat, 3);
    let p = crate::subtag::pack_letters(t);
    let k = (w - t.len()) as nat;
    let e = p * crate::subtag::pow32(k);
    assert(t.len() >= 1 && is_low_alpha(t[0]) && !is_digit_char(t[0]));
    assert(!numeric_token(t));
    reveal_with_fuel(crate::subtag::pow32, 4);
    assert(crate::subtag::pow32(3) == 32768);
    assert(1 <= e && e < 27 * 32768 * 32768) by (nonlinear_arith)
        requires
            1 <= p < 27 * crate::subtag::pow32((t.len() - 1) as nat),
            crate::subtag::pow32((t.len() - 1) as nat) <= 32768,
            1 <= crate::subtag::pow32(k) <= 32768,
            e == p * crate::subtag::pow32(k),
    ;
    crate::subtag::lemma_unpack_pad(p, k);
    crate::subtag::lemma_unpack_pack(t);
    assert(encode_subtag_spec(t, w) == e + 1000);
    assert(unpack_letters((e + 1000) - 1000) == t);
    crate::subtag::lemma_pow32_mul((t.len() - 1) as nat, k);
    assert(crate::subtag::pow32((t.len() - 1 + k) as nat) <= 32768) by {
        crate::subtag::lemma_pow32_increases((t.len() - 1 + k) as nat, 3);
    }
    assert(e < 27 * 32768) by (nonlinear_arith)
        requires
            1 <= p < 27 * crate::subtag::pow32((t.len() - 1) as nat),
            e == p * crate::subtag::pow32(k),
            crate::subtag::pow32((t.len() - 1) as nat) * crate::subtag::pow32(k)
                == crate::subtag::pow32((t.len() - 1 + k) as nat),
            crate::subtag::pow32((t.len() - 1 + k) as nat) <= 32768,
            crate::subtag::pow32(k) >= 1,
            crate::subtag::pow32((t.len() - 1) as nat) >= 1,
    ;
}

/// The round trip of the codec: the canonical text of a well-formed
/// code parses back to exactly that code.
#[verifier::spinoff_prover]
pub proof fn lemma_codec_roundtrip(c: u64)
    requires
        well_formed_code(c),
    ensures
        parse_tag_spec(unparse_tag_spec(c)) == ParseOutcome::Value(c),
{
    let l = (c & LANGUAGE_MASK) >> LANGUAGE_SHIFT;
    let e = (c & EXTLANG_MASK) >> EXTLANG_SHIFT;
    let s = (c & SCRIPT_MASK) >> SCRIPT_SHIFT;
    let r = c & REGION_MASK;
    let p = c & PROTO_MASK;
    let lt: Seq<char> = if l == 0 {
        und_tok()
    } else if l < 1000 {
        digits3(l as int)
    } else {
        unpack_letters(l - 1000)
    };
    let et = unpack_letters(e - 1000);
    let st = unpack_letters(s - 1000);
    let rt: Seq<char> = if r < 1000 {
        digits3(r as int)
    } else {
        unpack_letters(r - 1000)
    };
    lemma_text_tokens(c, l, e, s, r, p, lt, et, st, rt);
    lemma_roundtrip_walk(
        c,
        l,
        e,
        s,
        r,
        p,
        seq![lt] + (if e != 0 {
            seq![et]
        } else {
            Seq::<Seq<char>>::empty()
        }) + (if p != 0 {
            seq![pro_tok()]
        } else {
            Seq::<Seq<char>>::empty()
        }) + (if s != 0 {
            seq![st]
        } else {
            Seq::<Seq<char>>::empty()
        }) + (if r != 0 {
            seq![rt]
        } else {
            Seq::<Seq<char>>::empty()
        }),
        lt,
        et,
        st,
        rt,
    );
}

/// One machine step over an extlang-shaped token.
proof fn lemma_step_extlang(toks: Seq<Seq<char>>, i: int, n: i32, val: u64, t: Seq<char>)
    requires
        0 <= i < toks.len(),
        toks[i] == t,
        t.len() == 3,
        all_low_alpha(t),
        t != pro_tok(),
        0 <= n < 3,
        val & EXTLANG_MASK == 0,
        crate::subtag::encodable(t, 3),
    ensures
        run_tokens(toks, i, ParserState::AfterLanguage(n), val) == run_tokens(
            toks,
            i + 1,
            ParserState::AfterLanguage((n + 1) as i32),
            val | ((encode_subtag_spec(t, 3) as u64) << EXTLANG_SHIFT),
        ),
{
    lemma_alpha_token_chars(t);
    assert(is_low_alpha(t[0]) && !is_digit_char(t[0]));
    assert(!is_extension_tok(t));
    assert(!is_variant_tok(t));
    assert(!is_region_tok(t));
    assert(!is_script_tok(t));
    assert(is_extlang_tok(t));
}

/// One machine step over the `pro` token.
proof fn lemma_step_pro(toks: Seq<Seq<char>>, i: int, n: i32, val: u64)
    requires
        0 <= i < toks.len(),
        toks[i] == pro_tok(),
        0 <= n < 3,
    ensures
        run_tokens(toks, i, ParserState::AfterLanguage(n), val) == run_tokens(
            toks,
            i + 1,
            ParserState::AfterLanguage((n + 1) as i32),
            val | PROTO_MASK,
        ),
{
    let t = pro_tok();
    assert(is_low_alpha('p') && is_low_alpha('r') && is_low_alpha('o'));
    assert(check_chars(t));
    assert(is_low_alpha(t[0]) && !is_digit_char(t[0]));
    assert(!is_extension_tok(t));
    assert(!is_variant_tok(t));
    assert(!is_region_tok(t));
    assert(!is_script_tok(t));
    assert(is_extlang_tok(t));
}

/// One machine step over a script-shaped token.
proof fn lemma_step_script(toks: Seq<Seq<char>>, i: int, n: i32, val: u64, t: Seq<char>)
    requires
        0 <= i < toks.len(),
        toks[i] == t,
        t.len() == 4,
        all_low_alpha(t),
        t != zzzz_tok(),
        n >= 0,
        crate::subtag::encodable(t, 4),
    ensures
        run_tokens(toks, i, ParserState::AfterLanguage(n), val) == run_tokens(
            toks,
            i + 1,
            ParserState::AfterScript,
            val | ((encode_subtag_spec(t, 4) as u64) << SCRIPT_SHIFT),
        ),
{
    lemma_alpha_token_chars(t);
    assert(is_low_alpha(t[0]) && !is_digit_char(t[0]));
    assert(!is_extension_tok(t));
    assert(!is_variant_tok(t));
    assert(!is_region_tok(t));
    assert(is_script_tok(t));
}

/// One machine step over a region-shaped token, from either the
/// language or the script state.
proof fn lemma_step_region(toks: Seq<Seq<char>>, i: int, stt: ParserState, val: u64, t: Seq<char>)
    requires
        0 <= i < toks.len(),
        toks[i] == t,
        check_chars(t),
        is_region_tok(t),
        !is_variant_tok(t),
        t != zz_tok(),
        language_state(stt) >= 0 || stt == ParserState::AfterScript,
        stt != ParserState::AfterVariant,
        crate::subtag::encodable(t, 2),
    ensures
        run_tokens(toks, i, stt, val) == run_tokens(
            toks,
            i + 1,
            ParserState::AfterRegion,
            val | (encode_subtag_spec(t, 2) as u64),
        ),
{
    assert(t.len() >= 1);
    assert(!is_extension_tok(t)) by {
        assert(t.len() == 2 || t.len() == 3);
    }
}

/// Walk the shape machine over the canonical token list, gathering
/// the fields back.
#[verifier::rlimit(100)]
#[verifier::spinoff_prover]
proof fn lemma_roundtrip_walk(
    c: u64,
    l: u64,
    e: u64,
    s: u64,
    r: u64,
    p: u64,
    toks: Seq<Seq<char>>,
    lt: Seq<char>,
    et: Seq<char>,
    st: Seq<char>,
    rt: Seq<char>,
)
    requires
        well_formed_code(c),
        l == (c & LANGUAGE_MASK) >> LANGUAGE_SHIFT,
        e == (c & EXTLANG_MASK) >> EXTLANG_SHIFT,
        s == (c & SCRIPT_MASK) >> SCRIPT_SHIFT,
        r == c & REGION_MASK,
        p == c & PROTO_MASK,
        lt == (if l == 0 {
            und_tok()
        } else if l < 1000 {
            digits3(l as int)
        } else {
            unpack_letters(l - 1000)
        }),
        et == unpack_letters(e - 1000),
        st == unpack_letters(s - 1000),
        rt == (if r < 1000 {
            digits3(r as int)
        } else {
            unpack_letters(r - 1000)
        }),
        toks == seq![lt] + (if e != 0 {
            seq![et]
        } else {
            Seq::<Seq<char>>::empty()
        }) + (if p != 0 {
            seq![pro_tok()]
        } else {
            Seq::<Seq<char>>::empty()
        }) + (if s != 0 {
            seq![st]
        } else {
            Seq::<Seq<char>>::empty()
        }) + (if r != 0 {
            seq![rt]
        } else {
            Seq::<Seq<char>>::empty()
        }),
    ensures
        parse_tokens(toks) == ParseOutcome::Value(c),
{
    lemma_assemble(c, l, e, s, r, p);
    assert(is_low_alpha('u') && is_low_alpha('n') && is_low_alpha('d'));
    if l >= 1000 {
        lemma_alpha_token_chars(lt);
    } else if l != 0 {
        lemma_digits3_value(l as int);
    }
    if r != 0 && r < 1000 {
        lemma_digits3_value(r as int);
    }
    // First token: the language.
    assert(toks[0] == lt);
    assert(toks.len() >= 1);
    let v0: u64 = l << LANGUAGE_SHIFT;
    assert(parse_tokens(toks) == run_tokens(toks, 1, ParserState::AfterLanguage(0), v0)) by {
        if l == 0 {
            assert(lt == und_tok());
            assert(lt != seq!['i'] && lt != seq!['x']);
            assert(v0 == 0);
        } else if l < 1000 {
            assert(is_digit_char(lt[0]));
            assert(!is_low_alpha(lt[0]));
            assert(lt != seq!['i'] && lt != seq!['x'] && lt != und_tok());
            assert(lt.len() == 3);
            assert(check_chars(lt));
            assert(numeric_token(lt));
            assert(encode_subtag_spec(lt, 3) == l);
        } else {
            assert(lt != seq!['i'] && lt != seq!['x'] && lt != und_tok());
            assert(lt.len() >= 1);
            assert(check_chars(lt));
            assert(is_low_alpha(lt[0]) && !is_digit_char(lt[0]));
            assert(!numeric_token(lt));
            assert(crate::subtag::encodable(lt, 3));
            assert(encode_subtag_spec(lt, 3) == l);
        }
    }
    let mut idx: int = 1;
    let mut val: u64 = v0;
    let mut stt = ParserState::AfterLanguage(0);
    // Extlang token.
    if e != 0 {
        assert(toks[1] == et);
        lemma_step_extlang(toks, 1, 0, val, et);
        idx = 2;
        val = val | (e << EXTLANG_SHIFT);
        stt = ParserState::AfterLanguage(1);
    } else {
        lemma_or_zero(val);
        val = val | (e << EXTLANG_SHIFT);
    }
    assert(val == (l << LANGUAGE_SHIFT) | (e << EXTLANG_SHIFT));
    assert(parse_tokens(toks) == run_tokens(toks, idx, stt, val));
    // Proto token.
    if p != 0 {
        assert(toks[idx] == pro_tok());
        let n = if e != 0 {
            1i32
        } else {
            0i32
        };
        assert(stt == ParserState::AfterLanguage(n));
        lemma_step_pro(toks, idx, n, val);
        stt = ParserState::AfterLanguage((n + 1) as i32);
        idx = idx + 1;
        val = val | PROTO_MASK;
    } else {
        lemma_or_zero(val);
        val = val | p;
    }
    assert(val == ((l << LANGUAGE_SHIFT) | (e << EXTLANG_SHIFT)) | p);
    assert(parse_tokens(toks) == run_tokens(toks, idx, stt, val));
    assert(0 <= language_state(stt) <= 2);
    // Script token.
    if s != 0 {
        assert(toks[idx] == st);
        let ghost n0 = language_state(stt) as i32;
        assert(stt == ParserState::AfterLanguage(n0));
        lemma_step_script(toks, idx, n0, val, st);
        idx = idx + 1;
        val = val | (s << SCRIPT_SHIFT);
        stt = ParserState::AfterScript;
    } else {
        lemma_or_zero(val);
        val = val | (s << SCRIPT_SHIFT);
    }
    assert(val == (((l << LANGUAGE_SHIFT) | (e << EXTLANG_SHIFT)) | p) | (s << SCRIPT_SHIFT));
    assert(parse_tokens(toks) == run_tokens(toks, idx, stt, val));
    assert(language_state(stt) >= 0 || stt == ParserState::AfterScript);
    // Region token.
    if r != 0 {
        assert(toks[idx] == rt);
        if r < 1000 {
            assert(rt.len() == 3 && is_digit_char(rt[0]));
            assert(check_chars(rt));
            assert(numeric_token(rt));
            assert(encode_subtag_spec(rt, 2) == r);
            assert(rt != zz_tok());
        } else {
            assert(rt.len() == 2 && is_low_alpha(rt[0]));
            lemma_alpha_token_chars(rt);
            assert(!numeric_token(rt));
            assert(encode_subtag_spec(rt, 2) == r);
        }
        assert(is_region_tok(rt));
        assert(!is_variant_tok(rt));
        lemma_step_region(toks, idx, stt, val, rt);
        idx = idx + 1;
        val = val | r;
        stt = ParserState::AfterRegion;
    } else {
        lemma_or_zero(val);
        val = val | r;
    }
    assert(val == c);
    assert(idx == toks.len());
    assert(run_tokens(toks, idx, stt, val) == ParseOutcome::Value(val));
}

} // verus!

verus! {

/// The all-zero code has every field empty.
proof fn lemma_zero_code(c: u64)
    by (bit_vector)
    requires
        c == 0,
    ensures
        (c & LANGUAGE_MASK) >> LANGUAGE_SHIFT == 0,
        (c & EXTLANG_MASK) >> EXTLANG_SHIFT == 0,
        (c & SCRIPT_MASK) >> SCRIPT_SHIFT == 0,
        c & REGION_MASK == 0,
        stray_bits(c) == 0,
{
}

/// A fresh language write fills only the language field.
proof fn lemma_lang_init(x: u64)
    by (bit_vector)
    requires
        x < 0x8000,
    ensures
        ((x << LANGUAGE_SHIFT) & LANGUAGE_MASK) >> LANGUAGE_SHIFT == x,
        ((x << LANGUAGE_SHIFT) & EXTLANG_MASK) >> EXTLANG_SHIFT == 0,
        ((x << LANGUAGE_SHIFT) & SCRIPT_MASK) >> SCRIPT_SHIFT == 0,
        (x << LANGUAGE_SHIFT) & REGION_MASK == 0,
        stray_bits(x << LANGUAGE_SHIFT) == 0,
{
}

/// Writing the extlang field changes nothing else.
proof fn lemma_or_ext(v: u64, x: u64)
    by (bit_vector)
    requires
        x < 0x8000,
        v & EXTLANG_MASK == 0,
    ensures
        ((v | (x << EXTLANG_SHIFT)) & EXTLANG_MASK) >> EXTLANG_SHIFT == x,
        ((v | (x << EXTLANG_SHIFT)) & LANGUAGE_MASK) >> LANGUAGE_SHIFT == (v & LANGUAGE_MASK)
            >> LANGUAGE_SHIFT,
        ((v | (x << EXTLANG_SHIFT)) & SCRIPT_MASK) >> SCRIPT_SHIFT == (v & SCRIPT_MASK)
            >> SCRIPT_SHIFT,
        (v | (x << EXTLANG_SHIFT)) & REGION_MASK == v & REGION_MASK,
        stray_bits(v | (x << EXTLANG_SHIFT)) == stray_bits(v),
{
}

/// Setting the proto flag changes no field.
proof fn lemma_or_proto(v: u64)
    by (bit_vector)
    ensures
        ((v | PROTO_MASK) & LANGUAGE_MASK) >> LANGUAGE_SHIFT == (v & LANGUAGE_MASK)
            >> LANGUAGE_SHIFT,
        ((v | PROTO_MASK) & EXTLANG_MASK) >> EXTLANG_SHIFT == (v & EXTLANG_MASK) >> EXTLANG_SHIFT,
        ((v | PROTO_MASK) & SCRIPT_MASK) >> SCRIPT_SHIFT == (v & SCRIPT_MASK) >> SCRIPT_SHIFT,
        (v | PROTO_MASK) & REGION_MASK == v & REGION_MASK,
        stray_bits(v | PROTO_MASK) == stray_bits(v),
{
}

/// Writing the script field changes nothing else.
proof fn lemma_or_script(v: u64, x: u64)
    by (bit_vector)
    requires
        x < 0x100000,
        (v & SCRIPT_MASK) >> SCRIPT_SHIFT == 0,
    ensures
        ((v | (x << SCRIPT_SHIFT)) & SCRIPT_MASK) >> SCRIPT_SHIFT == x,
        ((v | (x << SCRIPT_SHIFT)) & LANGUAGE_MASK) >> LANGUAGE_SHIFT == (v & LANGUAGE_MASK)
            >> LANGUAGE_SHIFT,
        ((v | (x << SCRIPT_SHIFT)) & EXTLANG_MASK) >> EXTLANG_SHIFT == (v & EXTLANG_MASK)
            >> EXTLANG_SHIFT,
        (v | (x << SCRIPT_SHIFT)) & REGION_MASK == v & REGION_MASK,
        stray_bits(v | (x << SCRIPT_SHIFT)) == stray_bits(v),
        (v | (x << SCRIPT_SHIFT)) & REGION_MASK == 0 || v & REGION_MASK != 0,
{
}

/// Writing the region field changes nothing else.
proof fn lemma_or_region(v: u64, x: u64)
    by (bit_vector)
    requires
        x < 0x800,
        v & REGION_MASK == 0,
    ensures
        (v | x) & REGION_MASK == x,
        ((v | x) & LANGUAGE_MASK) >> LANGUAGE_SHIFT == (v & LANGUAGE_MASK) >> LANGUAGE_SHIFT,
        ((v | x) & EXTLANG_MASK) >> EXTLANG_SHIFT == (v & EXTLANG_MASK) >> EXTLANG_SHIFT,
        ((v | x) & SCRIPT_MASK) >> SCRIPT_SHIFT == (v & SCRIPT_MASK) >> SCRIPT_SHIFT,
        stray_bits(v | x) == stray_bits(v),
{
}

/// The missing-tag sentinel is itself well formed: its language
/// field encodes `mis`.
proof fn lemma_missing_wf()
    ensures
        well_formed_code(crate::fields::MISSING_CODE),
{
    let c = crate::fields::MISSING_CODE;
    let t = seq!['m', 'i', 's'];
    assert(is_low_alpha('m') && is_low_alpha('i') && is_low_alpha('s'));
    assert((c & LANGUAGE_MASK) >> LANGUAGE_SHIFT == 14619 && (c & EXTLANG_MASK) >> EXTLANG_SHIFT
        == 0 && (c & SCRIPT_MASK) >> SCRIPT_SHIFT == 0 && c & REGION_MASK == 0 && stray_bits(c)
        == 0) by (bit_vector)
        requires
            c == 0x391b_0000_0000_0000u64,
    ;
    assert(encode_subtag_spec(t, 3) == 14619) by {
        assert(!is_digit_char('m'));
        assert(!numeric_token(t));
        assert(t.drop_last() =~= seq!['m', 'i']);
        assert(seq!['m', 'i'].drop_last() =~= seq!['m']);
        assert(seq!['m'].drop_last() =~= Seq::<char>::empty());
        assert(crate::subtag::pack_letters(Seq::<char>::empty()) == 0);
        assert(crate::subtag::letter_val('m') == 13);
        assert(crate::subtag::letter_val('i') == 9);
        assert(crate::subtag::letter_val('s') == 19);
        assert(crate::subtag::pack_letters(seq!['m']) == 13);
        assert(crate::subtag::pack_letters(seq!['m', 'i']) == 425);
        assert(crate::subtag::pack_letters(t) == 13619);
        assert(crate::subtag::pow32(0) == 1);
    }
    lemma_alpha_encode_field(t, 3);
    assert(t != seq!['i'] && t != seq!['x'] && t != und_tok()) by {
        assert(t.len() == 3 && und_tok()[0] == 'u' && t[0] == 'm');
    }
}

} // verus!

verus! {

/// The machine preserves well-formedness: run from a well-formed
/// partial code, in a state that still allows the remaining writes,
/// and any code that comes out is well formed.
proof fn lemma_run_preserves_wf(tokens: Seq<Seq<char>>, i: int, state: ParserState, val: u64)
    requires
        well_formed_code(val),
        language_state(state) >= 0 ==> (val & SCRIPT_MASK) >> SCRIPT_SHIFT == 0 && val
            & REGION_MASK == 0,
        state == ParserState::AfterScript ==> val & REGION_MASK == 0,
    ensures
        run_tokens(tokens, i, state, val) matches ParseOutcome::Value(v) ==> well_formed_code(v),
    decreases tokens.len() - i,
{
    if i < 0 || i >= tokens.len() {
    } else {
        let t = tokens[i];
        let ls = language_state(state);
        if !check_chars(t) {
        } else if is_extension_tok(t) {
        } else if state != ParserState::AfterVariant && is_variant_tok(t) {
            lemma_run_preserves_wf(tokens, i + 1, ParserState::AfterVariant, val);
        } else if (ls >= 0 || state == ParserState::AfterScript) && is_region_tok(t) {
            if t == zz_tok() {
                lemma_run_preserves_wf(tokens, i + 1, ParserState::AfterRegion, val);
            } else if !crate::subtag::encodable(t, 2) {
            } else {
                let x = encode_subtag_spec(t, 2) as u64;
                if numeric_token(t) {
                    crate::subtag::lemma_num_value_small(t);
                    crate::subtag::lemma_num_value_nonneg(t);
                    assert(x <= 999);
                } else {
                    assert(t.len() == 2) by {
                        assert(is_low_alpha(t[0]) && !is_digit_char(t[0]));
                    }
                    lemma_alpha_encode_field(t, 2);
                    assert(x < 0x100000);
                    assert(x < 0x800) by {
                        crate::subtag::lemma_pack_bounds(t);
                        reveal_with_fuel(crate::subtag::pow32, 4);
                        assert(encode_subtag_spec(t, 2) == crate::subtag::pack_letters(t)
                            * crate::subtag::pow32(0) + 1000);
                        assert(crate::subtag::pack_letters(t) * 1 == crate::subtag::pack_letters(
                            t,
                        )) by (nonlinear_arith);
                        assert(crate::subtag::pack_letters(t) < 27 * 32);
                    }
                }
                lemma_or_region(val, x);
                assert(well_formed_code(val | x));
                lemma_run_preserves_wf(tokens, i + 1, ParserState::AfterRegion, val | x);
            }
        } else if ls >= 0 && is_script_tok(t) {
            if t == zzzz_tok() {
                lemma_run_preserves_wf(tokens, i + 1, ParserState::AfterScript, val);
            } else if !crate::subtag::encodable(t, 4) {
            } else {
                let x = encode_subtag_spec(t, 4) as u64;
                assert(!numeric_token(t) && t.len() == 4 && crate::subtag::all_low_alpha(t)) by {
                    if numeric_token(t) {
                        assert(is_digit_char(t[0]));
                        assert(!is_variant_tok(t));
                    }
                }
                lemma_alpha_encode_field(t, 4);
                lemma_or_script(val, x);
                assert(well_formed_code(val | (x << SCRIPT_SHIFT)));
                lemma_run_preserves_wf(
                    tokens,
                    i + 1,
                    ParserState::AfterScript,
                    val | (x << SCRIPT_SHIFT),
                );
            }
        } else if ls >= 0 && ls < 3 && is_extlang_tok(t) {
            if t == pro_tok() {
                lemma_or_proto(val);
                assert(well_formed_code(val | PROTO_MASK));
                assert(((val | PROTO_MASK) & SCRIPT_MASK) >> SCRIPT_SHIFT == 0);
                assert((val | PROTO_MASK) & REGION_MASK == 0);
                lemma_run_preserves_wf(
                    tokens,
                    i + 1,
                    ParserState::AfterLanguage((ls + 1) as i32),
                    val | PROTO_MASK,
                );
            } else if !crate::subtag::encodable(t, 3) {
            } else if val & EXTLANG_MASK == 0 {
                let x = encode_subtag_spec(t, 3) as u64;
                assert(!numeric_token(t) && t.len() == 3 && crate::subtag::all_low_alpha(t)) by {
                    assert(!is_digit_char(t[0]));
                    if numeric_token(t) {
                        assert(is_digit_char(t[0]));
                    }
                }
                lemma_alpha_encode_field(t, 3);
                assert(x < 0x8000) by {
                    crate::subtag::lemma_pack_bounds(t);
                    crate::subtag::lemma_pow32_increases((t.len() - 1) as nat, 2);
                    reveal_with_fuel(crate::subtag::pow32, 4);
                    assert(encode_subtag_spec(t, 3) == crate::subtag::pack_letters(t)
                        * crate::subtag::pow32(0) + 1000);
                    assert(crate::subtag::pack_letters(t) * 1 == crate::subtag::pack_letters(t))
                        by (nonlinear_arith);
                    assert(crate::subtag::pack_letters(t) < 27 * 1024);
                }
                lemma_or_ext(val, x);
                assert(well_formed_code(val | (x << EXTLANG_SHIFT)));
                assert(((val | (x << EXTLANG_SHIFT)) & SCRIPT_MASK) >> SCRIPT_SHIFT == 0);
                assert((val | (x << EXTLANG_SHIFT)) & REGION_MASK == 0);
                lemma_run_preserves_wf(
                    tokens,
                    i + 1,
                    ParserState::AfterLanguage((ls + 1) as i32),
                    val | (x << EXTLANG_SHIFT),
                );
            } else {
                lemma_run_preserves_wf(
                    tokens,
                    i + 1,
                    ParserState::AfterLanguage((ls + 1) as i32),
                    val,
                );
            }
        } else {
        }
    }
}

/// Whatever the parser accepts is a well-formed code, provided a
/// numeric language subtag stays below 1000 (larger numbers do not
/// fit the language field faithfully).
pub proof fn lemma_parse_well_formed(s: Seq<char>)
    requires
        ({
            let tokens = split_tokens(normalize_chars(s));
            tokens.len() >= 1 && all_digits(tokens[0]) && tokens[0].len() >= 1
                ==> num_value(tokens[0]) <= 999
        }),
    ensures
        parse_tag_spec(s) matches ParseOutcome::Value(c) ==> well_formed_code(c),
{
    let tokens = split_tokens(normalize_chars(s));
    if tokens.len() == 0 {
    } else {
        let t = tokens[0];
        if t == seq!['i'] || t == seq!['x'] {
            lemma_missing_wf();
        } else if t == und_tok() {
            lemma_zero_code(0);
            assert(well_formed_code(0));
            lemma_run_preserves_wf(tokens, 1, ParserState::AfterLanguage(0), 0);
        } else if t.len() == 0 {
        } else if !check_chars(t) {
        } else if !crate::subtag::encodable(t, 3) {
        } else {
            let x = encode_subtag_spec(t, 3) as u64;
            let v0 = x << LANGUAGE_SHIFT;
            if numeric_token(t) {
                crate::subtag::lemma_num_value_nonneg(t);
                assert(x <= 999);
                lemma_lang_init(x);
                assert(well_formed_code(v0));
            } else {
                assert(crate::subtag::alpha_token(t, 3));
                lemma_alpha_encode_field(t, 3);
                assert(x < 0x100000);
                assert(x < 0x8000) by {
                    crate::subtag::lemma_pack_bounds(t);
                    crate::subtag::lemma_pow32_increases((t.len() - 1) as nat, 2);
                    crate::subtag::lemma_pow32_increases((3 - t.len()) as nat, 2);
                    crate::subtag::lemma_pow32_mul((t.len() - 1) as nat, (3 - t.len()) as nat);
                    reveal_with_fuel(crate::subtag::pow32, 4);
                    let p = crate::subtag::pack_letters(t);
                    let w = crate::subtag::pow32((3 - t.len()) as nat);
                    assert(p * w < 27 * 1024) by (nonlinear_arith)
                        requires
                            1 <= p < 27 * crate::subtag::pow32((t.len() - 1) as nat),
                            crate::subtag::pow32((t.len() - 1) as nat) * w == crate::subtag::pow32(
                                (t.len() - 1 + (3 - t.len())) as nat,
                            ),
                            crate::subtag::pow32((t.len() - 1 + (3 - t.len())) as nat) <= 1024,
                            w >= 1,
                            crate::subtag::pow32((t.len() - 1) as nat) >= 1,
                    ;
                }
                lemma_lang_init(x);
                assert(well_formed_code(v0)) by {
                    assert(unpack_letters(x - 1000) == t);
                    assert(t != seq!['i'] && t != seq!['x'] && t != und_tok());
                }
            }
            lemma_run_preserves_wf(tokens, 1, ParserState::AfterLanguage(0), v0);
        }
    }
}

/// The canonical form is stable: printing a parsed code and parsing
/// that text again gives the same code.  This needs only that a
/// numeric language subtag stays below 1000.
pub proof fn lemma_parse_canonical(s: Seq<char>)
    requires
        ({
            let tokens = split_tokens(normalize_chars(s));
            tokens.len() >= 1 && all_digits(tokens[0]) && tokens[0].len() >= 1
                ==> num_value(tokens[0]) <= 999
        }),
        parse_tag_spec(s) is Value,
    ensures
        parse_tag_spec(unparse_tag_spec(parse_tag_spec(s)->Value_0)) == parse_tag_spec(s),
{
    lemma_parse_well_formed(s);
    lemma_codec_roundtrip(parse_tag_spec(s)->Value_0);
}

} // verus!
