//! From a packed code back to its canonical text.
//!
//! The canonical form joins the decoded subtags with hyphens and
//! re-cases them: language and extlang lowercase, script title-case,
//! region uppercase.  An absent language prints as `und`.

use vstd::prelude::*;
use crate::fields::{
    LANGUAGE_MASK, PROTO_MASK, EXTLANG_MASK, SCRIPT_MASK, REGION_MASK, LANGUAGE_SHIFT,
    EXTLANG_SHIFT, SCRIPT_SHIFT,
};
use crate::subtag::{decode_subtag_spec, decode_subtag_chars, char_of, lemma_char_of_codepoint};
use crate::strutil::chars_to_string;

verus! {

pub open spec fn und_chars() -> Seq<char> {
    seq!['u', 'n', 'd']
}

pub open spec fn pro_chars() -> Seq<char> {
    seq!['p', 'r', 'o']
}

/// Uppercase one character, when it is an ASCII lowercase letter.
pub open spec fn upper_char(c: char) -> char {
    if 97 <= c as u32 && c as u32 <= 122 {
        char_of(c as u32 - 32)
    } else {
        c
    }
}

pub open spec fn upper_chars(t: Seq<char>) -> Seq<char> {
    t.map_values(|c: char| upper_char(c))
}

/// Title-case: first character uppercased, the rest unchanged.
pub open spec fn title_chars(t: Seq<char>) -> Seq<char> {
    if t.len() == 0 {
        t
    } else {
        seq![upper_char(t[0])] + t.skip(1)
    }
}

/// The language part of a decoded tag, `und` when absent.
pub open spec fn lang_part(val: u64) -> Seq<char> {
    match decode_subtag_spec((val & LANGUAGE_MASK) >> LANGUAGE_SHIFT) {
        Option::None => und_chars(),
        Option::Some(t) => t,
    }
}

/// The extlang part, with `pro` appended (or standing alone) when the
/// proto bit is set.
pub open spec fn extlang_part(val: u64) -> Option<Seq<char>> {
    let proto = val & PROTO_MASK != 0;
    match decode_subtag_spec((val & EXTLANG_MASK) >> EXTLANG_SHIFT) {
        Option::Some(t) => Option::Some(
            if proto {
                t + seq!['-'] + pro_chars()
            } else {
                t
            },
        ),
        Option::None => if proto {
            Option::Some(pro_chars())
        } else {
            Option::None
        },
    }
}

pub open spec fn script_part(val: u64) -> Option<Seq<char>> {
    match decode_subtag_spec((val & SCRIPT_MASK) >> SCRIPT_SHIFT) {
        Option::Some(t) => Option::Some(title_chars(t)),
        Option::None => Option::None,
    }
}

pub open spec fn region_part(val: u64) -> Option<Seq<char>> {
    match decode_subtag_spec(val & REGION_MASK) {
        Option::Some(t) => Option::Some(upper_chars(t)),
        Option::None => Option::None,
    }
}

pub open spec fn dash_opt(p: Option<Seq<char>>) -> Seq<char> {
    match p {
        Option::Some(t) => seq!['-'] + t,
        Option::None => Seq::empty(),
    }
}

/// The whole canonical text of a code: the parts that are present,
/// joined by hyphens.
pub open spec fn unparse_tag_spec(val: u64) -> Seq<char> {
    lang_part(val) + dash_opt(extlang_part(val)) + dash_opt(script_part(val)) + dash_opt(
        region_part(val),
    )
}

/// Uppercase every character of a vector in place.
fn upper_vec(v: Vec<char>) -> (r: Vec<char>)
    ensures
        r@ == upper_chars(v@),
{
    let mut out: Vec<char> = Vec::new();
    let mut i: usize = 0;
    while i < v.len()
        invariant
            0 <= i <= v@.len(),
            out@ =~= upper_chars(v@).take(i as int),
        decreases v@.len() - i,
    {
        let c = v[i];
        let cv = c as u32;
        if 97 <= cv && cv <= 122 {
            out.push(((cv - 32) as u8) as char);
            proof {
                lemma_char_of_codepoint(cv as int - 32, ((cv - 32) as u8) as char);
            }
        } else {
            out.push(c);
        }
        i += 1;
        proof {
            assert(out@ =~= upper_chars(v@).take(i as int));
        }
    }
    proof {
        assert(upper_chars(v@).take(v@.len() as int) =~= upper_chars(v@));
    }
    out
}

/// Get the language subtag of a code as text, `und` when absent.
pub fn decode_language(val: u64) -> (r: String)
    ensures
        r@ == lang_part(val),
{
    match decode_subtag_chars((val & LANGUAGE_MASK) >> LANGUAGE_SHIFT) {
        Option::Some(chars) => chars_to_string(&chars),
        Option::None => {
            let mut v: Vec<char> = Vec::new();
            v.push('u');
            v.push('n');
            v.push('d');
            proof {
                assert(v@ =~= und_chars());
            }
            chars_to_string(&v)
        },
    }
}

/// Get the extlang subtag of a code as text, if one is present.  The
/// proto flag shows as a trailing (or lone) `pro`.
pub fn decode_extlang(val: u64) -> (r: Option<String>)
    ensures
        r is None <==> extlang_part(val) is None,
        r matches Some(s) ==> extlang_part(val) == Some(s@),
{
    let proto = val & PROTO_MASK != 0;
    match decode_subtag_chars((val & EXTLANG_MASK) >> EXTLANG_SHIFT) {
        Option::Some(chars) => {
            if proto {
                let mut v = chars;
                v.push('-');
                v.push('p');
                v.push('r');
                v.push('o');
                proof {
                    assert(v@ =~= decode_subtag_spec((val & EXTLANG_MASK) >> EXTLANG_SHIFT)->Some_0
                        + seq!['-'] + pro_chars());
                }
                Option::Some(chars_to_string(&v))
            } else {
                Option::Some(chars_to_string(&chars))
            }
        },
        Option::None => {
            if proto {
                let mut v: Vec<char> = Vec::new();
                v.push('p');
                v.push('r');
                v.push('o');
                proof {
                    assert(v@ =~= pro_chars());
                }
                Option::Some(chars_to_string(&v))
            } else {
                Option::None
            }
        },
    }
}

/// Title-case a character vector: uppercase its first character.
fn title_vec(chars: Vec<char>) -> (r: Vec<char>)
    ensures
        r@ == title_chars(chars@),
{
    if chars.len() == 0 {
        return chars;
    }
    let mut out: Vec<char> = Vec::new();
    let c = chars[0];
    let cv = c as u32;
    if 97 <= cv && cv <= 122 {
        out.push(((cv - 32) as u8) as char);
        proof {
            lemma_char_of_codepoint(cv as int - 32, ((cv - 32) as u8) as char);
        }
    } else {
        out.push(c);
    }
    let mut i: usize = 1;
    while i < chars.len()
        invariant
            1 <= i <= chars@.len(),
            out@ =~= title_chars(chars@).take(i as int),
            title_chars(chars@).len() == chars@.len(),
        decreases chars@.len() - i,
    {
        out.push(chars[i]);
        i += 1;
        proof {
            assert(out@ =~= title_chars(chars@).take(i as int));
        }
    }
    proof {
        assert(title_chars(chars@).take(chars@.len() as int) =~= title_chars(chars@));
    }
    out
}

/// Get the script subtag of a code as title-cased text, if present.
pub fn decode_script(val: u64) -> (r: Option<String>)
    ensures
        r is None <==> script_part(val) is None,
        r matches Some(s) ==> script_part(val) == Some(s@),
{
    match decode_subtag_chars((val & SCRIPT_MASK) >> SCRIPT_SHIFT) {
        Option::Some(chars) => Option::Some(chars_to_string(&title_vec(chars))),
        Option::None => Option::None,
    }
}

/// Get the region subtag of a code as uppercased text, if present.
pub fn decode_region(val: u64) -> (r: Option<String>)
    ensures
        r is None <==> region_part(val) is None,
        r matches Some(s) ==> region_part(val) == Some(s@),
{
    match decode_subtag_chars(val & REGION_MASK) {
        Option::Some(chars) => Option::Some(chars_to_string(&upper_vec(chars))),
        Option::None => Option::None,
    }
}

/// The canonical text of a code: language (or `und`), then extlang,
/// title-cased script, and uppercased region, joined by hyphens.
#[verifier::rlimit(60)]
pub fn unparse_tag(val: u64) -> (r: String)
    ensures
        r@ == unparse_tag_spec(val),
{
    let mut v: Vec<char> = Vec::new();
    match decode_subtag_chars((val & LANGUAGE_MASK) >> LANGUAGE_SHIFT) {
        Option::Some(mut chars) => {
            v.append(&mut chars);
        },
        Option::None => {
            v.push('u');
            v.push('n');
            v.push('d');
        },
    }
    proof {
        assert(v@ =~= lang_part(val));
    }
    let ghost v1 = v@;
    let proto = val & PROTO_MASK != 0;
    match decode_subtag_chars((val & EXTLANG_MASK) >> EXTLANG_SHIFT) {
        Option::Some(mut chars) => {
            v.push('-');
            v.append(&mut chars);
            if proto {
                v.push('-');
                v.push('p');
                v.push('r');
                v.push('o');
            }
        },
        Option::None => {
            if proto {
                v.push('-');
                v.push('p');
                v.push('r');
                v.push('o');
            }
        },
    }
    proof {
        assert(v@ =~= v1 + dash_opt(extlang_part(val)));
    }
    let ghost v2 = v@;
    match decode_subtag_chars((val & SCRIPT_MASK) >> SCRIPT_SHIFT) {
        Option::Some(chars) => {
            let mut t = title_vec(chars);
            v.push('-');
            v.append(&mut t);
        },
        Option::None => {},
    }
    proof {
        assert(v@ =~= v2 + dash_opt(script_part(val)));
    }
    let ghost v3 = v@;
    match decode_subtag_chars(val & REGION_MASK) {
        Option::Some(chars) => {
            let mut u = upper_vec(chars);
            v.push('-');
            v.append(&mut u);
        },
        Option::None => {},
    }
    proof {
        assert(v@ =~= v3 + dash_opt(region_part(val)));
        assert(v@ =~= unparse_tag_spec(val));
    }
    chars_to_string(&v)
}

} // verus!
