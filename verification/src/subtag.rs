//! The codec between one subtag and a small integer.
//!
//! Three ranges of encoded values exist: `0` means the subtag is
//! absent; `1` to `999` is a numeric subtag stored as its own value;
//! `1000` and above is an alphabetic subtag packed five bits per
//! letter (`a` is 1, `z` is 26) and biased by `1000`.  Alphabetic
//! subtags are left-padded with zero groups to the field's width, so
//! that two encoded subtags of one kind sort like their strings.

use vstd::prelude::*;

verus! {

pub open spec fn is_low_alpha(c: char) -> bool {
    97 <= c as u32 && c as u32 <= 122
}

pub open spec fn is_digit_char(c: char) -> bool {
    48 <= c as u32 && c as u32 <= 57
}

pub open spec fn all_low_alpha(t: Seq<char>) -> bool {
    forall|i: int| 0 <= i < t.len() ==> is_low_alpha(t[i])
}

pub open spec fn all_digits(t: Seq<char>) -> bool {
    forall|i: int| 0 <= i < t.len() ==> is_digit_char(t[i])
}

pub open spec fn digit_val(c: char) -> int {
    c as u32 - 48
}

/// The number a run of decimal digits denotes.
pub open spec fn num_value(t: Seq<char>) -> int
    decreases t.len(),
{
    if t.len() == 0 {
        0
    } else {
        num_value(t.drop_last()) * 10 + digit_val(t.last())
    }
}

pub open spec fn letter_val(c: char) -> int {
    c as u32 - 96
}

/// The letters of a subtag packed five bits per letter, high letter
/// first.
pub open spec fn pack_letters(t: Seq<char>) -> int
    decreases t.len(),
{
    if t.len() == 0 {
        0
    } else {
        pack_letters(t.drop_last()) * 32 + letter_val(t.last())
    }
}

pub open spec fn pow32(k: nat) -> int
    decreases k,
{
    if k == 0 {
        1
    } else {
        32 * pow32((k - 1) as nat)
    }
}

/// A token the encoder stores as a number: all digits, and small
/// enough for the machine word.
pub open spec fn numeric_token(t: Seq<char>) -> bool {
    t.len() >= 1 && all_digits(t) && num_value(t) <= u64::MAX
}

/// A token the encoder packs as letters into a field `width` letters
/// wide.
pub open spec fn alpha_token(t: Seq<char>, width: nat) -> bool {
    1 <= t.len() <= width && all_low_alpha(t)
}

/// The tokens on which the subtag encoding is defined.
pub open spec fn encodable(t: Seq<char>, width: nat) -> bool {
    numeric_token(t) || alpha_token(t, width)
}

pub open spec fn encode_subtag_spec(t: Seq<char>, width: nat) -> int {
    if numeric_token(t) {
        num_value(t)
    } else {
        pack_letters(t) * pow32((width - t.len()) as nat) + 1000
    }
}

pub open spec fn char_of(v: int) -> char {
    (v as u8) as char
}

/// A value below 1000 prints as three zero-padded decimal digits.
pub open spec fn digits3(v: int) -> Seq<char> {
    seq![char_of(48 + v / 100), char_of(48 + (v / 10) % 10), char_of(48 + v % 10)]
}

/// Unpack five-bit groups into letters, high group first, skipping
/// zero groups (the padding).
pub open spec fn unpack_letters(r: int) -> Seq<char>
    decreases r,
{
    if r <= 0 {
        Seq::empty()
    } else {
        unpack_letters(r / 32) + (if r % 32 == 0 {
            Seq::empty()
        } else {
            seq![char_of(96 + r % 32)]
        })
    }
}

/// What `decode_subtag` yields for an encoded field value.
pub open spec fn decode_subtag_spec(v: u64) -> Option<Seq<char>> {
    if v == 0 {
        None
    } else if v < 1000 {
        Some(digits3(v as int))
    } else {
        Some(unpack_letters(v - 1000))
    }
}

pub proof fn lemma_num_value_nonneg(t: Seq<char>)
    requires
        all_digits(t),
    ensures
        num_value(t) >= 0,
    decreases t.len(),
{
    if t.len() > 0 {
        assert(all_digits(t.drop_last()));
        lemma_num_value_nonneg(t.drop_last());
    }
}

/// A short digit run denotes a small number.
pub proof fn lemma_num_value_small(t: Seq<char>)
    requires
        all_digits(t),
    ensures
        t.len() <= 1 ==> num_value(t) <= 9,
        t.len() <= 2 ==> num_value(t) <= 99,
        t.len() <= 3 ==> num_value(t) <= 999,
    decreases t.len(),
{
    if t.len() > 0 {
        assert(all_digits(t.drop_last()));
        lemma_num_value_small(t.drop_last());
    }
}

/// A prefix of a digit run denotes no more than the whole run.
pub proof fn lemma_num_value_prefix(t: Seq<char>, i: int)
    requires
        all_digits(t),
        0 <= i <= t.len(),
    ensures
        num_value(t.take(i)) <= num_value(t),
        num_value(t.take(i)) >= 0,
    decreases t.len() - i,
{
    assert(all_digits(t.take(i)));
    lemma_num_value_nonneg(t.take(i));
    if i < t.len() {
        assert(t.take(i + 1).drop_last() =~= t.take(i));
        assert(num_value(t.take(i + 1)) == num_value(t.take(i)) * 10 + digit_val(t[i]));
        lemma_num_value_prefix(t, i + 1);
    } else {
        assert(t.take(i) =~= t);
    }
}

pub proof fn lemma_pow32_pos(k: nat)
    ensures
        pow32(k) >= 1,
    decreases k,
{
    if k > 0 {
        lemma_pow32_pos((k - 1) as nat);
    }
}

pub proof fn lemma_pow32_increases(j: nat, k: nat)
    requires
        j <= k,
    ensures
        pow32(j) <= pow32(k),
    decreases k,
{
    lemma_pow32_pos(j);
    if j < k {
        lemma_pow32_increases(j, (k - 1) as nat);
        lemma_pow32_pos((k - 1) as nat);
    }
}

/// Powers of 32 multiply by adding exponents.
pub proof fn lemma_pow32_mul(a: nat, b: nat)
    ensures
        pow32(a) * pow32(b) == pow32((a + b) as nat),
    decreases a,
{
    if a == 0 {
        assert(pow32(0) == 1);
        assert(1 * pow32(b) == pow32(b)) by (nonlinear_arith);
    } else {
        lemma_pow32_mul((a - 1) as nat, b);
        let x = pow32((a - 1) as nat);
        let y = pow32(b);
        assert(pow32(a) == 32 * x);
        assert(pow32((a + b) as nat) == 32 * pow32((a - 1 + b) as nat));
        assert((32 * x) * y == 32 * (x * y)) by (nonlinear_arith);
    }
}

/// Packed letters stay within the field: at least 1, and below
/// 27 times the weight of the leading letter.
pub proof fn lemma_pack_bounds(t: Seq<char>)
    requires
        all_low_alpha(t),
        t.len() >= 1,
    ensures
        1 <= pack_letters(t),
        pack_letters(t) < 27 * pow32((t.len() - 1) as nat),
    decreases t.len(),
{
    assert(all_low_alpha(t.drop_last()));
    if t.len() == 1 {
        assert(pack_letters(t) == letter_val(t.last()));
    } else {
        lemma_pack_bounds(t.drop_last());
        let p = pack_letters(t.drop_last());
        let w = pow32((t.len() - 2) as nat);
        assert(p < 27 * w);
        assert(p * 32 <= (27 * w - 1) * 32) by (nonlinear_arith)
            requires
                p < 27 * w,
        ;
        assert(pow32((t.len() - 1) as nat) == 32 * w);
        lemma_pow32_pos((t.len() - 2) as nat);
    }
}

/// The character written for a printable code point carries it.
pub proof fn lemma_char_of_value(x: int)
    requires
        32 <= x <= 126,
    ensures
        char_of(x) as u32 == x,
{
}

/// A character is pinned down by its code point.
pub proof fn lemma_char_of_codepoint(x: int, c: char)
    requires
        32 <= x <= 126,
        c as u32 == x,
    ensures
        char_of(x) == c,
{
}

/// Unpacking undoes packing for an all-letter token.
pub proof fn lemma_unpack_pack(t: Seq<char>)
    requires
        all_low_alpha(t),
    ensures
        unpack_letters(pack_letters(t)) == t,
    decreases t.len(),
{
    if t.len() == 0 {
    } else {
        assert(all_low_alpha(t.drop_last()));
        lemma_unpack_pack(t.drop_last());
        let p = pack_letters(t.drop_last());
        let v = letter_val(t.last());
        if t.len() > 1 {
            lemma_pack_bounds(t.drop_last());
        }
        assert(p >= 0);
        assert(1 <= v <= 26);
        let e = pack_letters(t);
        assert(e == p * 32 + v);
        assert(e / 32 == p && e % 32 == v) by (nonlinear_arith)
            requires
                e == p * 32 + v,
                p >= 0,
                1 <= v <= 26,
        ;
        assert(e > 0) by (nonlinear_arith)
            requires
                e == p * 32 + v,
                p >= 0,
                v >= 1,
        ;
        assert(is_low_alpha(t.last()));
        lemma_char_of_codepoint(96 + v, t.last());
        assert(unpack_letters(e) == unpack_letters(p) + seq![t.last()]);
        assert(t.drop_last() + seq![t.last()] =~= t);
    }
}

/// Left-padding with zero groups does not change what unpacks.
pub proof fn lemma_unpack_pad(p: int, k: nat)
    requires
        p >= 0,
    ensures
        unpack_letters(p * pow32(k)) == unpack_letters(p),
    decreases k,
{
    if k == 0 {
        assert(p * pow32(0) == p) by (nonlinear_arith)
            requires
                pow32(0) == 1,
        ;
    } else {
        let w = pow32((k - 1) as nat);
        lemma_pow32_pos((k - 1) as nat);
        let q = p * w;
        assert(q >= 0) by (nonlinear_arith)
            requires
                q == p * w,
                p >= 0,
                w >= 1,
        ;
        assert(p * pow32(k) == q * 32) by (nonlinear_arith)
            requires
                pow32(k) == 32 * w,
                q == p * w,
        ;
        if q == 0 {
            assert(q * 32 == 0) by (nonlinear_arith)
                requires
                    q == 0,
            ;
        } else {
            assert((q * 32) / 32 == q && (q * 32) % 32 == 0) by (nonlinear_arith)
                requires
                    q >= 1,
            ;
            assert(q * 32 > 0) by (nonlinear_arith)
                requires
                    q >= 1,
            ;
            assert(unpack_letters(q * 32) == unpack_letters(q) + Seq::<char>::empty());
            assert(unpack_letters(q) + Seq::<char>::empty() =~= unpack_letters(q));
        }
        lemma_unpack_pad(p, (k - 1) as nat);
    }
}

/// Decoding undoes encoding: an alphabetic token comes back as
/// itself, and a numeric token comes back as its three-digit form.
pub proof fn lemma_subtag_roundtrip(t: Seq<char>, width: nat)
    requires
        encodable(t, width),
        width <= 4,
        numeric_token(t) ==> num_value(t) <= 999,
    ensures
        0 < encode_subtag_spec(t, width) ==> decode_subtag_spec(
            encode_subtag_spec(t, width) as u64,
        ) == Some(if numeric_token(t) {
            digits3(num_value(t))
        } else {
            t
        }),
{
    if numeric_token(t) {
        lemma_num_value_nonneg(t);
    } else {
        let k = (width - t.len()) as nat;
        lemma_pack_bounds(t);
        lemma_pow32_pos(k);
        lemma_pow32_increases(k, 3);
        lemma_pow32_increases((t.len() - 1) as nat, 3);
        reveal_with_fuel(pow32, 4);
        assert(pow32(3) == 32768);
        let p = pack_letters(t);
        let e = p * pow32(k);
        assert(1 <= e && e <= 27 * 32768 * 32768) by (nonlinear_arith)
            requires
                1 <= p < 27 * pow32((t.len() - 1) as nat),
                pow32((t.len() - 1) as nat) <= 32768,
                1 <= pow32(k) <= 32768,
                e == p * pow32(k),
        ;
        lemma_unpack_pad(p, k);
        lemma_unpack_pack(t);
        assert(encode_subtag_spec(t, width) == e + 1000);
        assert(decode_subtag_spec((e + 1000) as u64) == Some(unpack_letters(e)));
    }
}

/// Decode one encoded field value back into its characters: `None`
/// for an absent subtag, three zero-padded digits for a numeric one,
/// and the unpacked letters otherwise.
pub fn decode_subtag_chars(val: u64) -> (r: Option<Vec<char>>)
    ensures
        r is None <==> decode_subtag_spec(val) is None,
        r matches Some(v) ==> decode_subtag_spec(val) == Some(v@),
{
    if val == 0 {
        None
    } else if val < 1000 {
        let c0 = ((48 + val / 100) as u8) as char;
        let c1 = ((48 + (val / 10) % 10) as u8) as char;
        let c2 = ((48 + val % 10) as u8) as char;
        let mut out: Vec<char> = Vec::new();
        out.push(c0);
        out.push(c1);
        out.push(c2);
        proof {
            assert(out@ =~= digits3(val as int));
        }
        Some(out)
    } else {
        let ghost e = (val - 1000) as int;
        let mut remain: u64 = val - 1000;
        let mut rev_chars: Vec<char> = Vec::new();
        while remain > 0
            invariant
                remain >= 0,
                unpack_letters(e) == unpack_letters(remain as int) + rev_chars@.reverse(),
            decreases remain,
        {
            let g = remain % 32;
            let ghost prev = rev_chars@;
            let ghost r_old = remain as int;
            if g > 0 {
                rev_chars.push(((96 + g) as u8) as char);
            }
            remain = remain / 32;
            proof {
                assert(unpack_letters(r_old) == unpack_letters(r_old / 32) + (if r_old % 32 == 0 {
                    Seq::<char>::empty()
                } else {
                    seq![char_of(96 + r_old % 32)]
                }));
                if g > 0 {
                    assert(rev_chars@ == prev.push(char_of(96 + r_old % 32)));
                    assert(rev_chars@.reverse() =~= seq![char_of(96 + r_old % 32)]
                        + prev.reverse());
                } else {
                    assert(unpack_letters(r_old) + prev.reverse() == unpack_letters(r_old / 32)
                        + prev.reverse());
                }
            }
        }
        proof {
            assert(unpack_letters(0) + rev_chars@.reverse() =~= rev_chars@.reverse());
        }
        let mut out: Vec<char> = Vec::new();
        let mut j: usize = rev_chars.len();
        while j > 0
            invariant
                0 <= j <= rev_chars.len(),
                out@ =~= rev_chars@.subrange(j as int, rev_chars@.len() as int).reverse(),
            decreases j,
        {
            j -= 1;
            out.push(rev_chars[j]);
            proof {
                assert(out@ =~= rev_chars@.subrange(j as int, rev_chars@.len() as int).reverse());
            }
        }
        proof {
            assert(rev_chars@.subrange(0, rev_chars@.len() as int) =~= rev_chars@);
            assert(out@ =~= unpack_letters(e));
        }
        Some(out)
    }
}

/// A positive packed value unpacks to at least one letter.
pub proof fn lemma_unpack_nonempty(r: int)
    requires
        r >= 1,
    ensures
        unpack_letters(r).len() >= 1,
    decreases r,
{
    if r % 32 == 0 {
        assert(r / 32 >= 1);
        lemma_unpack_nonempty(r / 32);
    }
}

/// True exactly when every character of `s` is a decimal digit.
pub fn is_all_digits(s: &str) -> (b: bool)
    ensures
        b == all_digits(s@),
{
    let n = s.unicode_len();
    let mut i: usize = 0;
    while i < n
        invariant
            0 <= i <= n,
            n == s@.len(),
            forall|j: int| 0 <= j < i ==> is_digit_char(s@[j]),
        decreases n - i,
    {
        let cv = s.get_char(i) as u32;
        if !(48 <= cv && cv <= 57) {
            return false;
        }
        i += 1;
    }
    true
}

/// Encode one subtag.  A run of digits is stored as its value; letters
/// are packed five bits each and padded to `length` letters, then
/// biased by 1000 so the two ranges stay apart.
pub fn encode_subtag(subtag: &str, length: usize) -> (r: u64)
    requires
        encodable(subtag@, length as nat),
        length <= 4,
    ensures
        r == encode_subtag_spec(subtag@, length as nat),
{
    let ghost t = subtag@;
    let n = subtag.unicode_len();
    let all_dig = is_all_digits(subtag);
    if all_dig && n >= 1 {
        proof {
            assert(t.len() >= 1 && is_low_alpha(t[0]) ==> !is_digit_char(t[0]));
            assert(numeric_token(t));
        }
        let mut val: u64 = 0;
        let mut i: usize = 0;
        while i < n
            invariant
                0 <= i <= n,
                n == t.len(),
                t == subtag@,
                all_digits(t),
                num_value(t) <= u64::MAX,
                val == num_value(t.take(i as int)),
            decreases n - i,
        {
            let c = subtag.get_char(i);
            let d = (c as u32 - 48) as u64;
            proof {
                assert(t.take(i as int + 1).drop_last() =~= t.take(i as int));
                assert(num_value(t.take(i as int + 1)) == num_value(t.take(i as int)) * 10
                    + digit_val(t[i as int]));
                lemma_num_value_prefix(t, i as int + 1);
            }
            val = val * 10 + d;
            i += 1;
        }
        proof {
            assert(t.take(n as int) =~= t);
        }
        val
    } else {
        proof {
            assert(t.len() >= 1);
            assert(!all_digits(t));
            assert(alpha_token(t, length as nat));
        }
        let mut val: u64 = 0;
        let mut i: usize = 0;
        while i < n
            invariant
                0 <= i <= n,
                n == t.len(),
                t == subtag@,
                alpha_token(t, length as nat),
                length <= 4,
                val == pack_letters(t.take(i as int)),
                val < 27 * 32768,
            decreases n - i,
        {
            let c = subtag.get_char(i);
            let v = (c as u32 - 96) as u64;
            proof {
                assert(is_low_alpha(t[i as int]));
                assert(t.take(i as int + 1).drop_last() =~= t.take(i as int));
                assert(all_low_alpha(t.take(i as int + 1)));
                lemma_pack_bounds(t.take(i as int + 1));
                lemma_pow32_increases(i as nat, 3);
                reveal_with_fuel(pow32, 4);
                assert(pow32(3) == 32768);
            }
            val = val * 32 + v;
            i += 1;
        }
        proof {
            assert(t.take(n as int) =~= t);
        }
        let mut j: usize = n;
        while j < length
            invariant
                n <= j <= length,
                n == t.len(),
                alpha_token(t, length as nat),
                length <= 4,
                val == pack_letters(t) * pow32((j - n) as nat),
                val < 27 * 32768 * 32768,
            decreases length - j,
        {
            proof {
                let pk = pack_letters(t);
                let w = pow32((j - n) as nat);
                lemma_pack_bounds(t);
                lemma_pow32_pos((j - n) as nat);
                lemma_pow32_increases((j + 1 - n) as nat, 3);
                lemma_pow32_pos((j + 1 - n) as nat);
                reveal_with_fuel(pow32, 4);
                assert(pow32(3) == 32768);
                assert(pow32((j + 1 - n) as nat) == 32 * w);
                assert(pk * w * 32 == pk * (32 * w) && pk * (32 * w) <= pk * 32768 && pk * 32768
                    < 27 * 32768 * 32768) by (nonlinear_arith)
                    requires
                        1 <= w,
                        32 * w <= 32768,
                        1 <= pk < 27 * 32768,
                ;
            }
            val = val * 32;
            j += 1;
        }
        val + 1000
    }
}

} // verus!
