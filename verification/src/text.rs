//! Decimal and hexadecimal text built character by character.

use vstd::prelude::*;
use vstd::string::StringSliceAdditionalSpecFns;

verus! {

/// The ASCII character of a decimal digit.
pub open spec fn digit_char(d: nat) -> char {
    (48 + d) as char
}

/// The decimal digits of `n`, most significant first, with no leading zeros.
pub open spec fn decimal(n: nat) -> Seq<char>
    decreases n,
{
    if n < 10 {
        seq![digit_char(n)]
    } else {
        decimal(n / 10).push(digit_char(n % 10))
    }
}

/// The decimal digits of `n`, left-padded with `'0'` to at least `width` characters.
pub open spec fn zero_padded(n: nat, width: nat) -> Seq<char> {
    let digits = decimal(n);
    if digits.len() < width {
        Seq::new((width - digits.len()) as nat, |i: int| '0') + digits
    } else {
        digits
    }
}

/// The lowercase hexadecimal character of a nibble.
pub open spec fn hex_digit_lower(v: nat) -> char {
    if v < 10 {
        (48 + v) as char
    } else {
        (87 + v) as char
    }
}

/// Two lowercase hexadecimal characters per byte, high nibble first.
pub open spec fn hex_lower(bytes: Seq<u8>) -> Seq<char>
    decreases bytes.len(),
{
    if bytes.len() == 0 {
        Seq::empty()
    } else {
        hex_lower(bytes.drop_last()) + seq![
            hex_digit_lower((bytes.last() / 16) as nat),
            hex_digit_lower((bytes.last() % 16) as nat),
        ]
    }
}

/// Appends one character to a string (`String::push`).
#[verifier::external_body]
pub(crate) fn push_char(s: &mut String, c: char)
    ensures
        final(s)@ == old(s)@.push(c),
{
    s.push(c)
}

/// Appends a string slice to a string.
pub(crate) fn push_str(s: &mut String, t: &str)
    ensures
        final(s)@ == old(s)@ + t@,
{
    s.append(t);
}

pub proof fn lemma_decimal_len_pos(n: nat)
    ensures
        decimal(n).len() >= 1,
    decreases n,
{
    if n >= 10 {
        lemma_decimal_len_pos(n / 10);
    }
}

/// Number of decimal digits of `n`.
pub fn decimal_len(n: u64) -> (len: usize)
    ensures
        len == decimal(n as nat).len(),
        1 <= len <= 20,
    decreases n,
{
    if n < 10 {
        1
    } else {
        let l = decimal_len(n / 10);
        proof {
            lemma_decimal_len_bound((n / 10) as nat);
        }
        l + 1
    }
}

proof fn lemma_decimal_len_bound(n: nat)
    requires
        n < 0x1999_9999_9999_999a,
    ensures
        decimal(n).len() <= 19,
{
    assert(pow10(19) == 10000000000000000000nat) by {
        reveal_with_fuel(pow10, 20);
    }
    lemma_decimal_len_le(n, 19);
}

/// `n < 10^k` implies at most `k` digits.
proof fn lemma_decimal_len_le(n: nat, k: nat)
    requires
        k >= 1,
        n < pow10(k),
    ensures
        decimal(n).len() <= k,
    decreases k,
{
    if n >= 10 {
        assert(k >= 2) by {
            if k == 1 {
                assert(pow10(1) == 10) by {
                    assert(pow10(0) == 1);
                }
            }
        }
        assert(n / 10 < pow10((k - 1) as nat));
        lemma_decimal_len_le(n / 10, (k - 1) as nat);
    }
}

pub open spec fn pow10(k: nat) -> nat
    decreases k,
{
    if k == 0 {
        1
    } else {
        10 * pow10((k - 1) as nat)
    }
}

/// Appends the decimal digits of `n`.
pub fn push_decimal(out: &mut String, n: u64)
    ensures
        final(out)@ == old(out)@ + decimal(n as nat),
    decreases n,
{
    if n >= 10 {
        push_decimal(out, n / 10);
    }
    let c = char_of_digit((n % 10) as u8);
    push_char(out, c);
    proof {
        if n >= 10 {
            assert(decimal(n as nat) == decimal((n / 10) as nat).push(digit_char((n % 10) as nat)));
        }
    }
}

/// Appends the decimal digits of `n`, left-padded with zeros to `width` characters.
pub fn push_zero_padded(out: &mut String, n: u64, width: usize)
    ensures
        final(out)@ == old(out)@ + zero_padded(n as nat, width as nat),
{
    let len = decimal_len(n);
    let ghost start = out@;
    if len < width {
        let pad = width - len;
        let mut i: usize = 0;
        while i < pad
            invariant
                i <= pad,
                out@ == start + Seq::new(i as nat, |j: int| '0'),
            decreases pad - i,
        {
            push_char(out, '0');
            i = i + 1;
            assert(out@ == start + Seq::new(i as nat, |j: int| '0'));
        }
    }
    let ghost mid = out@;
    push_decimal(out, n);
    assert(out@ == mid + decimal(n as nat));
    if len < width {
        assert(out@ == start + zero_padded(n as nat, width as nat));
    } else {
        assert(out@ == start + zero_padded(n as nat, width as nat));
    }
}

/// The character of a decimal digit.
pub fn char_of_digit(d: u8) -> (c: char)
    requires
        d < 10,
    ensures
        c == digit_char(d as nat),
{
    match d {
        0 => '0',
        1 => '1',
        2 => '2',
        3 => '3',
        4 => '4',
        5 => '5',
        6 => '6',
        7 => '7',
        8 => '8',
        _ => '9',
    }
}

} // verus!

verus! {

/// What `str::to_lowercase` returns for a string: its Unicode lowercase
/// mapping (a character may map to several, and a final capital sigma maps
/// differently from one inside a word).
pub uninterp spec fn lowercase(s: Seq<char>) -> Seq<char>;

/// ASCII lowercase: `A`..=`Z` become `a`..=`z`, every other character stays.
pub open spec fn ascii_lowercase(s: Seq<char>) -> Seq<char> {
    s.map_values(|c: char| if 'A' <= c <= 'Z' { ((c as u32) + 32) as char } else { c })
}

/// `str::to_lowercase`: the result is named `lowercase` of the input's
/// characters; on ASCII input it is the ASCII lowercase of the input.
/// Nothing more is stated of the Unicode mapping.
#[verifier::external_body]
pub(crate) fn to_lowercase(s: &str) -> (r: String)
    ensures
        r@ == lowercase(s@),
        vstd::utf8::is_ascii_chars(s@) ==> r@ == ascii_lowercase(s@),
{
    s.to_lowercase()
}

#[verifier::external_type_specification]
#[verifier::external_body]
pub struct ExUtf8Error(core::str::Utf8Error);

/// `core::str::from_utf8`: succeeds exactly on valid UTF-8, and the string
/// it returns has the given bytes.
#[verifier::external_body]
pub(crate) fn str_from_utf8(v: &[u8]) -> (r: Result<&str, core::str::Utf8Error>)
    ensures
        r is Ok <==> vstd::utf8::valid_utf8(v@),
        r matches Ok(s) ==> s.spec_bytes() == v@,
{
    core::str::from_utf8(v)
}

} // verus!

verus! {

/// Whether two strings hold the same characters.
pub fn str_eq(a: &str, b: &str) -> (eq: bool)
    ensures
        eq == (a@ == b@),
{
    let ab = a.as_bytes();
    let bb = b.as_bytes();
    proof {
        vstd::utf8::encode_utf8_decode_utf8(a@);
        vstd::utf8::encode_utf8_decode_utf8(b@);
    }
    if ab.len() != bb.len() {
        assert(a.spec_bytes() != b.spec_bytes());
        return false;
    }
    let mut i: usize = 0;
    while i < ab.len()
        invariant
            ab@ == a.spec_bytes(),
            bb@ == b.spec_bytes(),
            ab@.len() == bb@.len(),
            i <= ab@.len(),
            forall|j: int| 0 <= j < i ==> ab@[j] == bb@[j],
        decreases ab@.len() - i,
    {
        if ab[i] != bb[i] {
            assert(a.spec_bytes() != b.spec_bytes());
            return false;
        }
        i = i + 1;
    }
    assert(a.spec_bytes() =~= b.spec_bytes());
    true
}

/// The value of a hexadecimal digit (either case).
pub open spec fn hex_digit_value(c: char) -> Option<nat> {
    if '0' <= c <= '9' {
        Some((c as nat - 48) as nat)
    } else if 'a' <= c <= 'f' {
        Some((c as nat - 87) as nat)
    } else if 'A' <= c <= 'F' {
        Some((c as nat - 55) as nat)
    } else {
        None
    }
}

/// A nonempty run of hexadecimal digits.
pub open spec fn is_hex_digits(s: Seq<char>) -> bool {
    s.len() > 0 && forall|i: int| 0 <= i < s.len() ==> hex_digit_value(#[trigger] s[i]) is Some
}

/// The number that a run of hexadecimal digits spells, most significant first.
pub open spec fn hex_value(s: Seq<char>) -> nat
    decreases s.len(),
{
    if s.len() == 0 {
        0
    } else {
        hex_value(s.drop_last()) * 16 + hex_digit_value(s.last()).unwrap_or(0)
    }
}

/// The `i64` that `i64::from_str_radix(s, 16)` yields: an optional `+` or
/// `-` sign followed by hexadecimal digits, within the range of `i64`.
pub open spec fn radix16_i64(s: Seq<char>) -> Option<int> {
    if s.len() == 0 {
        None
    } else if s[0] == '-' {
        let digits = s.skip(1);
        if is_hex_digits(digits) && hex_value(digits) <= 0x8000_0000_0000_0000 {
            Some(-hex_value(digits))
        } else {
            None
        }
    } else {
        let digits = if s[0] == '+' { s.skip(1) } else { s };
        if is_hex_digits(digits) && hex_value(digits) <= 0x7fff_ffff_ffff_ffff {
            Some(hex_value(digits) as int)
        } else {
            None
        }
    }
}

/// The `u64` that `u64::from_str_radix(s, 16)` yields: an optional `+`
/// sign followed by hexadecimal digits, within the range of `u64`.
pub open spec fn radix16_u64(s: Seq<char>) -> Option<nat> {
    if s.len() == 0 {
        None
    } else {
        let digits = if s[0] == '+' { s.skip(1) } else { s };
        if is_hex_digits(digits) && hex_value(digits) <= 0xffff_ffff_ffff_ffff {
            Some(hex_value(digits))
        } else {
            None
        }
    }
}

#[verifier::external_type_specification]
#[verifier::external_body]
pub struct ExParseIntError(core::num::ParseIntError);

/// `i64::from_str_radix(s, 16)`: succeeds exactly on an optionally signed
/// run of hexadecimal digits whose value fits in `i64`, and returns that value.
#[verifier::external_body]
pub(crate) fn parse_hex_i64(s: &str) -> (r: Result<i64, core::num::ParseIntError>)
    ensures
        r is Ok <==> radix16_i64(s@) is Some,
        r matches Ok(v) ==> radix16_i64(s@) == Some(v as int),
{
    i64::from_str_radix(s, 16)
}

/// `u64::from_str_radix(s, 16)`: succeeds exactly on an optionally
/// `+`-signed run of hexadecimal digits whose value fits in `u64`, and
/// returns that value.
#[verifier::external_body]
pub(crate) fn parse_hex_u64(s: &str) -> (r: Result<u64, core::num::ParseIntError>)
    ensures
        r is Ok <==> radix16_u64(s@) is Some,
        r matches Ok(v) ==> radix16_u64(s@) == Some(v as nat),
{
    u64::from_str_radix(s, 16)
}

} // verus!

verus! {

/// The part of `s` between two byte offsets that fall on character
/// boundaries (`&s[start..end]`).
pub fn str_range(s: &str, start: usize, end: usize) -> (r: &str)
    requires
        start <= end <= s.spec_bytes().len(),
        vstd::utf8::is_char_boundary(s.spec_bytes(), start as int),
        vstd::utf8::is_char_boundary(s.spec_bytes(), end as int),
    ensures
        r.spec_bytes() == s.spec_bytes().subrange(start as int, end as int),
        r@ == vstd::utf8::decode_utf8(s.spec_bytes().subrange(start as int, end as int)),
{
    let (head, _) = s.split_at(end);
    proof {
        let b = s.spec_bytes();
        let hb = head.spec_bytes();
        vstd::utf8::encode_utf8_valid_utf8(s@);
        vstd::utf8::encode_utf8_valid_utf8(head@);
        if start < end {
            vstd::utf8::is_char_boundary_iff_not_is_continuation_byte(b, start as int);
            vstd::utf8::is_char_boundary_iff_not_is_continuation_byte(hb, start as int);
        } else {
            vstd::utf8::is_char_boundary_start_end_of_seq(hb);
        }
    }
    let (_, r) = head.split_at(start);
    proof {
        vstd::utf8::encode_utf8_decode_utf8(r@);
        assert(r.spec_bytes() =~= s.spec_bytes().subrange(start as int, end as int));
    }
    r
}

} // verus!

verus! {

/// The number that a run of decimal digits spells, most significant first.
pub open spec fn digits_value(s: Seq<char>) -> int
    decreases s.len(),
{
    if s.len() == 0 {
        0
    } else {
        digits_value(s.drop_last()) * 10 + ((s.last() as int) - 48)
    }
}

proof fn lemma_digits_value_concat(a: Seq<char>, b: Seq<char>)
    ensures
        digits_value(a + b) == digits_value(a) * pow10(b.len()) + digits_value(b),
    decreases b.len(),
{
    if b.len() == 0 {
        assert(a + b =~= a);
        assert(digits_value(b) == 0);
        assert(pow10(0) == 1);
        assert(digits_value(a) * 1 == digits_value(a));
    } else {
        let bd = b.drop_last();
        let l = (b.last() as int) - 48;
        assert((a + b).drop_last() =~= a + bd);
        assert((a + b).last() == b.last());
        lemma_digits_value_concat(a, bd);
        let x = digits_value(a);
        let p = pow10(bd.len());
        let y = digits_value(bd);
        assert(digits_value(a + b) == digits_value(a + bd) * 10 + l);
        assert(digits_value(b) == y * 10 + l);
        assert(pow10(b.len()) == 10 * p);
        assert((x * p + y) * 10 == x * (10 * p) + y * 10) by (nonlinear_arith);
    }
}

proof fn lemma_decimal_value(n: nat)
    ensures
        digits_value(decimal(n)) == n,
    decreases n,
{
    let d = decimal(n);
    if n >= 10 {
        lemma_decimal_value(n / 10);
        assert(d.drop_last() =~= decimal(n / 10));
        assert(d.last() == digit_char(n % 10));
        assert((digit_char(n % 10) as int) - 48 == n % 10);
        assert(digits_value(d) == digits_value(d.drop_last()) * 10 + ((d.last() as int) - 48));
    } else {
        assert(d.drop_last() =~= Seq::<char>::empty());
        assert((digit_char(n) as int) - 48 == n);
        assert(digits_value(d) == digits_value(d.drop_last()) * 10 + ((d.last() as int) - 48));
    }
}

proof fn lemma_zeros_value(k: nat)
    ensures
        digits_value(Seq::new(k, |i: int| '0')) == 0,
    decreases k,
{
    if k > 0 {
        assert(Seq::new(k, |i: int| '0').drop_last() =~= Seq::new((k - 1) as nat, |i: int| '0'));
        lemma_zeros_value((k - 1) as nat);
    }
}

/// Zero padding keeps the value of the digits.
pub proof fn lemma_zero_padded_value(n: nat, width: nat)
    ensures
        digits_value(zero_padded(n, width)) == n,
{
    lemma_decimal_value(n);
    let digits = decimal(n);
    if digits.len() < width {
        let zeros = Seq::new((width - digits.len()) as nat, |i: int| '0');
        lemma_digits_value_concat(zeros, digits);
        lemma_zeros_value((width - digits.len()) as nat);
    }
}

/// Distinct numbers have distinct zero-padded texts.
pub proof fn lemma_zero_padded_injective(a: nat, b: nat, width: nat)
    requires
        zero_padded(a, width) == zero_padded(b, width),
    ensures
        a == b,
{
    lemma_zero_padded_value(a, width);
    lemma_zero_padded_value(b, width);
}

/// A number below 100 takes exactly two characters when padded to two.
pub proof fn lemma_zero_padded_two(n: nat)
    requires
        n < 100,
    ensures
        zero_padded(n, 2).len() == 2,
{
    assert(pow10(2) == 100) by {
        reveal_with_fuel(pow10, 3);
    }
    lemma_decimal_len_le(n, 2);
    lemma_decimal_len_pos(n);
}

} // verus!

verus! {

/// Lexicographic order of character sequences by code point (the order of
/// `str`'s `<=` on these texts).
pub open spec fn lex_le(a: Seq<char>, b: Seq<char>) -> bool
    decreases a.len(),
{
    if a.len() == 0 {
        true
    } else if b.len() == 0 {
        false
    } else if (a[0] as u32) < (b[0] as u32) {
        true
    } else if a[0] == b[0] {
        lex_le(a.drop_first(), b.drop_first())
    } else {
        false
    }
}

/// Every character is a decimal digit.
pub open spec fn all_digits(s: Seq<char>) -> bool {
    forall|i: int| 0 <= i < s.len() ==> '0' <= #[trigger] s[i] <= '9'
}

proof fn lemma_char_u32_injective(x: char, y: char)
    requires
        x as u32 == y as u32,
    ensures
        x == y,
{
}

pub proof fn lemma_lex_le_refl(a: Seq<char>)
    ensures
        lex_le(a, a),
    decreases a.len(),
{
    if a.len() > 0 {
        lemma_lex_le_refl(a.drop_first());
    }
}

pub proof fn lemma_lex_le_total(a: Seq<char>, b: Seq<char>)
    ensures
        lex_le(a, b) || lex_le(b, a),
    decreases a.len(),
{
    if a.len() > 0 && b.len() > 0 {
        if a[0] == b[0] {
            lemma_lex_le_total(a.drop_first(), b.drop_first());
        } else {
            if a[0] as u32 == b[0] as u32 {
                lemma_char_u32_injective(a[0], b[0]);
            }
        }
    }
}

/// Comparing two texts split at the same place: equal heads leave the
/// comparison to the tails, and a head that is smaller settles it.
pub proof fn lemma_lex_le_concat(a1: Seq<char>, a2: Seq<char>, b1: Seq<char>, b2: Seq<char>)
    requires
        a1.len() == b1.len(),
    ensures
        a1 == b1 ==> (lex_le(a1 + a2, b1 + b2) == lex_le(a2, b2)),
        lex_le(a1, b1) && a1 != b1 ==> lex_le(a1 + a2, b1 + b2),
    decreases a1.len(),
{
    if a1.len() > 0 {
        assert((a1 + a2)[0] == a1[0]);
        assert((b1 + b2)[0] == b1[0]);
        assert((a1 + a2).drop_first() =~= a1.drop_first() + a2);
        assert((b1 + b2).drop_first() =~= b1.drop_first() + b2);
        lemma_lex_le_concat(a1.drop_first(), a2, b1.drop_first(), b2);
        if a1[0] == b1[0] && a1.drop_first() == b1.drop_first() {
            assert forall|i: int| 0 <= i < a1.len() implies a1[i] == b1[i] by {
                if i > 0 {
                    assert(a1[i] == a1.drop_first()[i - 1]);
                    assert(b1[i] == b1.drop_first()[i - 1]);
                }
            }
            assert(a1 =~= b1);
        }
    } else {
        assert(a1 + a2 =~= a2);
        assert(b1 + b2 =~= b2);
        assert(a1 =~= b1);
    }
}

proof fn lemma_digits_value_bound(s: Seq<char>)
    requires
        all_digits(s),
    ensures
        0 <= digits_value(s) < pow10(s.len()),
    decreases s.len(),
{
    if s.len() > 0 {
        let r = s.drop_last();
        assert(all_digits(r)) by {
            assert forall|i: int| 0 <= i < r.len() implies '0' <= #[trigger] r[i] <= '9' by {
                assert(r[i] == s[i]);
            }
        }
        lemma_digits_value_bound(r);
        let v = digits_value(r);
        let p = pow10(r.len());
        let l = (s.last() as int) - 48;
        assert(s[s.len() - 1] == s.last());
        assert(0 <= l <= 9);
        assert(pow10(s.len()) == 10 * p);
        assert(v * 10 + l < 10 * p) by (nonlinear_arith)
            requires
                0 <= v < p,
                0 <= l <= 9,
        ;
        assert(v * 10 + l >= 0) by (nonlinear_arith)
            requires
                0 <= v,
                0 <= l,
        ;
    }
}

/// Among digit texts of one length, lexicographic order follows value.
proof fn lemma_lex_digits_value(t: Seq<char>, s: Seq<char>)
    requires
        t.len() == s.len(),
        all_digits(t),
        all_digits(s),
        lex_le(t, s),
    ensures
        digits_value(t) <= digits_value(s),
    decreases t.len(),
{
    if t.len() > 0 {
        let tr = t.drop_first();
        let sr = s.drop_first();
        assert(t =~= seq![t[0]] + tr);
        assert(s =~= seq![s[0]] + sr);
        lemma_digits_value_concat(seq![t[0]], tr);
        lemma_digits_value_concat(seq![s[0]], sr);
        assert(seq![t[0]].drop_last() =~= Seq::<char>::empty());
        assert(seq![s[0]].drop_last() =~= Seq::<char>::empty());
        assert(seq![t[0]].last() == t[0]);
        assert(seq![s[0]].last() == s[0]);
        assert(digits_value(Seq::<char>::empty()) == 0);
        assert(digits_value(seq![t[0]]) == digits_value(seq![t[0]].drop_last()) * 10 + ((t[0] as int) - 48));
        assert(digits_value(seq![s[0]]) == digits_value(seq![s[0]].drop_last()) * 10 + ((s[0] as int) - 48));
        assert(all_digits(tr)) by {
            assert forall|i: int| 0 <= i < tr.len() implies '0' <= #[trigger] tr[i] <= '9' by {
                assert(tr[i] == t[i + 1]);
            }
        }
        assert(all_digits(sr)) by {
            assert forall|i: int| 0 <= i < sr.len() implies '0' <= #[trigger] sr[i] <= '9' by {
                assert(sr[i] == s[i + 1]);
            }
        }
        lemma_digits_value_bound(tr);
        lemma_digits_value_bound(sr);
        let p = pow10(tr.len());
        let t0 = (t[0] as int) - 48;
        let s0 = (s[0] as int) - 48;
        let vt = digits_value(tr);
        let vs = digits_value(sr);
        if t[0] == s[0] {
            lemma_lex_digits_value(tr, sr);
        } else {
            assert((t[0] as u32) < (s[0] as u32));
            assert(t0 * p + vt <= s0 * p + vs) by (nonlinear_arith)
                requires
                    t0 + 1 <= s0,
                    0 <= vt < p,
                    0 <= vs,
                    p > 0,
            ;
        }
    }
}

proof fn lemma_pow10_pos(k: nat)
    ensures
        pow10(k) > 0,
    decreases k,
{
    if k > 0 {
        lemma_pow10_pos((k - 1) as nat);
    }
}

/// Zero-padded numbers are digit texts.
pub proof fn lemma_zero_padded_digits(n: nat, width: nat)
    ensures
        all_digits(zero_padded(n, width)),
{
    lemma_decimal_digits(n);
    let digits = decimal(n);
    if digits.len() < width {
        let zeros = Seq::new((width - digits.len()) as nat, |i: int| '0');
        let z = zeros + digits;
        assert forall|i: int| 0 <= i < z.len() implies '0' <= #[trigger] z[i] <= '9' by {
            if i < zeros.len() {
                assert(z[i] == '0');
            } else {
                assert(z[i] == digits[i - zeros.len()]);
            }
        }
    }
}

proof fn lemma_decimal_digits(n: nat)
    ensures
        all_digits(decimal(n)),
    decreases n,
{
    if n >= 10 {
        lemma_decimal_digits(n / 10);
        let d = decimal(n);
        let r = decimal(n / 10);
        assert forall|i: int| 0 <= i < d.len() implies '0' <= #[trigger] d[i] <= '9' by {
            if i < r.len() {
                assert(d[i] == r[i]);
            }
        }
    }
}

/// Zero-padded numbers of one width compare like the numbers themselves.
pub proof fn lemma_zero_padded_order(a: nat, b: nat, width: nat)
    requires
        a <= b,
        zero_padded(a, width).len() == zero_padded(b, width).len(),
    ensures
        lex_le(zero_padded(a, width), zero_padded(b, width)),
        a < b ==> zero_padded(a, width) != zero_padded(b, width),
{
    let za = zero_padded(a, width);
    let zb = zero_padded(b, width);
    lemma_zero_padded_digits(a, width);
    lemma_zero_padded_digits(b, width);
    lemma_zero_padded_value(a, width);
    lemma_zero_padded_value(b, width);
    lemma_lex_le_total(za, zb);
    if !lex_le(za, zb) {
        lemma_lex_digits_value(zb, za);
        assert(za == zb) by {
            lemma_zero_padded_injective(a, b, width);
        }
        lemma_lex_le_refl(za);
    }
}

/// A number of four digits takes exactly four characters when padded to four.
pub proof fn lemma_zero_padded_four(n: nat)
    requires
        1000 <= n < 10000,
    ensures
        zero_padded(n, 4).len() == 4,
{
    assert(pow10(4) == 10000) by {
        reveal_with_fuel(pow10, 5);
    }
    lemma_decimal_len_le(n, 4);
    assert(decimal(n).len() >= 4) by {
        assert(decimal(n) == decimal(n / 10).push(digit_char(n % 10)));
        assert(decimal(n / 10) == decimal(n / 100).push(digit_char((n / 10) % 10)));
        assert(decimal(n / 100) == decimal(n / 1000).push(digit_char((n / 100) % 10)));
        lemma_decimal_len_pos(n / 1000);
    }
}

} // verus!
