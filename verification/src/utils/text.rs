//! Text as sequences of characters: conversion, building and number formatting.

use vstd::prelude::*;
use vstd::std_specs::iter::IteratorSpec;

verus! {

/// Appends one character to a string.
///
/// Trusted: states of `String::push` that the string afterwards is the old
/// string followed by the character.
#[verifier::external_body]
pub(crate) fn push_char(s: &mut String, c: char)
    ensures
        final(s)@ == old(s)@.push(c),
{
    s.push(c);
}

/// The texts of a list of strings.
pub open spec fn views(v: Seq<String>) -> Seq<Seq<char>> {
    Seq::new(v.len(), |i: int| v[i]@)
}

/// The characters of a string slice.
pub fn chars_of(s: &str) -> (r: Vec<char>)
    ensures
        r@ == s@,
{
    let mut out: Vec<char> = Vec::new();
    let mut it = s.chars();
    proof {
        broadcast use vstd::string::group_string_axioms;
    }
    let ghost all = s@;
    loop
        invariant
            it.obeys_prophetic_iter_laws(),
            it.decrease() is Some,
            out@ + it.remaining() == all,
        ensures
            out@ == all,
        decreases it.decrease()->0,
    {
        proof {
            broadcast use vstd::string::group_string_axioms;
        }
        let ghost before = it;
        let ghost prior = out@;
        match it.next() {
            Some(c) => {
                out.push(c);
                proof {
                    assert(out@ + it.remaining() =~= prior + before.remaining());
                }
            },
            None => {
                proof {
                    assert(out@ =~= out@ + it.remaining());
                }
                break;
            },
        }
    }
    out
}

/// The string made of the given characters.
pub fn string_of(chars: &Vec<char>) -> (r: String)
    ensures
        r@ == chars@,
{
    let mut out = String::new();
    let mut k: usize = 0;
    while k < chars.len()
        invariant
            k <= chars@.len(),
            out@ == chars@.subrange(0, k as int),
        decreases chars@.len() - k,
    {
        push_char(&mut out, chars[k]);
        proof {
            assert(out@ =~= chars@.subrange(0, k + 1));
        }
        k = k + 1;
    }
    proof {
        assert(out@ =~= chars@);
    }
    out
}

/// The character of one decimal digit.
pub open spec fn digit_char(d: nat) -> char {
    if d == 0 {
        '0'
    } else if d == 1 {
        '1'
    } else if d == 2 {
        '2'
    } else if d == 3 {
        '3'
    } else if d == 4 {
        '4'
    } else if d == 5 {
        '5'
    } else if d == 6 {
        '6'
    } else if d == 7 {
        '7'
    } else if d == 8 {
        '8'
    } else {
        '9'
    }
}

/// The decimal numeral of a number, without leading zeros.
pub open spec fn decimal(n: nat) -> Seq<char>
    decreases n,
{
    if n < 10 {
        seq![digit_char(n)]
    } else {
        decimal(n / 10).push(digit_char(n % 10))
    }
}

/// The character of one decimal digit.
pub fn digit_to_char(d: u8) -> (c: char)
    requires
        d < 10,
    ensures
        c == digit_char(d as nat),
{
    if d == 0 {
        '0'
    } else if d == 1 {
        '1'
    } else if d == 2 {
        '2'
    } else if d == 3 {
        '3'
    } else if d == 4 {
        '4'
    } else if d == 5 {
        '5'
    } else if d == 6 {
        '6'
    } else if d == 7 {
        '7'
    } else if d == 8 {
        '8'
    } else {
        '9'
    }
}

/// Appends the decimal numeral of `n` to `out`.
pub fn push_decimal(out: &mut String, n: u64)
    ensures
        final(out)@ == old(out)@ + decimal(n as nat),
{
    let mut digits: Vec<char> = Vec::new();
    let mut rest: u64 = n;
    // the digits from the last to the first
    while rest >= 10
        invariant
            decimal(n as nat) == decimal(rest as nat) + digits@.reverse(),
        decreases rest,
    {
        let d = digit_to_char((rest % 10) as u8);
        let ghost prior = digits@;
        digits.push(d);
        proof {
            assert(decimal(rest as nat) == decimal((rest / 10) as nat).push(d));
            assert(digits@.reverse() =~= seq![d] + prior.reverse());
            assert(decimal((rest / 10) as nat).push(d) + prior.reverse() =~= decimal(
                (rest / 10) as nat,
            ) + digits@.reverse());
        }
        rest = rest / 10;
    }
    let first = digit_to_char(rest as u8);
    push_char(out, first);
    let mut k: usize = digits.len();
    while k > 0
        invariant
            k <= digits@.len(),
            out@ == old(out)@ + decimal(rest as nat) + digits@.reverse().subrange(
                0,
                digits@.len() - k,
            ),
        decreases k,
    {
        k = k - 1;
        let ghost prior = out@;
        push_char(out, digits[k]);
        proof {
            let rv = digits@.reverse();
            assert(rv[digits@.len() - 1 - k] == digits@[k as int]);
            assert(rv.subrange(0, digits@.len() - k) =~= rv.subrange(0, digits@.len() - k - 1).push(
                digits@[k as int],
            ));
            assert(out@ =~= old(out)@ + decimal(rest as nat) + rv.subrange(0, digits@.len() - k));
        }
    }
    proof {
        let rv = digits@.reverse();
        assert(rv.subrange(0, digits@.len() as int) =~= rv);
        assert(old(out)@ + decimal(rest as nat) + rv =~= old(out)@ + (decimal(rest as nat) + rv));
    }
}

/// The decimal numeral of `n`.
pub fn decimal_string(n: u64) -> (r: String)
    ensures
        r@ == decimal(n as nat),
{
    let mut out = String::new();
    push_decimal(&mut out, n);
    proof {
        assert(Seq::<char>::empty() + decimal(n as nat) =~= decimal(n as nat));
    }
    out
}

/// Whether a character is white space: a control character from tab to
/// carriage return, a space, or one of the other space characters of Unicode.
pub open spec fn is_white_space(c: char) -> bool {
    let n = c as u32;
    (0x09 <= n <= 0x0D) || n == 0x20 || n == 0x85 || n == 0xA0 || n == 0x1680 || (0x2000 <= n
        <= 0x200A) || n == 0x2028 || n == 0x2029 || n == 0x202F || n == 0x205F || n == 0x3000
}

/// Whether a character is white space.
pub fn white_space(c: char) -> (r: bool)
    ensures
        r == is_white_space(c),
{
    let n = c as u32;
    (0x09 <= n && n <= 0x0D) || n == 0x20 || n == 0x85 || n == 0xA0 || n == 0x1680 || (0x2000 <= n
        && n <= 0x200A) || n == 0x2028 || n == 0x2029 || n == 0x202F || n == 0x205F || n == 0x3000
}

/// The lower-case letter of an upper-case letter of the basic Latin
/// alphabet; any other character as it is.
pub open spec fn lower_char(c: char) -> char {
    if 'A' <= c <= 'Z' {
        ((c as u8) + 32) as char
    } else {
        c
    }
}

/// The lower-case letter of an upper-case letter of the basic Latin
/// alphabet; any other character as it is.
pub fn to_lower_char(c: char) -> (r: char)
    ensures
        r == lower_char(c),
{
    if 'A' <= c && c <= 'Z' {
        ((c as u8) + 32) as char
    } else {
        c
    }
}

/// The first place at or behind `i` where no white space stands; the length
/// of `s` where there is none.
pub open spec fn skip_front(s: Seq<char>, i: int) -> int
    decreases s.len() - i,
{
    if i < 0 || i >= s.len() {
        s.len() as int
    } else if !is_white_space(s[i]) {
        i
    } else {
        skip_front(s, i + 1)
    }
}

/// The place behind the last character before `j` that is no white space;
/// `lo` where there is none behind `lo`.
pub open spec fn skip_back(s: Seq<char>, j: int, lo: int) -> int
    decreases j,
{
    if j <= lo || j > s.len() || lo < 0 {
        lo
    } else if !is_white_space(s[j - 1]) {
        j
    } else {
        skip_back(s, j - 1, lo)
    }
}

/// The text without the white space at its start and at its end.
pub open spec fn trimmed(s: Seq<char>) -> Seq<char> {
    let a = skip_front(s, 0);
    s.subrange(a, skip_back(s, s.len() as int, a))
}

/// The text with its upper-case letters of the basic Latin alphabet turned
/// into lower-case letters.
pub open spec fn lowered(s: Seq<char>) -> Seq<char> {
    Seq::new(s.len(), |i: int| lower_char(s[i]))
}

/// The text without the white space at its start and at its end.
pub fn trim(s: &str) -> (r: String)
    ensures
        r@ == trimmed(s@),
{
    let chars = chars_of(s);
    let n = chars.len();
    let mut a: usize = 0;
    while a < n && white_space(chars[a])
        invariant
            a <= n,
            n == chars@.len(),
            skip_front(chars@, 0) == skip_front(chars@, a as int),
        decreases n - a,
    {
        a = a + 1;
    }
    let mut b: usize = n;
    while b > a && white_space(chars[b - 1])
        invariant
            a <= b <= n,
            n == chars@.len(),
            skip_back(chars@, n as int, a as int) == skip_back(chars@, b as int, a as int),
        decreases b,
    {
        b = b - 1;
    }
    let mut out = String::new();
    let mut k: usize = a;
    while k < b
        invariant
            a <= k <= b <= n,
            n == chars@.len(),
            out@ == chars@.subrange(a as int, k as int),
        decreases b - k,
    {
        push_char(&mut out, chars[k]);
        proof {
            assert(out@ =~= chars@.subrange(a as int, k + 1));
        }
        k = k + 1;
    }
    out
}

/// The text with its upper-case letters of the basic Latin alphabet turned
/// into lower-case letters.
pub fn to_ascii_lowercase(s: &str) -> (r: String)
    ensures
        r@ == lowered(s@),
{
    let chars = chars_of(s);
    let mut out = String::new();
    let mut k: usize = 0;
    while k < chars.len()
        invariant
            k <= chars@.len(),
            chars@ == s@,
            out@ == lowered(s@).subrange(0, k as int),
        decreases chars@.len() - k,
    {
        push_char(&mut out, to_lower_char(chars[k]));
        proof {
            assert(out@ =~= lowered(s@).subrange(0, k + 1));
        }
        k = k + 1;
    }
    proof {
        assert(lowered(s@).subrange(0, k as int) =~= lowered(s@));
    }
    out
}

/// Whether two texts are the same.
pub fn str_equal(a: &str, b: &str) -> (r: bool)
    ensures
        r == (a@ == b@),
{
    let x = chars_of(a);
    let y = chars_of(b);
    if x.len() != y.len() {
        return false;
    }
    let mut k: usize = 0;
    while k < x.len()
        invariant
            k <= x@.len(),
            x@.len() == y@.len(),
            x@ == a@,
            y@ == b@,
            forall|j: int| 0 <= j < k ==> x@[j] == y@[j],
        decreases x@.len() - k,
    {
        if x[k] != y[k] {
            return false;
        }
        k = k + 1;
    }
    proof {
        assert(x@ =~= y@);
    }
    true
}

/// The number that a character stands for as a decimal digit; `None` for any
/// other character.
pub open spec fn digit_value(c: char) -> Option<nat> {
    if '0' <= c <= '9' {
        Some(((c as u32) - ('0' as u32)) as nat)
    } else {
        None
    }
}

/// The number that a run of decimal digits spells; `None` where a character
/// is no digit.
pub open spec fn digits_value(s: Seq<char>) -> Option<nat>
    decreases s.len(),
{
    if s.len() == 0 {
        Some(0)
    } else {
        match (digits_value(s.drop_last()), digit_value(s.last())) {
            (Some(v), Some(d)) => Some(v * 10 + d),
            _ => None,
        }
    }
}

/// The number that a text spells: decimal digits, at least one, with or
/// without a plus sign before them. `None` for any other text.
pub open spec fn number_of(s: Seq<char>) -> Option<nat> {
    let digits = if s.len() > 0 && s[0] == '+' {
        s.subrange(1, s.len() as int)
    } else {
        s
    };
    if digits.len() == 0 {
        None
    } else {
        digits_value(digits)
    }
}

/// Reads a number that fits the machine's word; `None` for a text that
/// spells no number or a greater one.
pub fn parse_usize(chars: &Vec<char>) -> (r: Option<usize>)
    ensures
        match number_of(chars@) {
            Some(v) => if v <= usize::MAX {
                r == Some(v as usize)
            } else {
                r is None
            },
            None => r is None,
        },
{
    let n = chars.len();
    let start: usize = if n > 0 && chars[0] == '+' {
        1
    } else {
        0
    };
    if start == n {
        return None;
    }
    let ghost digits = chars@.subrange(start as int, n as int);
    let mut value: usize = 0;
    let mut k: usize = start;
    proof {
        assert(digits.subrange(0, 0) =~= Seq::<char>::empty());
        if start == 0 {
            assert(digits =~= chars@);
        }
        assert(number_of(chars@) == digits_value(digits));
    }
    while k < n
        invariant
            start <= k <= n,
            n == chars@.len(),
            digits == chars@.subrange(start as int, n as int),
            number_of(chars@) == digits_value(digits),
            digits_value(digits.subrange(0, k - start)) == Some(value as nat),
        decreases n - k,
    {
        let c = chars[k];
        let ghost pre1 = digits.subrange(0, k + 1 - start);
        proof {
            assert(pre1.drop_last() =~= digits.subrange(0, k - start));
            assert(pre1.last() == c);
            assert(digits.subrange(0, n - start) =~= digits);
        }
        if !('0' <= c && c <= '9') {
            proof {
                lemma_digits_none_stays(digits, k + 1 - start, n - start);
            }
            return None;
        }
        let d: usize = (c as u32 - '0' as u32) as usize;
        if value > (usize::MAX - d) / 10 {
            proof {
                if digits_value(digits) is Some {
                    lemma_digits_grow(digits, k + 1 - start, n - start);
                }
            }
            return None;
        }
        value = value * 10 + d;
        k = k + 1;
    }
    proof {
        assert(digits.subrange(0, n - start) =~= digits);
        if start == 0 {
            assert(digits =~= chars@);
        }
    }
    Some(value)
}

/// Once a character is no digit, no longer run of characters spells a
/// number.
pub proof fn lemma_digits_none_stays(s: Seq<char>, a: int, b: int)
    requires
        0 <= a <= b <= s.len(),
        digits_value(s.subrange(0, a)) is None,
    ensures
        digits_value(s.subrange(0, b)) is None,
    decreases b - a,
{
    if a < b {
        lemma_digits_none_stays(s, a, b - 1);
        assert(s.subrange(0, b).drop_last() =~= s.subrange(0, b - 1));
    }
}

/// A longer run of digits spells no smaller number.
pub proof fn lemma_digits_grow(s: Seq<char>, a: int, b: int)
    requires
        0 <= a <= b <= s.len(),
        digits_value(s.subrange(0, b)) is Some,
    ensures
        digits_value(s.subrange(0, a)) is Some,
        digits_value(s.subrange(0, a))->0 <= digits_value(s.subrange(0, b))->0,
    decreases b - a,
{
    if a < b {
        assert(s.subrange(0, b).drop_last() =~= s.subrange(0, b - 1));
        lemma_digits_grow(s, a, b - 1);
    }
}

} // verus!
