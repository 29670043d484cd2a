//! Decimal text of unsigned integers, and conversion of characters to strings.

use vstd::prelude::*;

verus! {

/// The character of a decimal digit `d` (0 to 9).
pub open spec fn digit_char(d: nat) -> char {
    (d + 48) as char
}

/// The decimal numeral of `n`, most significant digit first, with no
/// leading zeros (zero is written as a single `0`).
pub open spec fn decimal(n: nat) -> Seq<char>
    decreases n,
{
    if n < 10 {
        seq![digit_char(n)]
    } else {
        decimal(n / 10).push(digit_char(n % 10))
    }
}

/// Whether `c` is one of the ASCII digits `0` to `9`.
pub open spec fn is_digit(c: char) -> bool {
    48 <= (c as u32) && (c as u32) <= 57
}

/// The value of the digit character `c`.
pub open spec fn digit_value(c: char) -> int {
    (c as u32) - 48
}

/// Whether every character of `s` is a decimal digit.
pub open spec fn all_digits(s: Seq<char>) -> bool {
    forall|i: int| 0 <= i < s.len() ==> #[trigger] is_digit(s[i])
}

/// The value of the decimal numeral `s`, most significant digit first
/// (meaningful where `all_digits(s)`; the empty numeral has value zero).
pub open spec fn digits_value(s: Seq<char>) -> int
    decreases s.len(),
{
    if s.len() == 0 {
        0
    } else {
        digits_value(s.drop_last()) * 10 + digit_value(s.last())
    }
}

/// The part of `s` that `usize::from_str` reads as digits: `s` without a
/// leading `+`, if it has one.
pub open spec fn unsigned_digits(s: Seq<char>) -> Seq<char> {
    if s.len() > 0 && s[0] == '+' {
        s.drop_first()
    } else {
        s
    }
}

/// What `str::parse::<usize>` gives for `s`: the value when `s` is an
/// optional `+` followed by one or more decimal digits whose value fits in a
/// `usize`, and no value otherwise (an empty string, a sign alone, any other
/// character, whitespace included, or a value too large).
pub open spec fn parsed_usize(s: Seq<char>) -> Option<usize> {
    let d = unsigned_digits(s);
    if d.len() > 0 && all_digits(d) && digits_value(d) <= usize::MAX {
        Some(digits_value(d) as usize)
    } else {
        None
    }
}

/// A numeral does not lose value when digits are appended to it.
proof fn lemma_digits_value_prefix(s: Seq<char>, k: int)
    requires
        0 <= k <= s.len(),
        all_digits(s),
    ensures
        digits_value(s.take(k)) <= digits_value(s),
        digits_value(s.take(k)) >= 0,
    decreases s.len() - k,
{
    if k < s.len() {
        lemma_digits_value_prefix(s, k + 1);
        assert(s.take(k + 1).drop_last() =~= s.take(k));
        assert(is_digit(s[k]));
    } else {
        assert(s.take(k) =~= s);
        lemma_digits_value_nonneg(s);
    }
}

/// A numeral of digits has a value of at least zero.
proof fn lemma_digits_value_nonneg(s: Seq<char>)
    requires
        all_digits(s),
    ensures
        digits_value(s) >= 0,
    decreases s.len(),
{
    if s.len() > 0 {
        assert(is_digit(s[s.len() - 1]));
        lemma_digits_value_nonneg(s.drop_last());
    }
}

/// Parses `s` as `str::parse::<usize>` does, giving `None` where that
/// gives an error.
pub fn parse_usize(s: &str) -> (r: Option<usize>)
    ensures
        r == parsed_usize(s@),
{
    let cs = chars_of(s);
    let n = cs.len();
    let start: usize = if n > 0 && cs[0] == '+' { 1 } else { 0 };
    let ghost d = unsigned_digits(cs@);
    assert(d =~= cs@.subrange(start as int, n as int));
    if start == n {
        return None;
    }
    let mut acc: usize = 0;
    let mut i: usize = start;
    while i < n
        invariant
            start <= i <= n,
            n == cs@.len(),
            cs@ == s@,
            d == unsigned_digits(s@),
            d =~= cs@.subrange(start as int, n as int),
            all_digits(d.take(i - start)),
            acc as int == digits_value(d.take(i - start)),
        decreases n - i,
    {
        let c = cs[i];
        let code = c as u32;
        if code < 48 || code > 57 {
            assert(d[i - start] == c);
            assert(!is_digit(d[i - start]));
            assert(!all_digits(d));
            return None;
        }
        let dv: usize = (code - 48) as usize;
        let ghost k = i - start;
        assert(d.take(k + 1).drop_last() =~= d.take(k));
        assert(d.take(k + 1).last() == c);
        assert(all_digits(d.take(k + 1)));
        match acc.checked_mul(10) {
            None => {
                proof { lemma_not_all_digits_or_too_large(d, k + 1); }
                return None;
            },
            Some(m) => match m.checked_add(dv) {
                None => {
                    proof { lemma_not_all_digits_or_too_large(d, k + 1); }
                    return None;
                },
                Some(next) => {
                    acc = next;
                },
            },
        }
        i = i + 1;
    }
    assert(d.take(n - start) =~= d);
    Some(acc)
}

/// Where a prefix of `d` made of digits already has a value beyond
/// `usize::MAX`, `d` is either not all digits or too large as well.
proof fn lemma_not_all_digits_or_too_large(d: Seq<char>, k: int)
    requires
        0 <= k <= d.len(),
        digits_value(d.take(k)) > usize::MAX,
    ensures
        !(all_digits(d) && digits_value(d) <= usize::MAX),
{
    if all_digits(d) {
        lemma_digits_value_prefix(d, k);
    }
}

/// Returns the character of the decimal digit `d`.
pub fn digit_to_char(d: usize) -> (c: char)
    requires
        d < 10,
    ensures
        c == digit_char(d as nat),
{
    let b: u8 = d as u8 + 48;
    b as char
}

/// Returns the decimal numeral of `n` as characters.
pub fn decimal_chars(n: usize) -> (r: Vec<char>)
    ensures
        r@ == decimal(n as nat),
    decreases n,
{
    if n < 10 {
        let mut v: Vec<char> = Vec::new();
        v.push(digit_to_char(n));
        v
    } else {
        let mut v = decimal_chars(n / 10);
        v.push(digit_to_char(n % 10));
        v
    }
}

/// Returns the characters of `s`, in order.
pub fn chars_of(s: &str) -> (v: Vec<char>)
    ensures
        v@ == s@,
{
    broadcast use vstd::string::axiom_spec_iter;

    let mut v: Vec<char> = Vec::new();
    for c in it: s.chars()
        invariant
            v@ == it.seq().take(it.index()),
    {
        v.push(c);
    }
    v
}

/// `s` preceded by as many `0` characters as it takes to reach `width`
/// characters (`s` itself where it is that long already).
pub open spec fn zero_pad(s: Seq<char>, width: nat) -> Seq<char> {
    if s.len() >= width {
        s
    } else {
        Seq::new((width - s.len()) as nat, |i: int| '0') + s
    }
}

/// Returns the decimal numeral of `n`, padded with leading zeros to at
/// least `width` characters.
pub fn zero_padded_decimal(n: usize, width: usize) -> (r: Vec<char>)
    ensures
        r@ == zero_pad(decimal(n as nat), width as nat),
{
    let digits = decimal_chars(n);
    if digits.len() >= width {
        return digits;
    }
    let fill = width - digits.len();
    let mut r: Vec<char> = Vec::new();
    let mut k: usize = 0;
    while k < fill
        invariant
            k <= fill,
            r@ =~= Seq::new(k as nat, |i: int| '0'),
        decreases fill - k,
    {
        r.push('0');
        k = k + 1;
    }
    let mut j: usize = 0;
    while j < digits.len()
        invariant
            j <= digits.len(),
            r@ =~= Seq::new(fill as nat, |i: int| '0') + digits@.take(j as int),
        decreases digits.len() - j,
    {
        r.push(digits[j]);
        j = j + 1;
    }
    assert(digits@.take(digits.len() as int) =~= digits@);
    r
}

/// Returns the decimal numeral of `n` as a string, as `n.to_string()` and
/// `format!("{}", n)` write it.
pub fn decimal_string(n: usize) -> (s: String)
    ensures
        s@ == decimal(n as nat),
        numeral_of(s@, n as nat, 1),
        parsed_usize(s@) == Some(n),
{
    proof {
        lemma_decimal_numeral(n as nat);
        lemma_numeral_parses(decimal(n as nat), n as nat, 1);
    }
    string_from_chars(&decimal_chars(n))
}

/// Whether `t` writes `n` in decimal with at least `width` digits (and at
/// least one), and with no more digits than that needs: every character a
/// digit, value `n`, and no leading `0` beyond the minimum width.
pub open spec fn numeral_of(t: Seq<char>, n: nat, width: nat) -> bool {
    &&& all_digits(t)
    &&& t.len() >= 1
    &&& t.len() >= width
    &&& digits_value(t) == n
    &&& (t.len() > 1 && t.len() > width) ==> t[0] != '0'
}

/// The leading digit of the numeral of a positive number is not zero.
proof fn lemma_decimal_leading_digit(n: nat)
    requires
        n >= 1,
    ensures
        decimal(n)[0] != '0',
    decreases n,
{
    if n >= 10 {
        lemma_decimal_leading_digit(n / 10);
        lemma_decimal_digits(n / 10);
        assert(decimal(n)[0] == decimal(n / 10)[0]);
    } else {
        assert(((n + 48) as char) as u32 == n + 48);
        assert('0' as u32 == 48);
    }
}

/// `decimal(n)` is the shortest numeral of `n`.
pub proof fn lemma_decimal_numeral(n: nat)
    ensures
        numeral_of(decimal(n), n, 1),
{
    lemma_decimal_digits(n);
    if decimal(n).len() > 1 {
        if n < 10 {
            assert(decimal(n).len() == 1);
        }
        lemma_decimal_leading_digit(n);
    }
}

/// A numeral of a `usize` reads back, as `str::parse::<usize>` reads it, as
/// that number.
pub proof fn lemma_numeral_parses(t: Seq<char>, n: nat, width: nat)
    requires
        numeral_of(t, n, width),
        n <= usize::MAX,
    ensures
        parsed_usize(t) == Some(n as usize),
{
    assert(is_digit(t[0]));
    assert('+' as u32 == 43);
    assert(unsigned_digits(t) == t);
}

/// Zero padding to `width` gives a numeral of at least `width` digits with
/// no zeros beyond those it needs.
pub proof fn lemma_zero_pad_numeral(n: nat, width: nat)
    ensures
        numeral_of(zero_pad(decimal(n), width), n, width),
{
    lemma_decimal_numeral(n);
    lemma_zero_pad_value(n, width);
    let d = decimal(n);
    if d.len() < width {
        let z = Seq::new((width - d.len()) as nat, |i: int| '0');
        let t = z + d;
        assert(t == zero_pad(d, width));
        assert('0' as u32 == 48);
        assert forall|i: int| 0 <= i < t.len() implies #[trigger] is_digit(t[i]) by {
            if i < z.len() {
                assert(t[i] == '0');
            } else {
                assert(t[i] == d[i - z.len()]);
            }
        }
    }
}

/// A numeral written by `decimal` is made of digits, starts with a digit and
/// has the value it was written for.
pub proof fn lemma_decimal_digits(n: nat)
    ensures
        decimal(n).len() >= 1,
        all_digits(decimal(n)),
        digits_value(decimal(n)) == n,
    decreases n,
{
    if n >= 10 {
        lemma_decimal_digits(n / 10);
        let s = decimal(n);
        assert(s.drop_last() =~= decimal(n / 10));
        assert(((n % 10 + 48) as char) as u32 == n % 10 + 48);
        assert(n == (n / 10) * 10 + n % 10);
        assert(digit_value(s.last()) == n % 10);
        assert(digits_value(s) == digits_value(s.drop_last()) * 10 + digit_value(s.last()));
        assert forall|i: int| 0 <= i < s.len() implies #[trigger] is_digit(s[i]) by {
            if i < s.len() - 1 {
                assert(s[i] == decimal(n / 10)[i]);
            }
        }
    } else {
        assert(((n + 48) as char) as u32 == n + 48);
        assert(is_digit(decimal(n)[0]));
        assert(decimal(n).drop_last() =~= Seq::<char>::empty());
        assert(digits_value(Seq::<char>::empty()) == 0);
        assert(digit_value(decimal(n).last()) == n);
    }
}

/// Leading zeros do not change the value of a numeral.
pub proof fn lemma_leading_zeros_value(k: nat, s: Seq<char>)
    ensures
        digits_value(Seq::new(k, |i: int| '0') + s) == digits_value(s),
    decreases s.len(),
{
    let z = Seq::new(k, |i: int| '0');
    if s.len() == 0 {
        assert(z + s =~= z);
        lemma_zeros_value(k);
    } else {
        lemma_leading_zeros_value(k, s.drop_last());
        assert((z + s).drop_last() =~= z + s.drop_last());
    }
}

/// A numeral of zeros only has value zero.
proof fn lemma_zeros_value(k: nat)
    ensures
        digits_value(Seq::new(k, |i: int| '0')) == 0,
    decreases k,
{
    if k > 0 {
        lemma_zeros_value((k - 1) as nat);
        assert(Seq::new(k, |i: int| '0').drop_last() =~= Seq::new((k - 1) as nat, |i: int| '0'));
    }
}

/// Reading back what `decimal` writes gives the number written: the text
/// of a `usize` parses, as `str::parse::<usize>` does, to that `usize`.
pub proof fn lemma_parse_decimal_round_trip(n: usize)
    ensures
        parsed_usize(decimal(n as nat)) == Some(n),
{
    lemma_decimal_digits(n as nat);
    let s = decimal(n as nat);
    assert(is_digit(s[0]));
    assert(unsigned_digits(s) == s);
}

/// Padding with zeros keeps the value of a numeral: the padded numerals of
/// two different numbers differ.
pub proof fn lemma_zero_pad_injective(a: nat, b: nat, width: nat)
    requires
        zero_pad(decimal(a), width) == zero_pad(decimal(b), width),
    ensures
        a == b,
{
    lemma_zero_pad_value(a, width);
    lemma_zero_pad_value(b, width);
}

/// The zero-padded numeral of `n` has value `n`.
proof fn lemma_zero_pad_value(n: nat, width: nat)
    ensures
        digits_value(zero_pad(decimal(n), width)) == n,
{
    lemma_decimal_digits(n);
    if decimal(n).len() < width {
        lemma_leading_zeros_value((width - decimal(n).len()) as nat, decimal(n));
    }
}

/// Wraps `String`'s `FromIterator<char>`: the string made of the given
/// characters, in order.
#[verifier::external_body]
pub(crate) fn string_from_chars(chars: &Vec<char>) -> (s: String)
    ensures
        s@ == chars@,
{
    chars.iter().collect()
}

} // verus!
