//! Decimal numbers as text.

use crate::text::to_chars;
use vstd::prelude::*;

verus! {

/// The character of a decimal digit.
pub open spec fn digit(d: nat) -> char {
    (d as u32 + 48) as char
}

/// `n` in decimal, without leading zeros.
pub open spec fn decimal(n: nat) -> Seq<char>
    decreases n,
{
    if n < 10 {
        seq![digit(n)]
    } else {
        decimal(n / 10).push(digit(n % 10))
    }
}

/// `n` in decimal with zeros before it up to `width` characters.
pub open spec fn decimal_padded(n: nat, width: nat) -> Seq<char> {
    let d = decimal(n);
    if d.len() >= width {
        d
    } else {
        Seq::new((width - d.len()) as nat, |i: int| '0') + d
    }
}

/// `n` in decimal.
pub fn to_decimal(n: u64) -> (r: String)
    ensures
        r@ == decimal(n as nat),
    decreases n,
{
    let mut out = if n < 10 {
        String::new()
    } else {
        to_decimal(n / 10)
    };
    let c = (48u8 + (n % 10) as u8) as char;
    let ghost before = out@;
    out.push(c);
    assert(c == digit((n % 10) as nat));
    assert(n < 10 ==> out@ == seq![c]);
    out
}

/// `n` in decimal with zeros before it up to `width` characters.
pub fn to_decimal_padded(n: u64, width: usize) -> (r: String)
    ensures
        r@ == decimal_padded(n as nat, width as nat),
{
    let d = to_decimal(n);
    let len = d.as_str().unicode_len();
    let mut out = String::new();
    if len >= width {
        return d;
    }
    let mut k: usize = len;
    while k < width
        invariant
            len <= k <= width,
            out@ == Seq::new((k - len) as nat, |i: int| '0'),
        decreases width - k,
    {
        let ghost before = out@;
        out.push('0');
        k += 1;
        assert(out@ == Seq::new((k - len) as nat, |i: int| '0'));
    }
    out.append(d.as_str());
    out
}

/// `c` is a decimal digit.
pub open spec fn is_digit(c: char) -> bool {
    '0' <= c <= '9'
}

/// The value of a text of decimal digits.
pub open spec fn digits_value(s: Seq<char>) -> nat
    decreases s.len(),
{
    if s.len() == 0 {
        0
    } else {
        (10 * digits_value(s.drop_last()) + (s.last() as int - 48)) as nat
    }
}

/// `s` without the `+` that it may begin with.
pub open spec fn unsigned(s: Seq<char>) -> Seq<char> {
    if s.len() > 0 && s[0] == '+' {
        s.skip(1)
    } else {
        s
    }
}

/// `s` is made of digits, one at least.
pub open spec fn all_digits(s: Seq<char>) -> bool {
    s.len() > 0 && forall|i: int| 0 <= i < s.len() ==> is_digit(#[trigger] s[i])
}

/// The number that a text stands for: digits, with at most one `+` before
/// them.
pub open spec fn number(s: Seq<char>) -> Option<nat> {
    if all_digits(unsigned(s)) {
        Some(digits_value(unsigned(s)))
    } else {
        None
    }
}

/// The number that a text stands for, if it is no greater than `max`.
pub open spec fn number_within(s: Seq<char>, max: nat) -> Option<nat> {
    match number(s) {
        Some(v) => if v <= max {
            Some(v)
        } else {
            None
        },
        None => None,
    }
}

/// Reads a number of at most `max`.
pub fn parse_within(s: &str, max: u64) -> (r: Option<u64>)
    ensures
        match r {
            Some(v) => number_within(s@, max as nat) == Some(v as nat),
            None => number_within(s@, max as nat) is None,
        },
{
    let v = to_chars(s);
    let start: usize = if v.len() > 0 && v[0] == '+' {
        1
    } else {
        0
    };
    let ghost t = v@.skip(start as int);
    assert(start == 0 ==> t == s@);
    if start == v.len() {
        return None;
    }
    let mut value: u64 = 0;
    let mut i: usize = start;
    let mut fits = true;
    assert(t.take(0) == Seq::<char>::empty());
    while i < v.len()
        invariant
            v@ == s@,
            start <= i <= v.len(),
            start <= 1,
            t == v@.skip(start as int),
            forall|k: int| 0 <= k < i - start ==> is_digit(#[trigger] t[k]),
            fits ==> value == digits_value(t.take(i - start)) && value <= max,
            !fits ==> digits_value(t.take(i - start)) > max,
            t == unsigned(s@),
        decreases v.len() - i,
    {
        let c = v[i];
        assert(c == t[i - start]);
        if !('0' <= c && c <= '9') {
            assert(!is_digit(t[i - start]));
            return None;
        }
        let d: u64 = (c as u8 - 48) as u64;
        assert(t.take(i + 1 - start).drop_last() == t.take(i - start));
        assert(t.take(i + 1 - start).last() == c);
        assert(d == c as int - 48);
        if fits {
            if value > (u64::MAX - d) / 10 || value * 10 + d > max {
                fits = false;
            } else {
                value = value * 10 + d;
            }
        }
        i += 1;
    }
    assert(t.take(i - start) == t);
    if fits {
        Some(value)
    } else {
        None
    }
}

/// The number of type `u64` that a text stands for.
pub open spec fn number_u64(s: Seq<char>) -> Option<nat> {
    number_within(s, u64::MAX as nat)
}

/// Reads a `u64`.
pub fn parse_u64(s: &str) -> (r: Option<u64>)
    ensures
        match r {
            Some(v) => number_u64(s@) == Some(v as nat),
            None => number_u64(s@) is None,
        },
{
    parse_within(s, u64::MAX)
}

/// A number's decimal text reads back as the number.
pub proof fn law_decimal_reads_back(n: nat)
    ensures
        number(decimal(n)) == Some(n),
{
    lemma_decimal_digits(n);
}

/// A number written with leading zeros reads back as itself.
pub proof fn law_padded_decimal_reads_back(n: nat, width: nat)
    ensures
        number(decimal_padded(n, width)) == Some(n),
        all_digits(decimal_padded(n, width)),
{
    lemma_decimal_digits(n);
    let d = decimal(n);
    if d.len() < width {
        lemma_leading_zeros((width - d.len()) as nat, d);
    }
}

/// Leading zeros do not change a number.
proof fn lemma_leading_zeros(k: nat, d: Seq<char>)
    requires
        all_digits(d),
    ensures
        all_digits(Seq::new(k, |i: int| '0') + d),
        digits_value(Seq::new(k, |i: int| '0') + d) == digits_value(d),
    decreases d.len(),
{
    let zeros = Seq::new(k, |i: int| '0');
    let s = zeros + d;
    assert forall|i: int| 0 <= i < s.len() implies is_digit(#[trigger] s[i]) by {
        if i >= k {
            assert(is_digit(d[i - k]));
        }
    }
    assert(s.drop_last() == zeros + d.drop_last());
    assert(s.last() == d.last());
    if d.len() == 1 {
        lemma_zeros(k);
        assert(s.drop_last() == zeros);
        assert(d.drop_last() == Seq::<char>::empty());
        assert(digits_value(Seq::<char>::empty()) == 0);
    } else {
        assert forall|i: int| 0 <= i < d.drop_last().len() implies is_digit(
            #[trigger] d.drop_last()[i],
        ) by {
            assert(is_digit(d[i]));
        }
        lemma_leading_zeros(k, d.drop_last());
    }
}

/// Zeros have no value.
proof fn lemma_zeros(k: nat)
    ensures
        digits_value(Seq::new(k, |i: int| '0')) == 0,
    decreases k,
{
    if k > 0 {
        lemma_zeros((k - 1) as nat);
        assert(Seq::new(k, |i: int| '0').drop_last() == Seq::new((k - 1) as nat, |i: int| '0'));
    }
}

/// The decimal text of a number is a non-empty run of digits with its value.
pub proof fn lemma_decimal_digits(n: nat)
    ensures
        all_digits(decimal(n)),
        digits_value(decimal(n)) == n,
    decreases n,
{
    if n < 10 {
        assert(decimal(n).drop_last() == Seq::<char>::empty());
        assert(decimal(n).last() == digit(n));
        assert(digits_value(Seq::<char>::empty()) == 0);
    } else {
        lemma_decimal_digits(n / 10);
        let d = decimal(n / 10);
        assert(decimal(n) == d.push(digit(n % 10)));
        assert(decimal(n).drop_last() == d);
        assert(decimal(n).last() == digit(n % 10));
    }
}

} // verus!
