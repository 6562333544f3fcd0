//! The name under which a download is saved when none is given.

use crate::platform::lower_hex;
use crate::platform::new_uuid;
use crate::text::join3;
use crate::text::pieces;
use crate::text::split_at_char;
use crate::text::to_chars;
use crate::text::views;
use vstd::prelude::*;

verus! {

/// The value of a hexadecimal digit.
pub open spec fn hex_value(c: char) -> Option<nat> {
    if '0' <= c <= '9' {
        Some((c as int - 48) as nat)
    } else if 'a' <= c <= 'f' {
        Some((c as int - 87) as nat)
    } else if 'A' <= c <= 'F' {
        Some((c as int - 55) as nat)
    } else {
        None
    }
}

/// The byte that two characters stand for in hexadecimal. A `+` may stand in
/// the place of the first.
pub open spec fn hex_byte(a: char, b: char) -> Option<nat> {
    match (hex_value(a), hex_value(b)) {
        (Some(x), Some(y)) => Some(16 * x + y),
        (None, Some(y)) => if a == '+' {
            Some(y)
        } else {
            None
        },
        _ => None,
    }
}

/// The character at `i`, or `0` past the end.
pub open spec fn char_or_zero(s: Seq<char>, i: int) -> char {
    if i < s.len() {
        s[i]
    } else {
        '0'
    }
}

/// What is left of `s` after its first three characters.
pub open spec fn past_escape(s: Seq<char>) -> Seq<char> {
    if s.len() >= 3 {
        s.skip(3)
    } else {
        Seq::empty()
    }
}

/// `s` with each percent sign and the two characters after it read as one
/// byte. Where the two are no hexadecimal number, the percent sign stays and
/// they fall away; past the end of the text they count as zeros.
pub open spec fn percent_decoded(s: Seq<char>) -> Seq<char>
    decreases s.len(),
{
    if s.len() == 0 {
        Seq::empty()
    } else if s[0] == '%' {
        let c = match hex_byte(char_or_zero(s, 1), char_or_zero(s, 2)) {
            Some(b) => b as char,
            None => '%',
        };
        seq![c] + percent_decoded(past_escape(s))
    } else {
        seq![s[0]] + percent_decoded(s.skip(1))
    }
}

/// The value of a hexadecimal digit.
fn hex_digit(c: char) -> (r: Option<u8>)
    ensures
        match r {
            Some(v) => hex_value(c) == Some(v as nat) && v < 16,
            None => hex_value(c) is None,
        },
{
    if '0' <= c && c <= '9' {
        Some(c as u8 - 48)
    } else if 'a' <= c && c <= 'f' {
        Some(c as u8 - 87)
    } else if 'A' <= c && c <= 'F' {
        Some(c as u8 - 55)
    } else {
        None
    }
}

/// The byte that two characters stand for in hexadecimal.
fn hex_pair(a: char, b: char) -> (r: Option<u8>)
    ensures
        match r {
            Some(v) => hex_byte(a, b) == Some(v as nat),
            None => hex_byte(a, b) is None,
        },
{
    match hex_digit(b) {
        Some(y) => match hex_digit(a) {
            Some(x) => Some(16 * x + y),
            None => if a == '+' {
                Some(y)
            } else {
                None
            },
        },
        None => None,
    }
}

/// `s` with its percent signs decoded.
pub fn urlencoding_decode(s: &str) -> (r: String)
    ensures
        r@ == percent_decoded(s@),
{
    let v = to_chars(s);
    let mut out = String::new();
    let mut i: usize = 0;
    assert(v@.skip(0) == s@);
    while i < v.len()
        invariant
            v@ == s@,
            i <= v.len(),
            out@ + percent_decoded(v@.skip(i as int)) == percent_decoded(s@),
        decreases v.len() - i,
    {
        let ghost t = v@.skip(i as int);
        let ghost before = out@;
        if v[i] == '%' {
            let left: usize = v.len() - i;
            let h1 = if left > 1 {
                v[i + 1]
            } else {
                '0'
            };
            let h2 = if left > 2 {
                v[i + 2]
            } else {
                '0'
            };
            assert(h1 == char_or_zero(t, 1));
            assert(h2 == char_or_zero(t, 2));
            let c = match hex_pair(h1, h2) {
                Some(b) => b as char,
                None => '%',
            };
            out.push(c);
            i = if left > 3 {
                i + 3
            } else {
                v.len()
            };
            assert(v@.skip(i as int) == past_escape(t));
            assert(before + (seq![c] + percent_decoded(past_escape(t))) == out@ + percent_decoded(
                v@.skip(i as int),
            ));
        } else {
            let c = v[i];
            out.push(c);
            i += 1;
            assert(v@.skip(i as int) == t.skip(1));
            assert(before + (seq![c] + percent_decoded(t.skip(1))) == out@ + percent_decoded(
                v@.skip(i as int),
            ));
        }
    }
    assert(v@.skip(i as int) == Seq::<char>::empty());
    assert(out@ + Seq::<char>::empty() == out@);
    out
}

/// A text without percent signs is its own decoding.
pub proof fn law_decoding_leaves_plain_text(s: Seq<char>)
    requires
        !s.contains('%'),
    ensures
        percent_decoded(s) == s,
    decreases s.len(),
{
    if s.len() > 0 {
        assert(s.contains(s[0]));
        assert forall|c: char| s.skip(1).contains(c) implies s.contains(c) by {
            let k = choose|k: int| 0 <= k < s.skip(1).len() && s.skip(1)[k] == c;
            assert(s[k + 1] == c);
        }
        law_decoding_leaves_plain_text(s.skip(1));
        assert(seq![s[0]] + s.skip(1) == s);
    }
}

/// Decoding never makes a text longer.
pub proof fn law_decoding_never_grows(s: Seq<char>)
    ensures
        percent_decoded(s).len() <= s.len(),
    decreases s.len(),
{
    if s.len() > 0 {
        if s[0] == '%' {
            law_decoding_never_grows(past_escape(s));
        } else {
            law_decoding_never_grows(s.skip(1));
        }
    }
}

/// The last part of an address, its query left out.
pub open spec fn last_part(url: Seq<char>) -> Seq<char> {
    pieces(pieces(url, '?')[0], '/').last()
}

/// A name made up for an address that ends in none: eight hexadecimal digits
/// between `download_` and `.bin`.
pub open spec fn made_up_name(name: Seq<char>) -> bool {
    exists|d: Seq<char>|
        {
            &&& d.len() == 8
            &&& forall|i: int| 0 <= i < 8 ==> lower_hex(#[trigger] d[i])
            &&& #[trigger] made_up_of(d) == name
        }
}

/// The made-up name with the given digits.
pub open spec fn made_up_of(digits: Seq<char>) -> Seq<char> {
    "download_"@ + digits + ".bin"@
}

/// `name` is a name for what `url` leads to: its last part, decoded, or a
/// made-up name where the last part is empty.
pub open spec fn guessed(url: Seq<char>, name: Seq<char>) -> bool {
    if last_part(url).len() > 0 {
        name == percent_decoded(last_part(url))
    } else {
        made_up_name(name)
    }
}

/// The name that an address itself gives.
pub fn name_in_url(url: &str) -> (r: Option<String>)
    ensures
        match r {
            Some(n) => last_part(url@).len() > 0 && n@ == percent_decoded(last_part(url@)),
            None => last_part(url@).len() == 0,
        },
{
    let parts = split_at_char(url, '?');
    assert(parts@[0]@ == views(parts@)[0]);
    let names = split_at_char(parts[0].as_str(), '/');
    let last = names[names.len() - 1].as_str();
    assert(last@ == views(names@).last());
    if last.is_empty() {
        None
    } else {
        Some(urlencoding_decode(last))
    }
}

/// A name for what `url` leads to.
pub fn guess_filename(url: &str) -> (r: String)
    ensures
        guessed(url@, r@),
{
    match name_in_url(url) {
        Some(n) => n,
        None => {
            let u = new_uuid();
            let digits = u.as_str().substring_char(0, 8);
            assert forall|i: int| 0 <= i < 8 implies lower_hex(#[trigger] digits@[i]) by {
                assert(digits@[i] == u@[i]);
            }
            let name = join3("download_", digits, ".bin");
            assert(made_up_of(digits@) == name@);
            name
        },
    }
}

/// Decoding passes over a beginning without percent signs.
pub proof fn law_decoding_passes_plain_beginning(p: Seq<char>, s: Seq<char>)
    requires
        !p.contains('%'),
    ensures
        percent_decoded(p + s) == p + percent_decoded(s),
    decreases p.len(),
{
    if p.len() == 0 {
        assert(p + s == s);
        assert(p + percent_decoded(s) == percent_decoded(s));
    } else {
        assert(p.contains(p[0]));
        assert forall|c: char| p.skip(1).contains(c) implies p.contains(c) by {
            let k = choose|k: int| 0 <= k < p.skip(1).len() && p.skip(1)[k] == c;
            assert(p[k + 1] == c);
        }
        law_decoding_passes_plain_beginning(p.skip(1), s);
        assert((p + s).skip(1) == p.skip(1) + s);
        assert(seq![p[0]] + (p.skip(1) + percent_decoded(s)) == p + percent_decoded(s));
    }
}

/// The hexadecimal digit of a value.
pub open spec fn hex_char(v: nat) -> char {
    if v < 10 {
        (v as u32 + 48) as char
    } else {
        (v as u32 + 55) as char
    }
}

/// A character below 256 as a percent sign and two hexadecimal digits.
pub open spec fn escape(c: char) -> Seq<char> {
    seq!['%', hex_char((c as u32 / 16) as nat), hex_char((c as u32 % 16) as nat)]
}

/// A text in which the characters that are not plain, and the percent signs,
/// are escaped.
pub open spec fn escaped(s: Seq<char>, plain: spec_fn(char) -> bool) -> Seq<char>
    decreases s.len(),
{
    if s.len() == 0 {
        Seq::empty()
    } else if plain(s[0]) && s[0] != '%' {
        seq![s[0]] + escaped(s.skip(1), plain)
    } else {
        escape(s[0]) + escaped(s.skip(1), plain)
    }
}

/// The two digits of an escaped character stand for it.
proof fn lemma_escape_reads_back(c: char)
    requires
        c as u32 <= 255,
    ensures
        hex_byte(escape(c)[1], escape(c)[2]) == Some(c as u32 as nat),
        (c as u32 as nat) as char == c,
{
    let v = c as u32;
    assert(hex_value(hex_char((v / 16) as nat)) == Some((v / 16) as nat));
    assert(hex_value(hex_char((v % 16) as nat)) == Some((v % 16) as nat));
}

/// Decoding undoes escaping, whichever characters were left plain, as far as
/// the others are below 256.
pub proof fn law_decoding_undoes_escaping(s: Seq<char>, plain: spec_fn(char) -> bool)
    requires
        forall|i: int| 0 <= i < s.len() ==> plain(#[trigger] s[i]) || s[i] as u32 <= 255,
    ensures
        percent_decoded(escaped(s, plain)) == s,
    decreases s.len(),
{
    if s.len() > 0 {
        let rest = s.skip(1);
        assert forall|i: int| 0 <= i < rest.len() implies plain(#[trigger] rest[i])
            || rest[i] as u32 <= 255 by {
            assert(plain(s[i + 1]) || s[i + 1] as u32 <= 255);
        }
        law_decoding_undoes_escaping(rest, plain);
        let e = escaped(s, plain);
        let more = escaped(rest, plain);
        assert(seq![s[0]] + rest == s);
        if plain(s[0]) && s[0] != '%' {
            assert(e.skip(1) == more);
        } else {
            lemma_escape_reads_back(s[0]);
            assert(e[1] == escape(s[0])[1] && e[2] == escape(s[0])[2]);
            assert(e.skip(3) == more);
        }
    }
}

} // verus!
