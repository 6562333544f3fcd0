//! What holds of the operations on text, whatever the text.

use crate::number::all_digits;
use crate::number::decimal;
use crate::number::decimal_padded;
use crate::number::digits_value;
use crate::number::is_digit;
use crate::number::lemma_decimal_digits;
use crate::number::number;
use crate::number::number_within;
use crate::number::unsigned;
use crate::text::begins;
use crate::text::ends;
use crate::text::first_at;
use crate::text::halves;
use crate::text::holds;
use crate::text::lemma_first_at;
use crate::text::lemma_pieces_nonempty;
use crate::text::lowered;
use crate::text::occurs_at;
use crate::text::pieces;
use crate::text::second_piece;
use crate::text::substituted;
use crate::text::trimmed;
use crate::text::trimmed_left;
use crate::text::trimmed_right;
use crate::text::white;
use crate::text::without_prefixes;
use crate::text::without_suffixes;
use crate::text::words;
use vstd::prelude::*;
use vstd::utf8::is_ascii_chars;

verus! {

// ---------------------------------------------------------------------------
// Finding a piece of text
// ---------------------------------------------------------------------------

/// A text stands at a position when it agrees with what is there, character by
/// character.
pub proof fn law_occurs_at(s: Seq<char>, pat: Seq<char>, i: int)
    ensures
        occurs_at(s, pat, i) <==> 0 <= i && i + pat.len() <= s.len() && forall|k: int|
            0 <= k < pat.len() ==> s[i + k] == #[trigger] pat[k],
{
    if 0 <= i && i + pat.len() <= s.len() {
        let t = s.subrange(i, i + pat.len());
        if t == pat {
            assert forall|k: int| 0 <= k < pat.len() implies s[i + k] == #[trigger] pat[k] by {
                assert(t[k] == s[i + k]);
            }
        }
        if forall|k: int| 0 <= k < pat.len() ==> s[i + k] == #[trigger] pat[k] {
            assert forall|k: int| 0 <= k < pat.len() implies t[k] == pat[k] by {
                assert(s[i + k] == pat[k]);
            }
            assert(t =~= pat);
        }
    }
}

/// A text holds every text that it is put together around.
pub proof fn law_holds_middle(a: Seq<char>, pat: Seq<char>, b: Seq<char>)
    ensures
        holds(a + pat + b, pat),
{
    assert((a + pat + b).subrange(a.len() as int, (a.len() + pat.len()) as int) == pat);
    assert(occurs_at(a + pat + b, pat, a.len() as int));
}

/// A text that holds another is put together around it.
pub proof fn law_holds_splits(s: Seq<char>, pat: Seq<char>)
    requires
        holds(s, pat),
    ensures
        exists|i: int|
            0 <= i && i + pat.len() <= s.len() && #[trigger] s.take(i) + pat + s.skip(
                i + pat.len(),
            ) == s,
{
    let i = choose|i: int| #[trigger] occurs_at(s, pat, i);
    assert(s.take(i) + pat + s.skip(i + pat.len()) =~= s);
}

/// A text begins with another when that is put before something.
pub proof fn law_begins(s: Seq<char>, pat: Seq<char>)
    ensures
        begins(pat + s, pat),
        begins(s, pat) <==> pat.len() <= s.len() && pat + s.skip(pat.len() as int) == s,
{
    assert((pat + s).subrange(0, pat.len() as int) == pat);
    if pat.len() <= s.len() {
        assert(s.subrange(0, pat.len() as int) + s.skip(pat.len() as int) == s);
        if pat + s.skip(pat.len() as int) == s {
            assert(s.subrange(0, pat.len() as int) == pat);
        }
    }
}

/// A text ends with another when that is put behind something.
pub proof fn law_ends(s: Seq<char>, pat: Seq<char>)
    ensures
        ends(s + pat, pat),
        ends(s, pat) <==> pat.len() <= s.len() && s.take(s.len() - pat.len()) + pat == s,
{
    assert((s + pat).subrange(s.len() as int, (s.len() + pat.len()) as int) == pat);
    if pat.len() <= s.len() {
        let n = s.len() - pat.len();
        assert(s.take(n) + s.subrange(n, s.len() as int) == s);
        if s.take(n) + pat == s {
            assert(s.subrange(n, s.len() as int) == pat);
        }
    }
}

// ---------------------------------------------------------------------------
// White space
// ---------------------------------------------------------------------------

/// The code points of white space.
pub proof fn law_white(c: char)
    ensures
        white(c) <==> (9 <= c as u32 <= 13 || c as u32 == 32 || c as u32 == 133 || c as u32 == 160
            || c as u32 == 5760 || 8192 <= c as u32 <= 8202 || c as u32 == 8232 || c as u32 == 8233
            || c as u32 == 8239 || c as u32 == 8287 || c as u32 == 12288),
{
}

/// What is trimmed off a text is white space, and what is left neither begins
/// nor ends with it.
pub proof fn law_trimmed(s: Seq<char>)
    ensures
        exists|i: int, j: int|
            {
                &&& 0 <= i <= j <= s.len()
                &&& trimmed(s) == #[trigger] s.subrange(i, j)
                &&& forall|k: int| 0 <= k < i ==> white(#[trigger] s[k])
                &&& forall|k: int| j <= k < s.len() ==> white(#[trigger] s[k])
            },
        trimmed(s).len() > 0 ==> !white(trimmed(s)[0]) && !white(trimmed(s).last()),
{
    let i = lemma_trimmed_left(s);
    let j = lemma_trimmed_right(s.skip(i)) + i;
    assert(trimmed(s) == s.skip(i).take(j - i));
    assert(s.skip(i).take(j - i) == s.subrange(i, j));
    assert forall|k: int| j <= k < s.len() implies white(#[trigger] s[k]) by {
        assert(s.skip(i)[k - i] == s[k]);
    }
    if trimmed(s).len() > 0 {
        assert(trimmed(s)[0] == s.skip(i)[0]);
    }
}

/// How much is trimmed off the beginning.
proof fn lemma_trimmed_left(s: Seq<char>) -> (i: int)
    ensures
        0 <= i <= s.len(),
        trimmed_left(s) == s.skip(i),
        forall|k: int| 0 <= k < i ==> white(#[trigger] s[k]),
        i < s.len() ==> !white(s[i]),
    decreases s.len(),
{
    if s.len() > 0 && white(s[0]) {
        let t = s.skip(1);
        let i = lemma_trimmed_left(t);
        assert(t.skip(i) == s.skip(i + 1));
        assert forall|k: int| 0 <= k < i + 1 implies white(#[trigger] s[k]) by {
            if k > 0 {
                assert(t[k - 1] == s[k]);
            }
        }
        i + 1
    } else {
        assert(s.skip(0) == s);
        0
    }
}

/// How much is left when the end is trimmed.
proof fn lemma_trimmed_right(s: Seq<char>) -> (j: int)
    ensures
        0 <= j <= s.len(),
        trimmed_right(s) == s.take(j),
        forall|k: int| j <= k < s.len() ==> white(#[trigger] s[k]),
        j > 0 ==> !white(s[j - 1]),
    decreases s.len(),
{
    if s.len() > 0 && white(s.last()) {
        let t = s.drop_last();
        let j = lemma_trimmed_right(t);
        assert(t.take(j) == s.take(j));
        assert forall|k: int| j <= k < s.len() implies white(#[trigger] s[k]) by {
            if k < s.len() - 1 {
                assert(t[k] == s[k]);
            }
        }
        j
    } else {
        assert(s.take(s.len() as int) == s);
        s.len() as int
    }
}

/// A text that neither begins nor ends with white space is not changed by
/// trimming, whatever white space is put around it.
pub proof fn law_trimming_finds_the_text(a: Seq<char>, s: Seq<char>, b: Seq<char>)
    requires
        forall|k: int| 0 <= k < a.len() ==> white(#[trigger] a[k]),
        forall|k: int| 0 <= k < b.len() ==> white(#[trigger] b[k]),
        s.len() > 0,
        !white(s[0]),
        !white(s.last()),
    ensures
        trimmed(a + s + b) == s,
        trimmed(s) == s,
{
    let t = a + s + b;
    let i = lemma_trimmed_left(t);
    if i < a.len() {
        assert(t[i] == a[i]);
    }
    if i > a.len() {
        assert(t[a.len() as int] == s[0]);
    }
    let u = t.skip(i);
    assert(u == s + b);
    let j = lemma_trimmed_right(u);
    if j > s.len() {
        assert(u[j - 1] == b[j - 1 - s.len()]);
    }
    if j < s.len() {
        assert(u[s.len() - 1] == s.last());
    }
    assert(u.take(j) == s);
    let i = lemma_trimmed_left(s);
    assert(s.skip(0) == s);
    let j = lemma_trimmed_right(s);
    assert(s.take(s.len() as int) == s);
}

/// White space parts the words of a text.
pub proof fn law_words_parted(a: Seq<char>, w: char, b: Seq<char>)
    requires
        white(w),
    ensures
        words(a.push(w) + b) == words(a) + words(b),
    decreases b.len(),
{
    let s = a.push(w) + b;
    if b.len() == 0 {
        assert(s == a.push(w));
        assert(s.drop_last() == a);
        assert(words(a) + words(b) =~= words(a));
    } else {
        law_words_parted(a, w, b.drop_last());
        assert(s.drop_last() == a.push(w) + b.drop_last());
        assert(s.last() == b.last());
        let front = words(a);
        let back = words(b.drop_last());
        if !white(b.last()) {
            if b.len() >= 2 {
                assert(s[s.len() - 2] == b[b.len() - 2]);
                if !white(b[b.len() - 2]) {
                    lemma_last_word(b.drop_last());
                    assert((front + back).last() == back.last());
                    assert((front + back).drop_last() == front + back.drop_last());
                }
            } else {
                assert(s[s.len() - 2] == w);
            }
            assert(words(s) =~= front + words(b));
        }
    }
}

/// A text that ends in something else than white space has a last word.
proof fn lemma_last_word(s: Seq<char>)
    requires
        s.len() > 0,
        !white(s.last()),
    ensures
        words(s).len() > 0,
    decreases s.len(),
{
    if s.len() >= 2 && !white(s[s.len() - 2]) {
        lemma_last_word(s.drop_last());
    }
}

/// A text without white space is one word, unless it is empty.
pub proof fn law_one_word(s: Seq<char>)
    requires
        forall|k: int| 0 <= k < s.len() ==> !white(#[trigger] s[k]),
    ensures
        words(s) == if s.len() == 0 {
            Seq::empty()
        } else {
            seq![s]
        },
    decreases s.len(),
{
    if s.len() > 0 {
        let front = s.drop_last();
        assert forall|k: int| 0 <= k < front.len() implies !white(#[trigger] front[k]) by {
            assert(front[k] == s[k]);
        }
        law_one_word(front);
        assert(!white(s[s.len() - 1]));
        if s.len() >= 2 {
            assert(!white(s[s.len() - 2]));
            assert(front.push(s.last()) == s);
            assert(words(s) =~= seq![s]);
        } else {
            assert(seq![s.last()] == s);
            assert(words(s) =~= seq![s]);
        }
    }
}

// ---------------------------------------------------------------------------
// Splitting
// ---------------------------------------------------------------------------

/// No piece of a text holds the character that the text is split at.
pub proof fn law_pieces_are_free_of_the_separator(s: Seq<char>, sep: char, k: int)
    requires
        0 <= k < pieces(s, sep).len(),
    ensures
        !pieces(s, sep)[k].contains(sep),
    decreases s.len(),
{
    if s.len() > 0 {
        let before = pieces(s.drop_last(), sep);
        lemma_pieces_nonempty(s.drop_last(), sep);
        if k < before.len() {
            law_pieces_are_free_of_the_separator(s.drop_last(), sep, k);
        }
        let p = pieces(s, sep)[k];
        if s.last() != sep && k == before.len() - 1 {
            assert(p == before[k].push(s.last()));
            if p.contains(sep) {
                let j = choose|j: int| 0 <= j < p.len() && p[j] == sep;
                assert(before[k][j] == sep);
            }
        }
    }
}

/// A text is cut in halves at the first of the characters asked for, which
/// falls away, and is not cut where there is none.
pub proof fn law_halves(s: Seq<char>, sep: char)
    ensures
        match halves(s, sep) {
            Some(h) => h.0.push(sep) + h.1 == s && !h.0.contains(sep),
            None => !s.contains(sep),
        },
{
    lemma_first_at(s, seq![sep], 0);
    match first_at(s, seq![sep], 0) {
        Some(i) => {
            assert(s.subrange(i, i + 1)[0] == s[i]);
            assert(s.take(i).push(sep) + s.skip(i + 1) =~= s);
            if s.take(i).contains(sep) {
                let j = choose|j: int| 0 <= j < s.take(i).len() && s.take(i)[j] == sep;
                assert(s.subrange(j, j + 1) =~= seq![sep]);
                assert(occurs_at(s, seq![sep], j));
            }
        },
        None => {
            if s.contains(sep) {
                let j = choose|j: int| 0 <= j < s.len() && s[j] == sep;
                assert(s.subrange(j, j + 1) =~= seq![sep]);
                assert(occurs_at(s, seq![sep], j));
            }
        },
    }
}

/// Where a text is cut, if its first part is free of the character.
pub proof fn law_halves_of_joined(a: Seq<char>, sep: char, b: Seq<char>)
    requires
        !a.contains(sep),
    ensures
        halves(a.push(sep) + b, sep) == Some((a, b)),
{
    let s = a.push(sep) + b;
    law_halves(s, sep);
    assert(s[a.len() as int] == sep);
    match halves(s, sep) {
        Some(h) => {
            let t = h.0.push(sep) + h.1;
            if h.0.len() > a.len() {
                assert(h.0[a.len() as int] == t[a.len() as int]);
                assert(h.0.contains(sep));
            }
            if h.0.len() < a.len() {
                assert(t[h.0.len() as int] == sep);
                assert(s[h.0.len() as int] == a[h.0.len() as int]);
                assert(a.contains(sep));
            }
            assert forall|k: int| 0 <= k < a.len() implies h.0[k] == a[k] by {
                assert(t[k] == s[k]);
            }
            assert(h.0 =~= a);
            assert forall|k: int| 0 <= k < b.len() implies h.1[k] == b[k] by {
                assert(t[a.len() + 1 + k] == s[a.len() + 1 + k]);
            }
            assert(h.1.len() == b.len());
            assert(h.1 =~= b);
        },
        None => {
            assert(s.contains(sep));
        },
    }
}

/// The second piece of a text stands behind the first separator, and reaches to
/// the next one or to the end. The place of the first separator is returned.
pub proof fn law_second_piece(s: Seq<char>, sep: Seq<char>) -> (i: int)
    ensures
        second_piece(s, sep) is Some <==> holds(s, sep),
        second_piece(s, sep) matches Some(p) ==> {
            &&& occurs_at(s, sep, i)
            &&& forall|j: int| 0 <= j < i ==> !#[trigger] occurs_at(s, sep, j)
            &&& occurs_at(s, p, i + sep.len())
            &&& occurs_at(s, sep, i + sep.len() + p.len()) || i + sep.len() + p.len() == s.len()
            &&& forall|j: int|
                i + sep.len() <= j < i + sep.len() + p.len() ==> !#[trigger] occurs_at(s, sep, j)
        },
{
    lemma_first_at(s, sep, 0);
    match first_at(s, sep, 0) {
        Some(i) => {
            let start = i + sep.len();
            lemma_first_at(s, sep, start);
            let p = second_piece(s, sep)->0;
            match first_at(s, sep, start) {
                Some(j) => {
                    assert(s.subrange(start, start + p.len()) == p);
                },
                None => {
                    assert(s.subrange(start, start + p.len()) =~= p);
                },
            }
            i
        },
        None => 0,
    }
}

// ---------------------------------------------------------------------------
// Taking off and replacing
// ---------------------------------------------------------------------------

/// Copies of a text before another are taken off, and nothing else is.
pub proof fn law_without_prefixes(s: Seq<char>, pat: Seq<char>)
    requires
        pat.len() > 0,
    ensures
        without_prefixes(pat + s, pat) == without_prefixes(s, pat),
        !begins(s, pat) ==> without_prefixes(s, pat) == s,
        !begins(without_prefixes(s, pat), pat),
    decreases s.len(),
{
    law_begins(s, pat);
    assert((pat + s).skip(pat.len() as int) == s);
    if begins(s, pat) {
        law_without_prefixes(s.skip(pat.len() as int), pat);
    }
}

/// Copies of a text behind another are taken off, and nothing else is.
pub proof fn law_without_suffixes(s: Seq<char>, pat: Seq<char>)
    requires
        pat.len() > 0,
    ensures
        without_suffixes(s + pat, pat) == without_suffixes(s, pat),
        !ends(s, pat) ==> without_suffixes(s, pat) == s,
        !ends(without_suffixes(s, pat), pat),
    decreases s.len(),
{
    law_ends(s, pat);
    assert((s + pat).take((s + pat).len() - pat.len()) == s);
    if ends(s, pat) {
        law_without_suffixes(s.take(s.len() - pat.len()), pat);
    }
}

/// The first place of a text in another is replaced, with what stands before it
/// kept and what stands after it treated alike; without such a place nothing
/// changes.
pub proof fn law_substituted(s: Seq<char>, pat: Seq<char>, with: Seq<char>)
    requires
        pat.len() > 0,
    ensures
        match first_at(s, pat, 0) {
            Some(i) => substituted(s, pat, with) == s.take(i) + with + substituted(
                s.skip(i + pat.len()),
                pat,
                with,
            ),
            None => substituted(s, pat, with) == s,
        },
    decreases s.len(),
{
    lemma_first_at(s, pat, 0);
    if s.len() == 0 {
        assert(first_at(s, pat, 0) is None);
    } else if begins(s, pat) {
        assert(s.take(0) + with + substituted(s.skip(pat.len() as int), pat, with) =~= with
            + substituted(s.skip(pat.len() as int), pat, with));
    } else {
        let t = s.skip(1);
        law_substituted(t, pat, with);
        lemma_first_at(t, pat, 0);
        assert forall|j: int| 0 <= j implies #[trigger] occurs_at(t, pat, j) == occurs_at(
            s,
            pat,
            j + 1,
        ) by {
            if j + pat.len() <= t.len() {
                assert(t.subrange(j, j + pat.len()) =~= s.subrange(j + 1, j + 1 + pat.len()));
            }
        }
        match first_at(s, pat, 0) {
            Some(i) => {
                assert(i > 0);
                assert(occurs_at(t, pat, i - 1));
                let k = first_at(t, pat, 0)->0;
                assert(k == i - 1) by {
                    if k < i - 1 {
                        assert(occurs_at(s, pat, k + 1));
                    }
                }
                assert(t.skip(k + pat.len()) =~= s.skip(i + pat.len()));
                assert(seq![s[0]] + (t.take(k) + with + substituted(
                    s.skip(i + pat.len()),
                    pat,
                    with,
                )) =~= s.take(i) + with + substituted(s.skip(i + pat.len()), pat, with));
            },
            None => {
                if let Some(k) = first_at(t, pat, 0) {
                    assert(occurs_at(s, pat, k + 1));
                }
                assert(seq![s[0]] + t =~= s);
            },
        }
    }
}

// ---------------------------------------------------------------------------
// Lower case
// ---------------------------------------------------------------------------

/// In lower case an ASCII text keeps its length and every character but the
/// capital letters, which become the letters that stand 32 behind them.
pub proof fn law_lowered(s: Seq<char>)
    requires
        is_ascii_chars(s),
    ensures
        lowered(s).len() == s.len(),
        is_ascii_chars(lowered(s)),
        lowered(lowered(s)) == lowered(s),
        forall|i: int|
            0 <= i < s.len() ==> (if 65 <= s[i] as u32 <= 90 {
                #[trigger] lowered(s)[i] as u32 == s[i] as u32 + 32
            } else {
                lowered(s)[i] == s[i]
            }),
{
    let l = lowered(s);
    assert forall|i: int| 0 <= i < l.len() implies '\0' <= #[trigger] l[i] <= '\u{7f}' by {
        assert('\0' <= s[i] <= '\u{7f}');
    }
    assert forall|i: int| 0 <= i < s.len() implies (if 65 <= s[i] as u32 <= 90 {
        #[trigger] lowered(s)[i] as u32 == s[i] as u32 + 32
    } else {
        lowered(s)[i] == s[i]
    }) by {
        assert('\0' <= s[i] <= '\u{7f}');
    }
    assert forall|i: int| 0 <= i < l.len() implies lowered(l)[i] == l[i] by {
        assert('\0' <= s[i] <= '\u{7f}');
    }
    assert(lowered(l) =~= l);
}

// ---------------------------------------------------------------------------
// Numbers
// ---------------------------------------------------------------------------

/// A number is written in digits, one at least, with at most one plus sign
/// before them; nothing else is a number.
pub proof fn law_number_form(s: Seq<char>)
    ensures
        number(s) is Some <==> {
            ||| s.len() > 0 && forall|i: int| 0 <= i < s.len() ==> '0' <= #[trigger] s[i] <= '9'
            ||| s.len() > 1 && s[0] == '+' && forall|i: int|
                1 <= i < s.len() ==> '0' <= #[trigger] s[i] <= '9'
        },
        s.len() > 0 && s[0] != '+' ==> number(seq!['+'] + s) == number(s),
{
    let u = unsigned(s);
    if s.len() > 0 && s[0] == '+' {
        assert(forall|i: int| 1 <= i < s.len() ==> s[i] == #[trigger] u[i - 1]);
        assert(forall|i: int| 0 <= i < u.len() ==> #[trigger] u[i] == s[i + 1]);
        if s.len() > 1 && forall|i: int| 1 <= i < s.len() ==> '0' <= #[trigger] s[i] <= '9' {
            assert forall|i: int| 0 <= i < u.len() implies is_digit(#[trigger] u[i]) by {
                assert(u[i] == s[i + 1]);
            }
        }
        if number(s) is Some {
            assert forall|i: int| 1 <= i < s.len() implies '0' <= #[trigger] s[i] <= '9' by {
                assert(is_digit(u[i - 1]));
            }
        }
        assert(!('0' <= s[0] <= '9'));
    } else {
        if number(s) is Some {
            assert forall|i: int| 0 <= i < s.len() implies '0' <= #[trigger] s[i] <= '9' by {
                assert(is_digit(u[i]));
            }
        }
        if s.len() > 0 && forall|i: int| 0 <= i < s.len() ==> '0' <= #[trigger] s[i] <= '9' {
            assert forall|i: int| 0 <= i < u.len() implies is_digit(#[trigger] u[i]) by {
                assert('0' <= s[i] <= '9');
            }
        }
    }
    if s.len() > 0 && s[0] != '+' {
        assert((seq!['+'] + s).skip(1) =~= s);
    }
}

/// A digit more makes a number ten times as great and adds the digit; a single
/// digit is its own value.
pub proof fn law_number_value(s: Seq<char>, c: char)
    requires
        48 <= c as u32 <= 57,
    ensures
        number(seq![c]) == Some((c as u32 - 48) as nat),
        number(s) matches Some(v) ==> number(s.push(c)) == Some(
            (10 * v + (c as u32 - 48)) as nat,
        ),
{
    let one = seq![c];
    assert(one.drop_last() =~= Seq::empty());
    assert(digits_value(Seq::<char>::empty()) == 0);
    assert(all_digits(one));
    if number(s) is Some {
        let u = unsigned(s);
        let t = unsigned(s.push(c));
        assert(t =~= u.push(c));
        assert(t.drop_last() =~= u);
        assert forall|i: int| 0 <= i < t.len() implies is_digit(#[trigger] t[i]) by {
            if i < u.len() {
                assert(is_digit(u[i]));
            }
        }
    }
}

/// A number counts within a limit exactly when it is no greater.
pub proof fn law_number_within(s: Seq<char>, max: nat)
    ensures
        forall|v: nat| number_within(s, max) == Some(v) <==> number(s) == Some(v) && v <= max,
{
}

/// A number in decimal is digits only and begins with a zero only if it is
/// zero.
pub proof fn law_decimal_is_plain(n: nat)
    ensures
        decimal(n).len() > 0,
        forall|i: int| 0 <= i < decimal(n).len() ==> 48 <= #[trigger] decimal(n)[i] as u32 <= 57,
        decimal(n)[0] == '0' ==> n == 0 && decimal(n).len() == 1,
        number(decimal(n)) == Some(n),
    decreases n,
{
    lemma_decimal_digits(n);
    let d = decimal(n);
    assert forall|i: int| 0 <= i < d.len() implies 48 <= #[trigger] d[i] as u32 <= 57 by {
        assert(is_digit(d[i]));
    }
    assert(is_digit(d[0]));
    if n >= 10 {
        law_decimal_is_plain(n / 10);
        assert(d[0] == decimal(n / 10)[0]);
    }
}

/// With zeros before it a number is as wide as asked for, or as its digits need.
pub proof fn law_padded_width(n: nat, width: nat)
    ensures
        decimal_padded(n, width).len() == if decimal(n).len() >= width {
            decimal(n).len()
        } else {
            width
        },
        ends(decimal_padded(n, width), decimal(n)),
{
    let d = decimal(n);
    let p = decimal_padded(n, width);
    if d.len() < width {
        let zeros = Seq::new((width - d.len()) as nat, |i: int| '0');
        law_ends(zeros, d);
    } else {
        law_ends(Seq::empty(), d);
        assert(Seq::<char>::empty() + d =~= d);
    }
}

} // verus!
