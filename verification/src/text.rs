//! Text as a sequence of characters: searching, splitting, trimming.

use vstd::prelude::*;

verus! {

/// Appends one character.
///
/// `String::push` of the standard library: the string grows by exactly the
/// given character at its end.
pub assume_specification[ String::push ](s: &mut String, c: char)
    ensures
        final(s)@ == old(s)@.push(c),
;

/// The characters of a string, in order.
pub fn to_chars(s: &str) -> (r: Vec<char>)
    ensures
        r@ == s@,
{
    let mut out: Vec<char> = Vec::new();
    for c in it: s.chars()
        invariant
            out@ == it.seq().take(it.index()),
            it.seq() == s@,
    {
        out.push(c);
    }
    out
}

/// The string made of the characters `v[from..to]`.
pub fn from_chars(v: &Vec<char>, from: usize, to: usize) -> (r: String)
    requires
        from <= to <= v.len(),
    ensures
        r@ == v@.subrange(from as int, to as int),
{
    let mut out = String::new();
    let mut i: usize = from;
    while i < to
        invariant
            from <= i <= to <= v.len(),
            out@ == v@.subrange(from as int, i as int),
        decreases to - i,
    {
        out.push(v[i]);
        i += 1;
    }
    out
}

/// Whether two strings hold the same characters.
pub fn same(a: &str, b: &str) -> (r: bool)
    ensures
        r == (a@ == b@),
{
    let x = to_chars(a);
    let y = to_chars(b);
    if x.len() != y.len() {
        return false;
    }
    let mut i: usize = 0;
    while i < x.len()
        invariant
            x.len() == y.len(),
            x@ == a@,
            y@ == b@,
            i <= x.len(),
            x@.take(i as int) == y@.take(i as int),
        decreases x.len() - i,
    {
        if x[i] != y[i] {
            assert(a@[i as int] != b@[i as int]);
            return false;
        }
        assert(x@.take(i + 1) == x@.take(i as int).push(x@[i as int]));
        assert(y@.take(i + 1) == y@.take(i as int).push(y@[i as int]));
        i += 1;
    }
    assert(x@.take(i as int) == x@);
    assert(y@.take(i as int) == y@);
    true
}

/// The two strings, one after the other.
pub fn join2(a: &str, b: &str) -> (r: String)
    ensures
        r@ == a@ + b@,
{
    let mut out = String::new();
    out.append(a);
    out.append(b);
    out
}

/// The three strings, one after the other.
pub fn join3(a: &str, b: &str, c: &str) -> (r: String)
    ensures
        r@ == a@ + b@ + c@,
{
    let mut out = String::new();
    out.append(a);
    out.append(b);
    out.append(c);
    out
}

// ---------------------------------------------------------------------------
// Finding a piece of text
// ---------------------------------------------------------------------------

/// `pat` stands in `s` at position `i`.
pub open spec fn occurs_at(s: Seq<char>, pat: Seq<char>, i: int) -> bool {
    &&& 0 <= i
    &&& i + pat.len() <= s.len()
    &&& s.subrange(i, i + pat.len()) == pat
}

/// `pat` stands somewhere in `s`.
pub open spec fn holds(s: Seq<char>, pat: Seq<char>) -> bool {
    exists|i: int| #[trigger] occurs_at(s, pat, i)
}

/// `s` begins with `pat`.
pub open spec fn begins(s: Seq<char>, pat: Seq<char>) -> bool {
    occurs_at(s, pat, 0)
}

/// `s` ends with `pat`.
pub open spec fn ends(s: Seq<char>, pat: Seq<char>) -> bool {
    occurs_at(s, pat, s.len() - pat.len())
}

/// The first position at or after `from` at which `pat` stands in `s`.
pub open spec fn first_at(s: Seq<char>, pat: Seq<char>, from: int) -> Option<int>
    decreases s.len() + 1 - from,
{
    if from < 0 || from + pat.len() > s.len() {
        None
    } else if occurs_at(s, pat, from) {
        Some(from)
    } else {
        first_at(s, pat, from + 1)
    }
}

/// `first_at` is the least position at which the text stands.
pub proof fn lemma_first_at(s: Seq<char>, pat: Seq<char>, from: int)
    requires
        0 <= from,
    ensures
        match first_at(s, pat, from) {
            Some(i) => from <= i && occurs_at(s, pat, i) && (forall|j: int|
                from <= j < i ==> !#[trigger] occurs_at(s, pat, j)),
            None => forall|j: int| from <= j ==> !#[trigger] occurs_at(s, pat, j),
        },
    decreases s.len() + 1 - from,
{
    if from + pat.len() <= s.len() && !occurs_at(s, pat, from) {
        lemma_first_at(s, pat, from + 1);
    }
}

/// A text holds another exactly when the other has a first position in it.
pub proof fn lemma_holds_first(s: Seq<char>, pat: Seq<char>)
    ensures
        holds(s, pat) == first_at(s, pat, 0) is Some,
{
    lemma_first_at(s, pat, 0);
    if holds(s, pat) {
        let i = choose|i: int| #[trigger] occurs_at(s, pat, i);
        assert(occurs_at(s, pat, i));
    }
}

/// Whether `pat` stands in `s` at position `i`.
pub fn stands_at(s: &Vec<char>, pat: &Vec<char>, i: usize) -> (r: bool)
    requires
        i <= s.len(),
    ensures
        r == occurs_at(s@, pat@, i as int),
{
    if pat.len() > s.len() - i {
        return false;
    }
    let mut k: usize = 0;
    while k < pat.len()
        invariant
            i <= s.len(),
            pat.len() <= s.len() - i,
            k <= pat.len(),
            s@.subrange(i as int, i + k) == pat@.take(k as int),
        decreases pat.len() - k,
    {
        if s[i + k] != pat[k] {
            assert(s@.subrange(i as int, i + pat@.len())[k as int] != pat@[k as int]);
            return false;
        }
        assert(s@.subrange(i as int, i + k + 1) == s@.subrange(i as int, i + k).push(
            s@[i + k],
        ));
        assert(pat@.take(k + 1) == pat@.take(k as int).push(pat@[k as int]));
        k += 1;
    }
    assert(pat@.take(k as int) == pat@);
    true
}

/// The first position at or after `from` at which `pat` stands in `s`.
pub fn find_from(s: &Vec<char>, pat: &Vec<char>, from: usize) -> (r: Option<usize>)
    requires
        from <= s.len(),
    ensures
        match r {
            Some(i) => first_at(s@, pat@, from as int) == Some(i as int) && i + pat.len()
                <= s.len(),
            None => first_at(s@, pat@, from as int) is None,
        },
{
    let mut i: usize = from;
    loop
        invariant
            from <= i <= s.len(),
            first_at(s@, pat@, from as int) == first_at(s@, pat@, i as int),
        decreases s.len() - i,
    {
        if pat.len() > s.len() - i {
            return None;
        }
        if stands_at(s, pat, i) {
            return Some(i);
        }
        if i == s.len() {
            assert(s@.subrange(i as int, i as int) == pat@);
            return None;
        }
        i += 1;
    }
}

/// Whether `s` holds `pat`.
pub fn contains(s: &str, pat: &str) -> (r: bool)
    ensures
        r == holds(s@, pat@),
{
    let x = to_chars(s);
    let y = to_chars(pat);
    proof {
        lemma_holds_first(s@, pat@);
    }
    find_from(&x, &y, 0).is_some()
}

/// Whether `s` begins with `pat`.
pub fn starts_with(s: &str, pat: &str) -> (r: bool)
    ensures
        r == begins(s@, pat@),
{
    let x = to_chars(s);
    let y = to_chars(pat);
    stands_at(&x, &y, 0)
}

/// Whether `s` ends with `pat`.
pub fn ends_with(s: &str, pat: &str) -> (r: bool)
    ensures
        r == ends(s@, pat@),
{
    let x = to_chars(s);
    let y = to_chars(pat);
    if y.len() > x.len() {
        return false;
    }
    stands_at(&x, &y, x.len() - y.len())
}

// ---------------------------------------------------------------------------
// White space
// ---------------------------------------------------------------------------

/// The characters with Unicode's White_Space property.
pub open spec fn white(c: char) -> bool {
    ||| '\u{9}' <= c <= '\u{d}'
    ||| c == '\u{20}'
    ||| c == '\u{85}'
    ||| c == '\u{a0}'
    ||| c == '\u{1680}'
    ||| '\u{2000}' <= c <= '\u{200a}'
    ||| c == '\u{2028}'
    ||| c == '\u{2029}'
    ||| c == '\u{202f}'
    ||| c == '\u{205f}'
    ||| c == '\u{3000}'
}

/// Whether `c` is white space.
pub fn is_white(c: char) -> (r: bool)
    ensures
        r == white(c),
{
    ('\u{9}' <= c && c <= '\u{d}') || c == '\u{20}' || c == '\u{85}' || c == '\u{a0}' || c
        == '\u{1680}' || ('\u{2000}' <= c && c <= '\u{200a}') || c == '\u{2028}' || c
        == '\u{2029}' || c == '\u{202f}' || c == '\u{205f}' || c == '\u{3000}'
}

/// `s` without the white space at its beginning.
pub open spec fn trimmed_left(s: Seq<char>) -> Seq<char>
    decreases s.len(),
{
    if s.len() > 0 && white(s[0]) {
        trimmed_left(s.skip(1))
    } else {
        s
    }
}

/// `s` without the white space at its end.
pub open spec fn trimmed_right(s: Seq<char>) -> Seq<char>
    decreases s.len(),
{
    if s.len() > 0 && white(s.last()) {
        trimmed_right(s.drop_last())
    } else {
        s
    }
}

/// `s` without the white space at either end.
pub open spec fn trimmed(s: Seq<char>) -> Seq<char> {
    trimmed_right(trimmed_left(s))
}

/// `s` without the white space at either end.
pub fn trim(s: &str) -> (r: String)
    ensures
        r@ == trimmed(s@),
{
    let v = to_chars(s);
    let mut a: usize = 0;
    assert(v@.skip(0) == v@);
    while a < v.len() && is_white(v[a])
        invariant
            a <= v.len(),
            trimmed_left(v@) == trimmed_left(v@.skip(a as int)),
        decreases v.len() - a,
    {
        assert(v@.skip(a as int).skip(1) == v@.skip(a + 1));
        a += 1;
    }
    let mut b: usize = v.len();
    assert(v@.skip(a as int) == v@.subrange(a as int, b as int));
    while a < b && is_white(v[b - 1])
        invariant
            a <= b <= v.len(),
            trimmed_left(v@) == v@.skip(a as int),
            trimmed_right(v@.skip(a as int)) == trimmed_right(v@.subrange(a as int, b as int)),
        decreases b - a,
    {
        assert(v@.subrange(a as int, b as int).drop_last() == v@.subrange(a as int, b - 1));
        b -= 1;
    }
    from_chars(&v, a, b)
}

/// The stretches of `s` between white space.
pub open spec fn words(s: Seq<char>) -> Seq<Seq<char>>
    decreases s.len(),
{
    if s.len() == 0 {
        Seq::empty()
    } else {
        let before = words(s.drop_last());
        if white(s.last()) {
            before
        } else if s.len() >= 2 && !white(s[s.len() - 2]) {
            before.drop_last().push(before.last().push(s.last()))
        } else {
            before.push(seq![s.last()])
        }
    }
}

/// A text that ends in something else than white space has a last word.
proof fn lemma_words_last(s: Seq<char>)
    requires
        s.len() > 0,
        !white(s.last()),
    ensures
        words(s).len() > 0,
    decreases s.len(),
{
    if s.len() >= 2 && !white(s[s.len() - 2]) {
        lemma_words_last(s.drop_last());
    }
}

/// The views of a list of strings.
pub open spec fn views(v: Seq<String>) -> Seq<Seq<char>> {
    v.map_values(|x: String| x@)
}

/// The stretches of `s` between white space.
pub fn split_words(s: &str) -> (r: Vec<String>)
    ensures
        views(r@) == words(s@),
{
    let v = to_chars(s);
    let mut out: Vec<String> = Vec::new();
    let mut i: usize = 0;
    assert(views(out@) == words(v@.take(0)));
    while i < v.len()
        invariant
            i <= v.len(),
            views(out@) == words(v@.take(i as int)),
            v@ == s@,
        decreases v.len() - i,
    {
        let c = v[i];
        let ghost t = v@.take(i + 1);
        assert(t.drop_last() == v@.take(i as int));
        assert(t.last() == c);
        if !is_white(c) {
            if i > 0 && !is_white(v[i - 1]) {
                proof {
                    lemma_words_last(v@.take(i as int));
                }
                let ghost before = views(out@);
                assert(out@.len() == before.len());
                if let Some(w) = out.pop() {
                    let mut w = w;
                    let ghost rest = out@;
                    assert(before.last() == w@);
                    assert(views(rest) == before.drop_last());
                    w.push(c);
                    out.push(w);
                    assert(views(out@) == views(rest).push(w@));
                }
            } else {
                let mut w = String::new();
                w.push(c);
                let ghost rest = out@;
                assert(w@ == seq![c]);
                out.push(w);
                assert(views(out@) == views(rest).push(w@));
            }
        }
        i += 1;
    }
    assert(v@.take(i as int) == s@);
    out
}

// ---------------------------------------------------------------------------
// Splitting at a character
// ---------------------------------------------------------------------------

/// The pieces of `s` between the characters `sep`: one more than there are.
pub open spec fn pieces(s: Seq<char>, sep: char) -> Seq<Seq<char>>
    decreases s.len(),
{
    if s.len() == 0 {
        seq![Seq::empty()]
    } else {
        let before = pieces(s.drop_last(), sep);
        if s.last() == sep {
            before.push(Seq::empty())
        } else {
            before.drop_last().push(before.last().push(s.last()))
        }
    }
}

/// There is always at least one piece.
pub proof fn lemma_pieces_nonempty(s: Seq<char>, sep: char)
    ensures
        pieces(s, sep).len() > 0,
    decreases s.len(),
{
    if s.len() > 0 {
        lemma_pieces_nonempty(s.drop_last(), sep);
    }
}

/// The pieces of two texts with the separator between them are the pieces of
/// the one and then those of the other.
pub proof fn lemma_pieces_joined(a: Seq<char>, sep: char, b: Seq<char>)
    ensures
        pieces(a.push(sep) + b, sep) == pieces(a, sep) + pieces(b, sep),
    decreases b.len(),
{
    let s = a.push(sep) + b;
    if b.len() == 0 {
        assert(s == a.push(sep));
        assert(s.drop_last() == a);
        assert(pieces(a, sep) + pieces(b, sep) =~= pieces(a, sep).push(Seq::empty()));
    } else {
        lemma_pieces_joined(a, sep, b.drop_last());
        lemma_pieces_nonempty(b.drop_last(), sep);
        assert(s.drop_last() == a.push(sep) + b.drop_last());
        assert(s.last() == b.last());
        let front = pieces(a, sep);
        let back = pieces(b.drop_last(), sep);
        assert((front + back).last() == back.last());
        assert((front + back).drop_last() == front + back.drop_last());
        assert(pieces(s, sep) =~= front + pieces(b, sep));
    }
}

/// A text without the separator is one piece.
pub proof fn lemma_one_piece(s: Seq<char>, sep: char)
    requires
        forall|i: int| 0 <= i < s.len() ==> #[trigger] s[i] != sep,
    ensures
        pieces(s, sep) == seq![s],
    decreases s.len(),
{
    if s.len() == 0 {
        assert(s =~= Seq::empty());
    } else {
        let front = s.drop_last();
        assert forall|i: int| 0 <= i < front.len() implies #[trigger] front[i] != sep by {
            assert(s[i] != sep);
        }
        lemma_one_piece(front, sep);
        assert(s[s.len() - 1] != sep);
        assert(front.push(s.last()) == s);
        assert(pieces(s, sep) =~= seq![s]);
    }
}

/// The pieces of `s` between the characters `sep`.
pub fn split_at_char(s: &str, sep: char) -> (r: Vec<String>)
    ensures
        views(r@) == pieces(s@, sep),
        r.len() > 0,
{
    let v = to_chars(s);
    let mut out: Vec<String> = Vec::new();
    let mut cur = String::new();
    let mut i: usize = 0;
    assert(views(out@).push(cur@) == pieces(v@.take(0), sep));
    while i < v.len()
        invariant
            i <= v.len(),
            views(out@).push(cur@) == pieces(v@.take(i as int), sep),
            v@ == s@,
        decreases v.len() - i,
    {
        let c = v[i];
        let ghost t = v@.take(i + 1);
        let ghost before = views(out@).push(cur@);
        assert(t.drop_last() == v@.take(i as int));
        assert(t.last() == c);
        assert(before.drop_last() == views(out@));
        assert(before.last() == cur@);
        if c == sep {
            let ghost rest = out@;
            let ghost w = cur@;
            out.push(cur);
            cur = String::new();
            assert(views(out@) == views(rest).push(w));
            assert(views(out@).push(cur@) == before.push(Seq::empty()));
        } else {
            cur.push(c);
        }
        i += 1;
    }
    assert(v@.take(i as int) == s@);
    let ghost rest = out@;
    let ghost w = cur@;
    out.push(cur);
    assert(views(out@) == views(rest).push(w));
    out
}

/// What stands before and after the first `sep` of `s`.
pub open spec fn halves(s: Seq<char>, sep: char) -> Option<(Seq<char>, Seq<char>)> {
    match first_at(s, seq![sep], 0) {
        Some(i) => Some((s.take(i), s.skip(i + 1))),
        None => None,
    }
}

/// What stands before and after the first `sep` of `s`.
pub fn split_once(s: &str, sep: char) -> (r: Option<(String, String)>)
    ensures
        match r {
            Some(p) => halves(s@, sep) == Some((p.0@, p.1@)),
            None => halves(s@, sep) is None,
        },
{
    let v = to_chars(s);
    let mut pat: Vec<char> = Vec::new();
    pat.push(sep);
    assert(pat@ == seq![sep]);
    match find_from(&v, &pat, 0) {
        Some(i) => {
            let a = from_chars(&v, 0, i);
            let b = from_chars(&v, i + 1, v.len());
            assert(a@ == s@.take(i as int));
            assert(b@ == s@.skip(i + 1));
            Some((a, b))
        },
        None => None,
    }
}

/// What stands between the first and the second `sep`, or after the first if
/// there is no second.
pub open spec fn second_piece(s: Seq<char>, sep: Seq<char>) -> Option<Seq<char>> {
    match first_at(s, sep, 0) {
        Some(i) => {
            let start = i + sep.len();
            match first_at(s, sep, start) {
                Some(j) => Some(s.subrange(start, j)),
                None => Some(s.skip(start)),
            }
        },
        None => None,
    }
}

/// What stands between the first and the second `sep`, or after the first if
/// there is no second.
pub fn second_of(s: &str, sep: &str) -> (r: Option<String>)
    ensures
        match r {
            Some(p) => second_piece(s@, sep@) == Some(p@),
            None => second_piece(s@, sep@) is None,
        },
{
    let v = to_chars(s);
    let pat = to_chars(sep);
    match find_from(&v, &pat, 0) {
        Some(i) => {
            let start: usize = i + pat.len();
            match find_from(&v, &pat, start) {
                Some(j) => {
                    proof {
                        lemma_first_at(v@, pat@, start as int);
                    }
                    Some(from_chars(&v, start, j))
                },
                None => {
                    let p = from_chars(&v, start, v.len());
                    assert(p@ == s@.skip(start as int));
                    Some(p)
                },
            }
        },
        None => None,
    }
}

// ---------------------------------------------------------------------------
// Taking off and replacing
// ---------------------------------------------------------------------------

/// `s` without the copies of `pat` at its beginning.
pub open spec fn without_prefixes(s: Seq<char>, pat: Seq<char>) -> Seq<char>
    decreases s.len(),
{
    if pat.len() > 0 && begins(s, pat) {
        without_prefixes(s.skip(pat.len() as int), pat)
    } else {
        s
    }
}

/// `s` without the copies of `pat` at its end.
pub open spec fn without_suffixes(s: Seq<char>, pat: Seq<char>) -> Seq<char>
    decreases s.len(),
{
    if pat.len() > 0 && ends(s, pat) {
        without_suffixes(s.take(s.len() - pat.len()), pat)
    } else {
        s
    }
}

/// `s` without the copies of `pat` at its beginning.
pub fn strip_prefixes(s: &str, pat: &str) -> (r: String)
    ensures
        r@ == without_prefixes(s@, pat@),
{
    let v = to_chars(s);
    let p = to_chars(pat);
    let mut a: usize = 0;
    assert(v@.skip(0) == v@);
    if p.len() > 0 {
        while stands_at(&v, &p, a)
            invariant
                a <= v.len(),
                p.len() > 0,
                without_prefixes(v@, p@) == without_prefixes(v@.skip(a as int), p@),
            decreases v.len() - a,
        {
            assert(v@.skip(a as int).subrange(0, p@.len() as int) == v@.subrange(
                a as int,
                a + p@.len(),
            ));
            assert(v@.skip(a as int).skip(p@.len() as int) == v@.skip(a + p@.len()));
            a += p.len();
        }
        proof {
            if begins(v@.skip(a as int), p@) {
                assert(v@.skip(a as int).subrange(0, p@.len() as int) == v@.subrange(
                    a as int,
                    a + p@.len(),
                ));
            }
        }
    }
    let r = from_chars(&v, a, v.len());
    assert(r@ == v@.skip(a as int));
    r
}

/// `s` without the copies of `pat` at its end.
pub fn strip_suffixes(s: &str, pat: &str) -> (r: String)
    ensures
        r@ == without_suffixes(s@, pat@),
{
    let v = to_chars(s);
    let p = to_chars(pat);
    let mut b: usize = v.len();
    assert(v@.take(b as int) == v@);
    if p.len() > 0 {
        while p.len() <= b && stands_at(&v, &p, b - p.len())
            invariant
                b <= v.len(),
                p.len() > 0,
                without_suffixes(v@, p@) == without_suffixes(v@.take(b as int), p@),
            decreases b,
        {
            assert(v@.take(b as int).subrange(b - p@.len(), b as int) == v@.subrange(
                b - p@.len(),
                b as int,
            ));
            assert(v@.take(b as int).take(b - p@.len()) == v@.take(b - p@.len()));
            b -= p.len();
        }
        proof {
            if ends(v@.take(b as int), p@) {
                assert(v@.take(b as int).subrange(b - p@.len(), b as int) == v@.subrange(
                    b - p@.len(),
                    b as int,
                ));
            }
        }
    }
    let r = from_chars(&v, 0, b);
    assert(r@ == v@.take(b as int));
    r
}

/// `s` with each `pat`, taken from the left, replaced by `with`.
pub open spec fn substituted(s: Seq<char>, pat: Seq<char>, with: Seq<char>) -> Seq<char>
    decreases s.len(),
{
    if s.len() == 0 || pat.len() == 0 {
        s
    } else if begins(s, pat) {
        with + substituted(s.skip(pat.len() as int), pat, with)
    } else {
        seq![s[0]] + substituted(s.skip(1), pat, with)
    }
}

/// `s` with each `pat`, taken from the left, replaced by `with`.
pub fn substitute(s: &str, pat: &str, with: &str) -> (r: String)
    requires
        pat@.len() > 0,
    ensures
        r@ == substituted(s@, pat@, with@),
{
    let v = to_chars(s);
    let p = to_chars(pat);
    let mut out = String::new();
    let mut i: usize = 0;
    assert(v@.skip(0) == v@);
    while i < v.len()
        invariant
            i <= v.len(),
            p@ == pat@,
            p.len() > 0,
            out@ + substituted(v@.skip(i as int), p@, with@) == substituted(v@, p@, with@),
        decreases v.len() - i,
    {
        let ghost t = v@.skip(i as int);
        if stands_at(&v, &p, i) {
            assert(t.subrange(0, p@.len() as int) == v@.subrange(i as int, i + p@.len()));
            assert(t.skip(p@.len() as int) == v@.skip(i + p@.len()));
            let ghost before = out@;
            out.append(with);
            i += p.len();
            assert(before + (with@ + substituted(v@.skip(i as int), p@, with@)) == out@
                + substituted(v@.skip(i as int), p@, with@));
        } else {
            proof {
                if begins(t, p@) {
                    assert(t.subrange(0, p@.len() as int) == v@.subrange(
                        i as int,
                        i + p@.len(),
                    ));
                }
            }
            assert(t.skip(1) == v@.skip(i + 1));
            let ghost before = out@;
            out.push(v[i]);
            i += 1;
            assert(before + (seq![t[0]] + substituted(v@.skip(i as int), p@, with@)) == out@
                + substituted(v@.skip(i as int), p@, with@));
        }
    }
    assert(v@.skip(i as int) == Seq::<char>::empty());
    assert(out@ + Seq::<char>::empty() == out@);
    out
}

// ---------------------------------------------------------------------------
// Lower case
// ---------------------------------------------------------------------------

/// The lower-case form of a letter `A` to `Z`; any other character itself.
pub open spec fn lower_letter(c: char) -> char {
    if 'A' <= c <= 'Z' {
        (c as u32 + 32) as char
    } else {
        c
    }
}

/// The capital letter of an ASCII letter; other characters stay.
pub open spec fn upper_letter(c: char) -> char {
    if 'a' <= c <= 'z' {
        (c as u32 - 32) as char
    } else {
        c
    }
}

/// What `str::to_lowercase` gives for a text.
pub uninterp spec fn unicode_lowercase(s: Seq<char>) -> Seq<char>;

/// The lower-case form of a text: letter by letter where the text is ASCII,
/// by Unicode's rules where it is not.
pub open spec fn lowered(s: Seq<char>) -> Seq<char> {
    if vstd::utf8::is_ascii_chars(s) {
        s.map_values(|c: char| lower_letter(c))
    } else {
        unicode_lowercase(s)
    }
}

/// `str::to_lowercase` of the standard library. The result is named and
/// nothing more is claimed of it: it depends on the text alone, through
/// Unicode's tables.
#[verifier::external_body]
fn std_lowercase(s: &str) -> (r: String)
    ensures
        r@ == unicode_lowercase(s@),
{
    s.to_lowercase()
}

/// The lower-case form of `s`.
pub fn lowercase(s: &str) -> (r: String)
    ensures
        r@ == lowered(s@),
{
    if !s.is_ascii() {
        return std_lowercase(s);
    }
    let v = to_chars(s);
    let mut out = String::new();
    let mut i: usize = 0;
    while i < v.len()
        invariant
            v@ == s@,
            i <= v.len(),
            out@ == s@.take(i as int).map_values(|c: char| lower_letter(c)),
        decreases v.len() - i,
    {
        let c = v[i];
        let ghost before = out@;
        if 'A' <= c && c <= 'Z' {
            out.push((c as u8 + 32) as char);
        } else {
            out.push(c);
        }
        assert(out@ == before.push(lower_letter(c)));
        assert(s@.take(i + 1) == s@.take(i as int).push(c));
        assert(s@.take(i + 1).map_values(|c: char| lower_letter(c)) == s@.take(
            i as int,
        ).map_values(|c: char| lower_letter(c)).push(lower_letter(c)));
        i += 1;
    }
    assert(s@.take(i as int) == s@);
    out
}

} // verus!
