//! What holds of the calls of yt-dlp and of what is read from its output.

use crate::text::begins;
use crate::text::ends;
use crate::text::lemma_one_piece;
use crate::text::occurs_at;
use crate::text::second_piece;
use crate::text::trimmed;
use crate::text::white;
use crate::text::without_suffixes;
use crate::text::words;
use crate::text_laws::law_ends;
use crate::text_laws::law_one_word;
use crate::text_laws::law_second_piece;
use crate::text_laws::law_trimming_finds_the_text;
use crate::text_laws::law_without_suffixes;
use crate::text_laws::law_words_parted;
use crate::types::DownloadItem;
use crate::ytdlp::arguments;
use crate::ytdlp::clock_secs;
use crate::ytdlp::eta_value;
use crate::ytdlp::first_percent;
use crate::ytdlp::is_text;
use crate::ytdlp::numbers;
use crate::ytdlp::percent_text;
use crate::ytdlp::speed_parts;
use crate::ytdlp::word_after;
use vstd::prelude::*;

verus! {

/// The option `name` is followed by `value` in a list of arguments.
pub open spec fn option_is(args: Seq<Seq<char>>, name: Seq<char>, value: Seq<char>) -> bool {
    exists|i: int| 0 <= i < args.len() - 1 && #[trigger] args[i] == name && args[i + 1] == value
}

/// yt-dlp is asked for the format of the download, or for the best where none is
/// set, to be merged to MP4 and put into the download's folder under its title;
/// it prints its progress line by line, and the last argument is the address.
pub proof fn law_arguments(item: DownloadItem)
    ensures
        arguments(item).len() > 0,
        arguments(item).last() == item.url@,
        item.format matches Some(f) ==> option_is(arguments(item), "--format"@, f@),
        item.format is None ==> option_is(
            arguments(item),
            "--format"@,
            "bestvideo+bestaudio/best"@,
        ),
        option_is(arguments(item), "--merge-output-format"@, "mp4"@),
        option_is(arguments(item), "--output"@, item.save_path@ + "/%(title)s.%(ext)s"@),
        option_is(arguments(item), "--ffmpeg-location"@, "."@),
        arguments(item).contains("--no-playlist"@),
        arguments(item).contains("--progress"@),
        arguments(item).contains("--newline"@),
        arguments(item).contains("--no-colors"@),
{
    let a = arguments(item);
    assert(a[1] == "--format"@);
    assert(a[3] == "--merge-output-format"@);
    assert(a[5] == "--output"@);
    assert(a[10] == "--ffmpeg-location"@);
    assert(a[0] == "--no-playlist"@);
    assert(a[7] == "--progress"@);
    assert(a[8] == "--newline"@);
    assert(a[9] == "--no-colors"@);
}

// ---------------------------------------------------------------------------
// Progress lines
// ---------------------------------------------------------------------------

/// White space before a text adds no word.
proof fn lemma_leading_white(space: Seq<char>, s: Seq<char>)
    requires
        forall|k: int| 0 <= k < space.len() ==> white(#[trigger] space[k]),
    ensures
        words(space + s) == words(s),
    decreases space.len(),
{
    if space.len() == 0 {
        assert(space + s =~= s);
    } else {
        let rest = space.skip(1);
        assert forall|k: int| 0 <= k < rest.len() implies white(#[trigger] rest[k]) by {
            assert(rest[k] == space[k + 1]);
        }
        lemma_leading_white(rest, s);
        assert(white(space[0]));
        law_words_parted(Seq::empty(), space[0], rest + s);
        assert(Seq::<char>::empty().push(space[0]) + (rest + s) =~= space + s);
        assert(words(Seq::<char>::empty()) + words(rest + s) =~= words(rest + s));
    }
}

/// The words of a text that begins with the word `w`, set off from the rest.
proof fn lemma_leading_word(w: Seq<char>, rest: Seq<char>)
    requires
        w.len() > 0,
        forall|k: int| 0 <= k < w.len() ==> !white(#[trigger] w[k]),
        rest.len() > 0 ==> white(rest[0]),
    ensures
        words(w + rest) == seq![w] + words(rest),
{
    law_one_word(w);
    if rest.len() == 0 {
        assert(w + rest =~= w);
        assert(seq![w] + words(rest) =~= seq![w]);
    } else {
        let more = rest.skip(1);
        law_words_parted(w, rest[0], more);
        assert(w.push(rest[0]) + more =~= w + rest);
        law_words_parted(Seq::empty(), rest[0], more);
        assert(Seq::<char>::empty().push(rest[0]) + more =~= rest);
        assert(words(Seq::<char>::empty()) + words(more) =~= words(more));
    }
}

/// The first word behind a mark is found, however much white space parts it
/// from the mark, if the mark stands neither before nor between the two.
pub proof fn law_word_after_the_mark(
    before: Seq<char>,
    mark: Seq<char>,
    space: Seq<char>,
    w: Seq<char>,
    rest: Seq<char>,
)
    requires
        w.len() > 0,
        forall|k: int| 0 <= k < space.len() ==> white(#[trigger] space[k]),
        forall|k: int| 0 <= k < w.len() ==> !white(#[trigger] w[k]),
        rest.len() > 0 ==> white(rest[0]),
        forall|j: int|
            0 <= j < before.len() ==> !#[trigger] occurs_at(
                before + mark + space + w + rest,
                mark,
                j,
            ),
        forall|j: int|
            before.len() + mark.len() <= j < before.len() + mark.len() + space.len() + w.len()
                ==> !#[trigger] occurs_at(before + mark + space + w + rest, mark, j),
    ensures
        word_after(before + mark + space + w + rest, mark) == Some(w),
{
    let line = before + mark + space + w + rest;
    let start: int = (before.len() + mark.len()) as int;
    assert(line.subrange(before.len() as int, start) =~= mark);
    assert(occurs_at(line, mark, before.len() as int));
    assert(crate::text::holds(line, mark));
    let i = law_second_piece(line, mark);
    assert(i == before.len());
    let p = second_piece(line, mark)->0;
    assert(p == line.subrange(start, start + p.len()));
    let n = space.len() + w.len();
    assert(p.len() >= n) by {
        if p.len() < n {
            let j = start + p.len();
            assert(occurs_at(line, mark, j));
        }
    }
    let tail = p.skip(n as int);
    assert(p =~= space + (w + tail)) by {
        assert forall|k: int| 0 <= k < p.len() implies p[k] == (space + (w + tail))[k] by {
            assert(p[k] == line[start + k]);
        }
    }
    if tail.len() > 0 {
        assert(tail[0] == line[start + n]);
        assert(line[start + n] == rest[0]);
    }
    lemma_leading_white(space, w + tail);
    lemma_leading_word(w, tail);
}

/// A line without the mark has no word behind it.
pub proof fn law_no_word_without_the_mark(line: Seq<char>, mark: Seq<char>)
    requires
        !crate::text::holds(line, mark),
    ensures
        word_after(line, mark) is None,
{
    law_second_piece(line, mark);
}

/// The percentage of a line is the first word that ends in a percent sign,
/// without the sign.
pub proof fn law_percentage(before: Seq<char>, p: Seq<char>, rest: Seq<char>)
    requires
        p.len() > 0,
        forall|k: int| 0 <= k < p.len() ==> !white(#[trigger] p[k]),
        p.last() != '%',
        rest.len() > 0 ==> white(rest[0]),
        forall|k: int|
            0 <= k < words(before).len() ==> (#[trigger] words(before)[k]).len() == 0 || words(
                before,
            )[k].last() != '%',
    ensures
        percent_text(before.push(' ') + (p.push('%') + rest)) == Some(p),
{
    reveal_strlit("%");
    let sign = "%"@;
    let w = p.push('%');
    assert(w =~= p + sign);
    assert forall|k: int| 0 <= k < w.len() implies !white(#[trigger] w[k]) by {
        if k < p.len() {
            assert(w[k] == p[k]);
        }
    }
    law_words_parted(before, ' ', w + rest);
    lemma_leading_word(w, rest);
    let ws = words(before) + (seq![w] + words(rest));
    let n = words(before).len() as int;
    assert forall|k: int| 0 <= k < n implies !ends(#[trigger] ws[k], sign) by {
        assert(ws[k] == words(before)[k]);
        law_ends(ws[k], sign);
        if ends(ws[k], sign) {
            assert((ws[k].take(ws[k].len() - 1) + sign).last() == '%');
        }
    }
    lemma_first_percent(ws, 0, n);
    assert(ws[n] == w);
    law_ends(p, sign);
    law_ends(w, sign);
    if ends(p, sign) {
        assert((p.take(p.len() - 1) + sign).last() == '%');
    }
    law_without_suffixes(p, sign);
}

/// Words that do not end in a percent sign are passed over.
proof fn lemma_first_percent(ws: Seq<Seq<char>>, from: int, n: int)
    requires
        0 <= from <= n <= ws.len(),
        forall|k: int| from <= k < n ==> !ends(#[trigger] ws[k], "%"@),
    ensures
        first_percent(ws, from) == first_percent(ws, n),
    decreases n - from,
{
    if from < n {
        assert(!ends(ws[from], "%"@));
        lemma_first_percent(ws, from + 1, n);
    }
}

/// A line none of whose words ends in a percent sign has no percentage.
pub proof fn law_no_percentage(line: Seq<char>)
    requires
        forall|k: int| 0 <= k < words(line).len() ==> !ends(#[trigger] words(line)[k], "%"@),
    ensures
        percent_text(line) is None,
{
    lemma_first_percent(words(line), 0, words(line).len() as int);
}

// ---------------------------------------------------------------------------
// Speeds and times
// ---------------------------------------------------------------------------

/// A speed is a number and its unit: a unit is worth 1024 of the one below it.
pub proof fn law_speed(n: Seq<char>)
    requires
        n.len() > 0,
        !white(n[0]),
        !white(n.last()),
        n.last() != 's',
    ensures
        speed_parts(n + "KiB/s"@) == Some((n, 1024u64)),
        speed_parts(n + "MiB/s"@) == Some((n, (1024 * 1024) as u64)),
        speed_parts(n + "GiB/s"@) == Some((n, (1024 * 1024 * 1024) as u64)),
        speed_parts(n) is None,
{
    reveal_strlit("KiB/s");
    reveal_strlit("MiB/s");
    reveal_strlit("GiB/s");
    let k = "KiB/s"@;
    let m = "MiB/s"@;
    let g = "GiB/s"@;
    lemma_unit(n, k);
    lemma_unit(n, m);
    lemma_unit(n, g);
    lemma_other_unit(n, k, m);
    lemma_other_unit(n, k, g);
    lemma_other_unit(n, m, g);
}

/// A number with a unit behind it ends with the unit, and is the number once
/// the unit is off.
proof fn lemma_unit(n: Seq<char>, unit: Seq<char>)
    requires
        n.len() > 0,
        !white(n[0]),
        !white(n.last()),
        n.last() != 's',
        unit.len() == 5,
        unit[4] == 's',
    ensures
        trimmed(n + unit) == n + unit,
        ends(n + unit, unit),
        without_suffixes(n + unit, unit) == n,
        trimmed(n) == n,
        !ends(n, unit),
{
    let s = n + unit;
    assert(s.last() == 's');
    law_trimming_finds_the_text(Seq::empty(), s, Seq::empty());
    law_trimming_finds_the_text(Seq::empty(), n, Seq::empty());
    law_ends(n, unit);
    if ends(n, unit) {
        assert((n.take(n.len() - 5) + unit).last() == unit[4]);
    }
    law_without_suffixes(n, unit);
}

/// A number with a unit does not end with another unit.
proof fn lemma_other_unit(n: Seq<char>, unit: Seq<char>, other: Seq<char>)
    requires
        unit.len() == 5,
        other.len() == 5,
        unit[0] != other[0],
    ensures
        !ends(n + unit, other),
{
    let s = n + unit;
    if ends(s, other) {
        assert(s.subrange(s.len() - 5, s.len() as int)[0] == unit[0]);
    }
}

/// A text without a colon is no time.
pub proof fn law_no_colon_no_time(s: Seq<char>)
    requires
        !s.contains(':'),
    ensures
        eta_value(s) == 0,
{
    assert forall|i: int| 0 <= i < s.len() implies #[trigger] s[i] != ':' by {
        assert(s.contains(s[i]));
    }
    lemma_one_piece(s, ':');
    reveal_with_fuel(numbers, 2);
    assert(seq![s].drop_last() =~= Seq::empty());
}

/// Two numbers are minutes and seconds, three are hours, minutes and seconds,
/// and any other count is no time.
pub proof fn law_clock(ns: Seq<nat>)
    ensures
        ns.len() == 2 ==> clock_secs(ns) == 60 * ns[0] + ns[1],
        ns.len() == 3 ==> clock_secs(ns) == 60 * (60 * ns[0] + ns[1]) + ns[2],
        ns.len() != 2 && ns.len() != 3 ==> clock_secs(ns) == 0,
{
}

/// What is no number in a time is passed over.
pub proof fn law_numbers_pass_over_the_rest(ps: Seq<Seq<char>>, p: Seq<char>)
    ensures
        numbers(ps.push(p)) == match crate::number::number_u64(p) {
            Some(v) => numbers(ps).push(v),
            None => numbers(ps),
        },
        numbers(Seq::empty()) == Seq::<nat>::empty(),
{
    assert(ps.push(p).drop_last() =~= ps);
}

/// Of a wanted text exactly that text is found, and nothing where none is
/// wanted.
pub proof fn law_wanted_text(found: Option<String>, wanted: Option<Seq<char>>)
    requires
        is_text(found, wanted),
    ensures
        found is Some <==> wanted is Some,
        found matches Some(s) ==> wanted->0 == s@,
{
}

} // verus!
