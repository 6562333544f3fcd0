//! What holds of names, kinds of files and times in words.

use crate::filename::char_or_zero;
use crate::filename::guessed;
use crate::filename::hex_value;
use crate::filename::last_part;
use crate::filename::law_decoding_leaves_plain_text;
use crate::filename::made_up_name;
use crate::filename::made_up_of;
use crate::filename::past_escape;
use crate::filename::percent_decoded;
use crate::number::decimal;
use crate::number::number;
use crate::platform::uuid_text;
use crate::platform::Timestamp;
use crate::text::begins;
use crate::text::ends;
use crate::text::lemma_one_piece;
use crate::text::lemma_pieces_joined;
use crate::text::lowered;
use crate::text::pieces;
use crate::text_laws::law_begins;
use crate::text_laws::law_decimal_is_plain;
use crate::text_laws::law_ends;
use crate::types::category_of;
use crate::types::eta_words;
use crate::types::extension;
use crate::types::fresh_item;
use vstd::prelude::*;

verus! {

// ---------------------------------------------------------------------------
// Names of files
// ---------------------------------------------------------------------------

/// A text without a character is one piece.
proof fn lemma_no_piece(s: Seq<char>, sep: char)
    requires
        !s.contains(sep),
    ensures
        pieces(s, sep) == seq![s],
{
    assert forall|i: int| 0 <= i < s.len() implies #[trigger] s[i] != sep by {
        assert(s.contains(s[i]));
    }
    lemma_one_piece(s, sep);
}

/// The last part of an address is what stands behind its last slash; a query
/// does not count.
pub proof fn law_last_part(front: Seq<char>, name: Seq<char>, query: Seq<char>)
    requires
        !front.contains('?'),
        !name.contains('?'),
        !name.contains('/'),
    ensures
        last_part(front.push('/') + name) == name,
        last_part((front.push('/') + name).push('?') + query) == name,
        last_part(name) == name,
        last_part(name.push('?') + query) == name,
{
    let url = front.push('/') + name;
    if url.contains('?') {
        let k = choose|k: int| 0 <= k < url.len() && url[k] == '?';
        if k < front.len() {
            assert(front[k] == '?');
        } else if k > front.len() {
            assert(name[k - front.len() - 1] == '?');
        }
    }
    lemma_no_piece(url, '?');
    lemma_no_piece(name, '?');
    lemma_no_piece(name, '/');
    lemma_pieces_joined(url, '?', query);
    lemma_pieces_joined(name, '?', query);
    lemma_pieces_joined(front, '/', name);
    assert((pieces(front, '/') + seq![name]).last() == name);
}

/// An address that ends in a plain name gives the file that name.
pub proof fn law_plain_name_is_taken(
    front: Seq<char>,
    name: Seq<char>,
    query: Seq<char>,
    got: Seq<char>,
)
    requires
        !front.contains('?'),
        !name.contains('?'),
        !name.contains('/'),
        !name.contains('%'),
        name.len() > 0,
        guessed((front.push('/') + name).push('?') + query, got) || guessed(
            front.push('/') + name,
            got,
        ),
    ensures
        got == name,
{
    law_last_part(front, name, query);
    law_decoding_leaves_plain_text(name);
}

/// An address that ends in a slash gives a name of eight hexadecimal digits
/// between `download_` and `.bin`.
pub proof fn law_made_up_name(front: Seq<char>, got: Seq<char>)
    requires
        !front.contains('?'),
        guessed(front.push('/'), got),
    ensures
        begins(got, "download_"@),
        ends(got, ".bin"@),
        got.len() == "download_"@.len() + 8 + ".bin"@.len(),
        forall|i: int|
            "download_"@.len() <= i < "download_"@.len() + 8 ==> '0' <= #[trigger] got[i] <= '9'
                || 'a' <= got[i] <= 'f',
{
    let none = Seq::<char>::empty();
    law_last_part(front, none, none);
    assert(front.push('/') + none =~= front.push('/'));
    assert(made_up_name(got));
    let d = choose|d: Seq<char>|
        {
            &&& d.len() == 8
            &&& forall|i: int| 0 <= i < 8 ==> crate::platform::lower_hex(#[trigger] d[i])
            &&& #[trigger] made_up_of(d) == got
        };
    let n = "download_"@.len() as int;
    law_begins(d + ".bin"@, "download_"@);
    assert(got =~= "download_"@ + (d + ".bin"@));
    law_ends("download_"@ + d, ".bin"@);
    assert forall|i: int| n <= i < n + 8 implies '0' <= #[trigger] got[i] <= '9' || 'a' <= got[i]
        <= 'f' by {
        assert(got[i] == d[i - n]);
        assert(crate::platform::lower_hex(d[i - n]));
    }
}

/// An identifier is thirty-six characters: hyphens after the first eight, and
/// after each four of the next twelve, and small hexadecimal digits elsewhere.
pub proof fn law_identifiers(s: Seq<char>)
    requires
        uuid_text(s),
    ensures
        s.len() == 36,
        s[8] == '-' && s[13] == '-' && s[18] == '-' && s[23] == '-',
        forall|i: int|
            0 <= i < 36 && #[trigger] s[i] != '-' ==> '0' <= s[i] <= '9' || 'a' <= s[i] <= 'f',
        forall|i: int| 0 <= i < 36 && #[trigger] s[i] == '-' ==> i == 8 || i == 13 || i == 18 || i
            == 23,
{
}

/// The hexadecimal digits and their values; the letters count in either case.
pub proof fn law_hex_digits(c: char)
    ensures
        '0' <= c <= '9' ==> hex_value(c) == Some((c as u32 - '0' as u32) as nat),
        'a' <= c <= 'f' ==> hex_value(c) == Some((10 + c as u32 - 'a' as u32) as nat),
        'A' <= c <= 'F' ==> hex_value(c) == Some((10 + c as u32 - 'A' as u32) as nat),
        !('0' <= c <= '9') && !('a' <= c <= 'f') && !('A' <= c <= 'F') ==> hex_value(c) is None,
{
}

/// An escape of two digits becomes the character of its byte; what is no
/// escape loses the two characters and keeps the sign.
pub proof fn law_escape(a: char, b: char, rest: Seq<char>)
    ensures
        match (hex_value(a), hex_value(b)) {
            (Some(x), Some(y)) => percent_decoded(seq!['%', a, b] + rest) == seq![
                (16 * x + y) as char,
            ] + percent_decoded(rest),
            (_, None) => percent_decoded(seq!['%', a, b] + rest) == seq!['%'] + percent_decoded(
                rest,
            ),
            (None, Some(y)) => percent_decoded(seq!['%', a, b] + rest) == seq![
                if a == '+' {
                    y as char
                } else {
                    '%'
                },
            ] + percent_decoded(rest),
        },
{
    let s = seq!['%', a, b] + rest;
    assert(s[1] == a && s[2] == b);
    assert(char_or_zero(s, 1) == a && char_or_zero(s, 2) == b);
    assert(past_escape(s) =~= rest);
}

/// At the end of a text missing digits count as zeros.
pub proof fn law_cut_escape(a: char)
    ensures
        percent_decoded(seq!['%']) == percent_decoded(seq!['%', '0', '0']),
        percent_decoded(seq!['%', a]) == percent_decoded(seq!['%', a, '0']),
{
    reveal_with_fuel(percent_decoded, 2);
    assert(past_escape(seq!['%']) =~= Seq::empty());
    assert(past_escape(seq!['%', '0', '0']) =~= Seq::empty());
    assert(past_escape(seq!['%', a]) =~= Seq::empty());
    assert(past_escape(seq!['%', a, '0']) =~= Seq::empty());
}

/// The extension of an address is what stands behind its last dot; a query does
/// not count.
pub proof fn law_extension(front: Seq<char>, ext: Seq<char>, query: Seq<char>)
    requires
        !front.contains('?'),
        !ext.contains('?'),
        !ext.contains('.'),
    ensures
        extension(front.push('.') + ext) == ext,
        extension((front.push('.') + ext).push('?') + query) == ext,
        extension(ext) == ext,
{
    let url = front.push('.') + ext;
    if url.contains('?') {
        let k = choose|k: int| 0 <= k < url.len() && url[k] == '?';
        if k < front.len() {
            assert(front[k] == '?');
        } else if k > front.len() {
            assert(ext[k - front.len() - 1] == '?');
        }
    }
    lemma_no_piece(url, '?');
    lemma_no_piece(ext, '?');
    lemma_no_piece(ext, '.');
    lemma_pieces_joined(url, '?', query);
    lemma_pieces_joined(front, '.', ext);
    assert((pieces(front, '.') + seq![ext]).last() == ext);
}

// ---------------------------------------------------------------------------
// Times in words
// ---------------------------------------------------------------------------

/// Less than a minute is told in seconds.
pub proof fn law_seconds_in_words(secs: nat)
    requires
        0 < secs < 60,
    ensures
        ends(eta_words(secs), "s"@),
        number(eta_words(secs).drop_last()) == Some(secs),
{
    reveal_strlit("s");
    law_decimal_is_plain(secs);
    law_ends(decimal(secs), "s"@);
    assert(eta_words(secs).drop_last() =~= decimal(secs));
}

/// Less than an hour is told in minutes and seconds that make up the time, more
/// in whole hours and minutes that fall short of it by less than a minute.
pub proof fn law_longer_times_in_words(secs: nat)
    requires
        secs >= 60,
    ensures
        ({
            let ps = pieces(eta_words(secs), ' ');
            &&& ps.len() == 2
            &&& ps[0].len() > 0 && ps[1].len() > 0
            &&& number(ps[0].drop_last()) matches Some(a) && number(ps[1].drop_last()) matches Some(
                b,
            ) && b < 60 && if secs < 3600 {
                &&& ps[0].last() == 'm'
                &&& ps[1].last() == 's'
                &&& 60 * a + b == secs
            } else {
                &&& ps[0].last() == 'h'
                &&& ps[1].last() == 'm'
                &&& 3600 * a + 60 * b <= secs < 3600 * a + 60 * b + 60
            }
        }),
{
    reveal_strlit("m ");
    reveal_strlit("h ");
    reveal_strlit("s");
    reveal_strlit("m");
    if secs < 3600 {
        lemma_two_units(secs / 60, 'm', secs % 60, 's');
        assert(eta_words(secs) =~= decimal(secs / 60).push('m').push(' ') + decimal(
            secs % 60,
        ).push('s'));
    } else {
        lemma_two_units(secs / 3600, 'h', (secs % 3600) / 60, 'm');
        assert(eta_words(secs) =~= decimal(secs / 3600).push('h').push(' ') + decimal(
            (secs % 3600) / 60,
        ).push('m'));
    }
}

/// Two numbers with their units, a space between them, are two pieces.
proof fn lemma_two_units(a: nat, x: char, b: nat, y: char)
    requires
        x != ' ',
        y != ' ',
    ensures
        ({
            let s = decimal(a).push(x);
            let t = decimal(b).push(y);
            &&& pieces(s.push(' ') + t, ' ') == seq![s, t]
            &&& number(s.drop_last()) == Some(a)
            &&& number(t.drop_last()) == Some(b)
        }),
{
    let s = decimal(a).push(x);
    let t = decimal(b).push(y);
    law_decimal_is_plain(a);
    law_decimal_is_plain(b);
    assert(s.drop_last() =~= decimal(a));
    assert(t.drop_last() =~= decimal(b));
    lemma_one_piece(s, ' ');
    lemma_one_piece(t, ' ');
    lemma_pieces_joined(s, ' ', t);
    assert(pieces(s.push(' ') + t, ' ') =~= seq![s, t]);
}

// ---------------------------------------------------------------------------
// New downloads
// ---------------------------------------------------------------------------

/// A download that has just been asked for waits with nothing arrived, neither
/// finished nor failed, in sixteen segments, and not through yt-dlp; what it was
/// asked for with it keeps.
pub proof fn law_fresh_download(
    id: String,
    at: Timestamp,
    url: String,
    filename: String,
    save_path: String,
)
    ensures
        ({
            let item = fresh_item(id, at, url, filename, save_path);
            &&& item.id == id
            &&& item.url == url
            &&& item.filename == filename
            &&& item.save_path == save_path
            &&& item.added_at == at
            &&& item.category == category_of(extension(lowered(url@)))
            &&& item.status is Queued
            &&& item.total_bytes == 0
            &&& item.downloaded == 0
            &&& item.speed_bps == 0
            &&& item.eta_secs == 0
            &&& item.segments == 16
            &&& item.finished_at is None
            &&& item.error is None
            &&& !item.is_ytdlp
            &&& item.format is None
        }),
{
}

} // verus!
