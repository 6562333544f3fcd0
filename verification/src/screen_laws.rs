//! What holds of the window's lists, cards and controls.

use crate::icon::in_arrow;
use crate::icon::pixel;
use crate::icon::shows_pixel;
use crate::platform::binary_size_text;
use crate::queue::lemma_with_id;
use crate::queue::with_id;
use crate::queue::QueueState;
use crate::queue_change_laws::law_cancel_changes;
use crate::queue_change_laws::law_pause_changes;
use crate::queue_change_laws::law_resume_changes;
use crate::queue_change_laws::law_retry_changes;
use crate::queue_laws::law_removed_is_gone;
use crate::screen::active_in;
use crate::screen::controls_for;
use crate::screen::found;
use crate::screen::listed;
use crate::screen::listing;
use crate::screen::queued_in;
use crate::screen::url_cuts;
use crate::screen::url_shown;
use crate::screen::used;
use crate::screen::AddDialog;
use crate::screen::Control;
use crate::screen::DownloadCard;
use crate::screen::Page;
use crate::screen::Tone;
use crate::text::begins;
use crate::text::ends;
use crate::text::holds;
use crate::text::lowered;
use crate::text::occurs_at;
use crate::text_laws::law_begins;
use crate::text_laws::law_ends;
use crate::text_laws::law_lowered;
use crate::text_laws::law_occurs_at;
use crate::types::eta_words;
use crate::types::Category;
use crate::types::Color;
use crate::types::DownloadItem;
use crate::types::DownloadStatus;
use vstd::prelude::*;
use vstd::utf8::decode_utf8;
use vstd::utf8::encode_utf8;
use vstd::utf8::is_ascii_chars;
use vstd::utf8::is_char_boundary;

verus! {

// ---------------------------------------------------------------------------
// Searching
// ---------------------------------------------------------------------------

/// Two characters are the same, or one is the small form of the other's capital
/// letter.
pub open spec fn alike(a: char, b: char) -> bool {
    ||| a == b
    ||| 'A' <= a <= 'Z' && b as u32 == a as u32 + 32
    ||| 'A' <= b <= 'Z' && a as u32 == b as u32 + 32
}

/// Two ASCII characters have the same small form exactly where they are alike.
proof fn lemma_alike(a: char, b: char, la: char, lb: char)
    requires
        if 65 <= a as u32 <= 90 {
            la as u32 == a as u32 + 32
        } else {
            la == a
        },
        if 65 <= b as u32 <= 90 {
            lb as u32 == b as u32 + 32
        } else {
            lb == b
        },
    ensures
        la == lb <==> alike(a, b),
{
}

/// A search finds an ASCII text exactly where its characters stand in the text
/// one after another, capital or small.
pub proof fn law_search_ignores_case(search: Seq<char>, text: Seq<char>)
    requires
        is_ascii_chars(search),
        is_ascii_chars(text),
    ensures
        found(search, text) <==> exists|i: int|
            0 <= i && i + search.len() <= text.len() && #[trigger] stands_at(search, text, i),
{
    law_lowered(search);
    law_lowered(text);
    let s = lowered(search);
    let t = lowered(text);
    assert forall|i: int| 0 <= i && i + search.len() <= text.len() implies (
    #[trigger] stands_at(search, text, i) <==> occurs_at(t, s, i)) by {
        law_occurs_at(t, s, i);
        assert forall|k: int| 0 <= k < search.len() implies (t[i + k] == #[trigger] s[k] <==> alike(
            search[k],
            text[i + k],
        )) by {
            assert(lowered(text)[i + k] == t[i + k]);
            lemma_alike(search[k], text[i + k], s[k], t[i + k]);
        }
        if stands_at(search, text, i) {
            assert forall|k: int| 0 <= k < s.len() implies t[i + k] == #[trigger] s[k] by {
                assert(alike(search[k], text[i + k]));
            }
        }
        if occurs_at(t, s, i) {
            assert forall|k: int| 0 <= k < search.len() implies #[trigger] alike(
                search[k],
                text[i + k],
            ) by {
                assert(t[i + k] == s[k]);
            }
        }
    }
    if found(search, text) {
        let i = choose|i: int| #[trigger] occurs_at(t, s, i);
        law_occurs_at(t, s, i);
        assert(stands_at(search, text, i));
    }
    if exists|i: int|
        0 <= i && i + search.len() <= text.len() && #[trigger] stands_at(search, text, i) {
        let i = choose|i: int|
            0 <= i && i + search.len() <= text.len() && #[trigger] stands_at(search, text, i);
        assert(occurs_at(t, s, i));
    }
}

/// The characters of `search` stand in `text` from `i` on, capital or small.
pub open spec fn stands_at(search: Seq<char>, text: Seq<char>, i: int) -> bool {
    forall|k: int| 0 <= k < search.len() ==> #[trigger] alike(search[k], text[i + k])
}

// ---------------------------------------------------------------------------
// Lists
// ---------------------------------------------------------------------------

/// The page of completed downloads lists nothing else, and looks at their names
/// only; the other pages look at names and addresses, whatever the status.
pub proof fn law_pages_list(page: Page, search: Seq<char>, item: DownloadItem)
    requires
        search.len() > 0,
    ensures
        page is Completed && !(item.status is Completed) ==> !listed(page, search, item),
        page is Completed && item.status is Completed && found(search, item.filename@) ==> listed(
            page,
            search,
            item,
        ),
        page is Completed && !found(search, item.filename@) ==> !listed(page, search, item),
        !(page is Completed) && found(search, item.filename@) ==> listed(page, search, item),
        !(page is Completed) && found(search, item.url@) ==> listed(page, search, item),
        !(page is Completed) && !found(search, item.filename@) && !found(search, item.url@)
            ==> !listed(page, search, item),
{
}

/// Without a search the page of completed downloads lists each that is.
pub proof fn law_all_completed_are_listed(item: DownloadItem)
    ensures
        listed(Page::Completed, Seq::empty(), item) <==> item.status is Completed,
        listed(Page::Queue, Seq::empty(), item),
        listed(Page::History, Seq::empty(), item),
{
}

/// A page lists in the order of the list, and each download for itself: a
/// download behind the others is listed behind them or not at all.
pub proof fn law_listing_in_order(
    page: Page,
    search: Seq<char>,
    items: Seq<DownloadItem>,
    item: DownloadItem,
)
    ensures
        listing(page, search, Seq::empty()) == Seq::<DownloadItem>::empty(),
        listing(page, search, items.push(item)) == if listed(page, search, item) {
            listing(page, search, items).push(item)
        } else {
            listing(page, search, items)
        },
{
    reveal(Seq::filter);
    assert(items.push(item).drop_last() =~= items);
}

/// The downloads under way and those that wait are counted each once.
pub proof fn law_counts(items: Seq<DownloadItem>, item: DownloadItem)
    ensures
        active_in(Seq::empty()) == 0,
        queued_in(Seq::empty()) == 0,
        active_in(items.push(item)) - active_in(items) == match item.status {
            DownloadStatus::Connecting => 1int,
            DownloadStatus::Downloading => 1,
            DownloadStatus::Merging => 1,
            _ => 0,
        },
        queued_in(items.push(item)) - queued_in(items) == match item.status {
            DownloadStatus::Queued => 1int,
            _ => 0,
        },
{
    assert(items.push(item).drop_last() =~= items);
}

// ---------------------------------------------------------------------------
// Controls
// ---------------------------------------------------------------------------

/// Which controls a download has: it can be paused while work is under way,
/// go on when paused, be cancelled in either case, be tried again once it has
/// failed, and be removed at any time. None is shown twice, and Remove is last.
pub proof fn law_controls(status: DownloadStatus, control: Control)
    ensures
        controls_for(status).contains(control) <==> match control {
            Control::Pause => status is Connecting || status is Downloading || status is Merging,
            Control::Resume => status is Paused,
            Control::Cancel => status is Connecting || status is Downloading || status is Merging
                || status is Paused,
            Control::Retry => status is Failed,
            Control::Remove => true,
        },
        controls_for(status).no_duplicates(),
        controls_for(status).last() is Remove,
{
    let c = controls_for(status);
    if status.active() {
        assert(c[0] is Pause && c[1] is Cancel && c[2] is Remove);
    } else if status is Paused {
        assert(c[0] is Resume && c[1] is Cancel && c[2] is Remove);
    } else if status is Failed {
        assert(c[0] is Retry && c[1] is Remove);
    } else {
        assert(c[0] is Remove);
    }
}

/// What a control makes of the download it is used on: paused, cancelled,
/// waiting anew with its failure forgotten, going on or waiting, or gone.
pub proof fn law_using_a_control(q: QueueState, control: Control, id: Seq<char>, i: int)
    requires
        with_id(q.items, id, 0) == Some(i),
    ensures
        ({
            let u = used(q, control, id);
            &&& u.history == q.history
            &&& u.logs == q.logs
            &&& u.cfg == q.cfg
            &&& control is Remove ==> forall|k: int|
                0 <= k < u.items.len() ==> (#[trigger] u.items[k]).id@ != id
            &&& !(control is Remove) ==> u.items.len() == q.items.len() && u.items[i].status
                == match control {
                Control::Pause => DownloadStatus::Paused,
                Control::Cancel => DownloadStatus::Cancelled,
                Control::Resume => if q.handles.contains_key(id) {
                    DownloadStatus::Downloading
                } else {
                    DownloadStatus::Queued
                },
                _ => DownloadStatus::Queued,
            }
            &&& control is Retry ==> u.items[i].downloaded == 0 && u.items[i].error is None
            &&& q.handles.contains_key(id) && (control is Cancel || control is Remove)
                ==> u.handles[id].cancel
            &&& q.handles.contains_key(id) && control is Pause ==> u.handles[id].pause
            &&& q.handles.contains_key(id) && control is Resume ==> !u.handles[id].pause
        }),
{
    lemma_with_id(q.items, id, 0);
    law_pause_changes(q, id);
    law_cancel_changes(q, id);
    law_resume_changes(q, id);
    law_retry_changes(q, id);
    law_removed_is_gone(q, id);
}

// ---------------------------------------------------------------------------
// Cards
// ---------------------------------------------------------------------------

/// The bytes of two texts put together are those of the one and then those of
/// the other.
proof fn lemma_encoded(a: Seq<char>, b: Seq<char>)
    ensures
        encode_utf8(a + b) == encode_utf8(a) + encode_utf8(b),
    decreases a.len(),
{
    if a.len() == 0 {
        assert(a + b =~= b);
        assert(encode_utf8(a) + encode_utf8(b) =~= encode_utf8(b));
    } else {
        lemma_encoded(a.drop_first(), b);
        assert((a + b).drop_first() =~= a.drop_first() + b);
        let first = vstd::utf8::encode_scalar(a[0] as u32);
        assert(first + (encode_utf8(a.drop_first()) + encode_utf8(b)) =~= (first + encode_utf8(
            a.drop_first(),
        )) + encode_utf8(b));
    }
}

/// An address of up to eighty bytes is shown whole; of a longer one its first
/// eighty bytes are shown, with an ellipsis behind them.
pub proof fn law_address_is_cut(front: Seq<char>, rest: Seq<char>)
    ensures
        encode_utf8(front).len() <= 80 ==> url_shown(front) == front,
        encode_utf8(front).len() == 80 && rest.len() > 0 ==> url_shown(front + rest) == front
            + "…"@,
{
    if encode_utf8(front).len() == 80 && rest.len() > 0 {
        lemma_encoded(front, rest);
        assert(encode_utf8(front + rest).take(80) =~= encode_utf8(front));
        vstd::utf8::encode_utf8_decode_utf8(front);
        assert(encode_utf8(rest).len() > 0);
    }
}

/// An address can be cut unless it is longer than eighty bytes and none of its
/// beginnings has just as many; one in ASCII always can.
pub proof fn law_address_can_be_cut(url: Seq<char>)
    ensures
        url_cuts(url) <==> encode_utf8(url).len() <= 80 || exists|n: int|
            0 <= n <= url.len() && #[trigger] encode_utf8(url.take(n)).len() == 80,
        is_ascii_chars(url) ==> url_cuts(url),
{
    let bytes = encode_utf8(url);
    vstd::utf8::encode_utf8_valid_utf8(url);
    if bytes.len() > 80 {
        if url_cuts(url) {
            vstd::utf8::valid_utf8_split(bytes, 80);
            let front = decode_utf8(bytes.take(80));
            let rest = decode_utf8(bytes.skip(80));
            vstd::utf8::decode_utf8_encode_utf8(bytes.take(80));
            vstd::utf8::decode_utf8_encode_utf8(bytes.skip(80));
            lemma_encoded(front, rest);
            assert(bytes.take(80) + bytes.skip(80) =~= bytes);
            vstd::utf8::encode_utf8_decode_utf8(url);
            vstd::utf8::encode_utf8_decode_utf8(front + rest);
            assert((front + rest).take(front.len() as int) =~= front);
            assert(encode_utf8(url.take(front.len() as int)).len() == 80);
        }
        if exists|n: int| 0 <= n <= url.len() && #[trigger] encode_utf8(url.take(n)).len() == 80 {
            let n = choose|n: int|
                0 <= n <= url.len() && #[trigger] encode_utf8(url.take(n)).len() == 80;
            lemma_boundary(url.take(n), url.skip(n));
            assert(url.take(n) + url.skip(n) =~= url);
        }
        if is_ascii_chars(url) {
            vstd::utf8::is_ascii_chars_encode_utf8(url);
            assert(is_ascii_chars(url.take(80)));
            vstd::utf8::is_ascii_chars_encode_utf8(url.take(80));
            assert(encode_utf8(url.take(80)).len() == 80);
        }
    }
}

/// Between two texts put together their bytes can be parted.
proof fn lemma_boundary(a: Seq<char>, b: Seq<char>)
    ensures
        is_char_boundary(encode_utf8(a + b), encode_utf8(a).len() as int),
    decreases a.len(),
{
    lemma_encoded(a, b);
    vstd::utf8::encode_utf8_valid_utf8(a + b);
    vstd::utf8::is_char_boundary_start_end_of_seq(encode_utf8(a + b));
    if a.len() > 0 {
        lemma_boundary(a.drop_first(), b);
        assert((a + b).drop_first() =~= a.drop_first() + b);
        vstd::utf8::encode_utf8_first_scalar(a + b);
        let all = encode_utf8(a + b);
        assert((a + b)[0] == a[0]);
        assert(vstd::utf8::pop_first_scalar(all) =~= encode_utf8((a + b).drop_first()));
        assert(encode_utf8(a).len() as int - vstd::utf8::length_of_first_scalar(all)
            == encode_utf8(a.drop_first()).len());
        assert(encode_utf8(a).len() <= all.len());
    }
}

/// What stands on the card of a download.
pub proof fn law_card(card: DownloadCard, item: DownloadItem)
    requires
        card.describes(item),
    ensures
        begins(card.size_line@, binary_size_text(item.downloaded) + " / "@),
        item.total_bytes == 0 ==> ends(card.size_line@, " / —"@),
        item.total_bytes > 0 ==> card.size_line@ == binary_size_text(item.downloaded) + " / "@
            + binary_size_text(item.total_bytes),
        card.eta_line is Some <==> item.eta_secs > 0,
        card.eta_line matches Some(line) ==> begins(line@, "ETA "@) && line@.skip(4) == eta_words(
            item.eta_secs as nat,
        ),
        card.speed_line is Some <==> item.speed_bps > 0,
        card.speed_line matches Some(line) ==> ends(line@, "/s"@) && line@.take(line@.len() - 2)
            == binary_size_text(item.speed_bps),
        card.error_line is Some <==> item.status is Failed,
        item.status matches DownloadStatus::Failed(msg) ==> card.error_line matches Some(line)
            && begins(line@, "Error: "@) && line@.skip(7) == msg@,
        card.status@ == item.status.word(),
        card.color == item.status.shade(),
        card.controls@ == controls_for(item.status),
        card.url_line@ == url_shown(item.url@),
{
    reveal_strlit(" / ");
    reveal_strlit("—");
    reveal_strlit(" / —");
    reveal_strlit("ETA ");
    reveal_strlit("/s");
    reveal_strlit("Error: ");
    let arrived = binary_size_text(item.downloaded) + " / "@;
    if item.total_bytes == 0 {
        law_begins("—"@, arrived);
        law_ends(binary_size_text(item.downloaded), " / —"@);
        assert(card.size_line@ =~= binary_size_text(item.downloaded) + " / —"@);
    } else {
        law_begins(binary_size_text(item.total_bytes), arrived);
    }
    if let Some(line) = card.eta_line {
        law_begins(eta_words(item.eta_secs as nat), "ETA "@);
        assert(line@.skip(4) =~= eta_words(item.eta_secs as nat));
    }
    if let Some(line) = card.speed_line {
        law_ends(binary_size_text(item.speed_bps), "/s"@);
        assert(line@.take(line@.len() - 2) =~= binary_size_text(item.speed_bps));
    }
    if let DownloadStatus::Failed(msg) = item.status {
        law_begins(msg@, "Error: "@);
        assert(card.error_line->0@.skip(7) =~= msg@);
    }
}

// ---------------------------------------------------------------------------
// Words, colours and the icon
// ---------------------------------------------------------------------------

/// The word on a tab tells the page.
pub proof fn law_page_words_differ(a: Page, b: Page)
    ensures
        a.word() == b.word() ==> a == b,
{
    reveal_strlit("Queue");
    reveal_strlit("Completed");
    reveal_strlit("History");
    reveal_strlit("Settings");
    if a.word() == b.word() {
        assert(a.word().len() == b.word().len());
        assert(a.word()[0] == b.word()[0]);
    }
}

/// The words and colours that a status is shown with.
pub proof fn law_status_faces(status: DownloadStatus)
    ensures
        status is Queued ==> status.word() == "Queued"@ && rgb(status.shade(), 150, 150, 160),
        status is Connecting ==> status.word() == "Connecting"@ && rgb(
            status.shade(),
            100,
            160,
            255,
        ),
        status is Downloading ==> status.word() == "Downloading"@ && rgb(
            status.shade(),
            80,
            200,
            140,
        ),
        status is Merging ==> status.word() == "Merging"@ && rgb(status.shade(), 200, 160, 80),
        status is Paused ==> status.word() == "Paused"@ && rgb(status.shade(), 200, 180, 80),
        status is Completed ==> status.word() == "Completed"@ && rgb(status.shade(), 60, 210, 120),
        status is Failed ==> status.word() == "Failed"@ && rgb(status.shade(), 220, 80, 80),
        status is Cancelled ==> status.word() == "Cancelled"@ && rgb(status.shade(), 140, 140, 150),
{
}

/// The words and pictures that a kind of file is shown with.
pub proof fn law_category_faces(category: Category)
    ensures
        category is Video ==> category.word() == "Video"@ && category.picture() == "🎬"@,
        category is Audio ==> category.word() == "Audio"@ && category.picture() == "🎵"@,
        category is Document ==> category.word() == "Document"@ && category.picture() == "📄"@,
        category is Compressed ==> category.word() == "Compressed"@ && category.picture() == "📦"@,
        category is Other ==> category.word() == "Other"@ && category.picture() == "📁"@,
{
}

/// The colours of the window.
pub proof fn law_tones(tone: Tone)
    ensures
        tone is Background ==> rgb(tone.shade(), 13, 17, 23),
        tone is Surface ==> rgb(tone.shade(), 22, 27, 34),
        tone is Card ==> rgb(tone.shade(), 30, 37, 46),
        tone is Border ==> rgb(tone.shade(), 48, 54, 61),
        tone is Text ==> rgb(tone.shade(), 230, 237, 243),
        tone is Dim ==> rgb(tone.shade(), 139, 148, 158),
        tone is Accent ==> rgb(tone.shade(), 88, 166, 255),
        tone is Success ==> rgb(tone.shade(), 63, 185, 80),
        tone is Warning ==> rgb(tone.shade(), 210, 153, 34),
        tone is Danger ==> rgb(tone.shade(), 248, 81, 73),
{
}

/// A colour has the given parts of red, green and blue.
pub open spec fn rgb(c: Color, r: u8, g: u8, b: u8) -> bool {
    c.r == r && c.g == g && c.b == b
}

/// The word on each tab.
pub proof fn law_page_words(page: Page)
    ensures
        page is Queue ==> page.word() == "Queue"@,
        page is Completed ==> page.word() == "Completed"@,
        page is History ==> page.word() == "History"@,
        page is Settings ==> page.word() == "Settings"@,
{
}

/// A blank dialog is closed and holds nothing.
pub proof fn law_blank_dialog(dialog: AddDialog)
    requires
        dialog.blank(),
    ensures
        !dialog.open,
        dialog.url@.len() == 0,
        dialog.filename@.len() == 0,
        dialog.error is None,
{
}

/// The arrow of the icon stands upright about its middle column, seven pixels
/// wide from row 6 down to its head, and has the accent colour on the window's
/// ground.
pub proof fn law_icon(d: int, y: int)
    ensures
        in_arrow(16 - d, y) == in_arrow(16 + d, y),
        in_arrow(16 + d, y) ==> 6 <= y <= 26,
        6 <= y < 20 ==> (in_arrow(16 + d, y) <==> -3 <= d <= 3),
        20 <= y <= 26 ==> (in_arrow(16 + d, y) <==> y - 26 <= d <= 26 - y),
        pixel(16 + d, y) == if in_arrow(16 + d, y) {
            Tone::Accent.shade()
        } else {
            Tone::Background.shade()
        },
{
}

/// The bytes of the icon at each pixel, row by row: the arrow's colour or the
/// ground's, and full opacity.
pub proof fn law_icon_bytes(bytes: Seq<u8>, x: int, y: int)
    requires
        0 <= x < 32,
        0 <= y < 32,
        shows_pixel(bytes, 32 * y + x),
    ensures
        ({
            let at = 128 * y + 4 * x;
            &&& bytes[at + 3] == 255
            &&& in_arrow(x, y) ==> bytes[at] == 88 && bytes[at + 1] == 166 && bytes[at + 2] == 255
            &&& !in_arrow(x, y) ==> bytes[at] == 13 && bytes[at + 1] == 17 && bytes[at + 2] == 23
        }),
{
    let k = 32 * y + x;
    assert(k % 32 == x && k / 32 == y);
}

} // verus!
