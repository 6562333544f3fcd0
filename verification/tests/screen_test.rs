use ydm::icon::icon_rgba;
use ydm::platform::Timestamp;
use ydm::queue::QueueManager;
use ydm::screen::can_cut_url;
use ydm::screen::controls;
use ydm::screen::empty_message;
use ydm::screen::extension_mark;
use ydm::screen::finished_line;
use ydm::screen::history_tone;
use ydm::screen::page_items;
use ydm::screen::start_minimized;
use ydm::screen::status_line;
use ydm::screen::url_display;
use ydm::screen::use_control;
use ydm::screen::AddDialog;
use ydm::screen::Control;
use ydm::screen::DownloadCard;
use ydm::screen::Page;
use ydm::screen::Tone;
use ydm::screen::Window;
use ydm::types::Config;
use ydm::types::DownloadItem;
use ydm::types::DownloadStatus;

fn item(name: &str, url: &str, status: DownloadStatus) -> DownloadItem {
    let mut i = DownloadItem::new(url.to_string(), name.to_string(), "/s".to_string());
    i.status = status;
    i
}

fn names(items: &[DownloadItem]) -> Vec<String> {
    items.iter().map(|i| i.filename.clone()).collect()
}

fn queue(max_concurrent: usize) -> QueueManager {
    let mut cfg = Config::first(None, "t".to_string());
    cfg.max_concurrent = max_concurrent;
    QueueManager::new(cfg, Vec::new())
}

fn sample() -> Vec<DownloadItem> {
    vec![
        item("Film.mkv", "http://one/f", DownloadStatus::Completed),
        item("song.mp3", "http://FILM/s", DownloadStatus::Cancelled),
        item("Äpfel.zip", "http://two/a", DownloadStatus::Completed),
    ]
}

#[test]
fn pages_have_labels() {
    let labels: Vec<&str> = Page::all().into_iter().map(|p| p.label()).collect();
    assert_eq!(labels, vec!["Queue", "Completed", "History", "Settings"]);
}

#[test]
fn searches() {
    let all = sample();
    assert_eq!(names(&page_items(Page::Queue, "film", &all)), vec!["Film.mkv", "song.mp3"]);
    assert_eq!(names(&page_items(Page::History, "film", &all)), vec!["Film.mkv", "song.mp3"]);
    assert_eq!(names(&page_items(Page::Completed, "film", &all)), vec!["Film.mkv"]);
    assert_eq!(names(&page_items(Page::History, "ÄPFEL", &all)), vec!["Äpfel.zip"]);
    assert_eq!(page_items(Page::History, "nothing", &all).len(), 0);
}

#[test]
fn an_empty_search_lists_all() {
    let all = sample();
    assert_eq!(page_items(Page::Queue, "", &all), all);
    assert_eq!(page_items(Page::History, "", &all), all);
    assert_eq!(names(&page_items(Page::Completed, "", &all)), vec!["Film.mkv", "Äpfel.zip"]);
}

#[test]
fn messages_of_empty_pages() {
    assert_eq!(
        empty_message(Page::Queue),
        "No active downloads\nClick '＋ Add Download' to start"
    );
    assert_eq!(empty_message(Page::Completed), "No completed downloads yet");
    assert_eq!(empty_message(Page::History), "No history");
}

#[test]
fn controls_by_status() {
    let failed = DownloadStatus::Failed("x".to_string());
    assert_eq!(
        controls(&DownloadStatus::Merging),
        vec![Control::Pause, Control::Cancel, Control::Remove]
    );
    assert_eq!(
        controls(&DownloadStatus::Paused),
        vec![Control::Resume, Control::Cancel, Control::Remove]
    );
    assert_eq!(controls(&failed), vec![Control::Retry, Control::Remove]);
    assert_eq!(controls(&DownloadStatus::Queued), vec![Control::Remove]);
    assert_eq!(controls(&DownloadStatus::Cancelled), vec![Control::Remove]);
}

#[test]
fn controls_act_on_the_queue() {
    let mut q = queue(1);
    let id = q.add("http://h/a".to_string(), None, None);
    use_control(&mut q, Control::Pause, &id);
    assert_eq!(q.items[0].status, DownloadStatus::Paused);
    use_control(&mut q, Control::Resume, &id);
    assert_eq!(q.items[0].status, DownloadStatus::Downloading);
    use_control(&mut q, Control::Cancel, &id);
    assert_eq!(q.items[0].status, DownloadStatus::Cancelled);
    use_control(&mut q, Control::Retry, &id);
    assert_eq!(q.items[0].status, DownloadStatus::Queued);
    use_control(&mut q, Control::Remove, &id);
    assert_eq!(q.items.len(), 0);
}

#[test]
fn addresses_are_cut() {
    let short = "a".repeat(80);
    let long = "a".repeat(81);
    assert_eq!(url_display(&short), short);
    assert_eq!(url_display(&long), format!("{}…", short));
    assert!(can_cut_url(&long));
    // The eightieth byte stands inside a letter.
    assert!(!can_cut_url(&format!("{}éé", "a".repeat(79))));
    assert!(can_cut_url(&format!("{}é", "a".repeat(78))));
}

#[test]
fn cards() {
    let mut i = item("f", "http://h/f", DownloadStatus::Failed("broken".to_string()));
    i.total_bytes = 2048;
    i.downloaded = 1024;
    let c = DownloadCard::of(&i);
    assert_eq!(c.status, "Failed");
    assert_eq!(c.color, i.status.color());
    assert_eq!(c.size_line, "1 KiB / 2 KiB");
    assert_eq!(c.eta_line, None);
    assert_eq!(c.speed_line, None);
    assert_eq!(c.error_line, Some("Error: broken".to_string()));
    assert_eq!(c.url_line, "http://h/f");
    i.status = DownloadStatus::Downloading;
    i.total_bytes = 0;
    i.eta_secs = 61;
    i.speed_bps = 1024;
    let c = DownloadCard::of(&i);
    assert_eq!(c.size_line, "1 KiB / —");
    assert_eq!(c.eta_line, Some("ETA 1m 1s".to_string()));
    assert_eq!(c.speed_line, Some("1 KiB/s".to_string()));
    assert_eq!(c.error_line, None);
    assert_eq!(c.controls, vec![Control::Pause, Control::Cancel, Control::Remove]);
}

#[test]
fn finished_to_the_minute() {
    let mut i = item("f", "u", DownloadStatus::Completed);
    assert_eq!(finished_line(&i), None);
    i.finished_at = Some(Timestamp { secs: 0, nanos: 0 });
    assert_eq!(finished_line(&i), Some("1970-01-01 00:00".to_string()));
    i.finished_at = Some(Timestamp { secs: 1_700_000_000, nanos: 999_999_999 });
    assert_eq!(finished_line(&i), Some("2023-11-14 22:13".to_string()));
    i.finished_at = Some(Timestamp { secs: i64::MAX, nanos: 0 });
    assert_eq!(finished_line(&i), None);
}

#[test]
fn tones() {
    let rgb = |t: Tone| (t.color().r, t.color().g, t.color().b);
    assert_eq!(rgb(Tone::Background), (13, 17, 23));
    assert_eq!(rgb(Tone::Surface), (22, 27, 34));
    assert_eq!(rgb(Tone::Card), (30, 37, 46));
    assert_eq!(rgb(Tone::Border), (48, 54, 61));
    assert_eq!(rgb(Tone::Text), (230, 237, 243));
    assert_eq!(rgb(Tone::Dim), (139, 148, 158));
    assert_eq!(rgb(Tone::Accent), (88, 166, 255));
    assert_eq!(rgb(Tone::Success), (63, 185, 80));
    assert_eq!(rgb(Tone::Warning), (210, 153, 34));
    assert_eq!(rgb(Tone::Danger), (248, 81, 73));
    assert_eq!(history_tone(&DownloadStatus::Completed), Tone::Success);
    assert_eq!(history_tone(&DownloadStatus::Failed(String::new())), Tone::Danger);
    assert_eq!(history_tone(&DownloadStatus::Cancelled), Tone::Dim);
    assert_eq!(extension_mark(true), ("✓", Tone::Success));
    assert_eq!(extension_mark(false), ("✗", Tone::Danger));
}

#[test]
fn the_status_line_counts() {
    let items = vec![
        item("a", "u", DownloadStatus::Connecting),
        item("b", "u", DownloadStatus::Queued),
        item("c", "u", DownloadStatus::Queued),
        item("d", "u", DownloadStatus::Paused),
    ];
    assert_eq!(status_line(&items), "Active: 1  Queued: 2");
    assert_eq!(status_line(&Vec::new()), "Active: 0  Queued: 0");
}

#[test]
fn a_dialog_without_an_address_complains() {
    let mut w = Window::new();
    let mut q = queue(0);
    w.page = Page::History;
    w.add_dialog.open = true;
    w.add_dialog.url = " \t".to_string();
    w.submit(&mut q);
    assert_eq!(w.add_dialog.error, Some("URL cannot be empty.".to_string()));
    assert!(w.add_dialog.open);
    assert_eq!(w.page, Page::History);
    assert_eq!(q.items.len(), 0);
}

#[test]
fn a_dialog_adds_a_download() {
    let mut w = Window::new();
    let mut q = queue(0);
    w.page = Page::Settings;
    w.add_dialog.open = true;
    w.add_dialog.url = " http://h/a.zip ".to_string();
    w.add_dialog.filename = "  ".to_string();
    w.submit(&mut q);
    assert_eq!(w.add_dialog, AddDialog::default());
    assert_eq!(w.page, Page::Queue);
    assert_eq!(q.items[0].url, "http://h/a.zip");
    assert_eq!(q.items[0].filename, "a.zip");
    w.add_dialog.url = "http://h/b.zip".to_string();
    w.add_dialog.filename = " c.zip ".to_string();
    w.submit(&mut q);
    assert_eq!(q.items[1].filename, "c.zip");
}

#[test]
fn settings_are_saved() {
    let mut w = Window::new();
    assert_eq!(w.message, None);
    let mut q = queue(1);
    let mut cfg = q.cfg.clone();
    cfg.segments = 4;
    w.save_settings(&mut q, &cfg);
    assert_eq!(q.cfg, cfg);
    assert_eq!(w.message, Some("Settings saved.".to_string()));
}

#[test]
fn the_tray_argument() {
    let args = |list: &[&str]| list.iter().map(|s| s.to_string()).collect::<Vec<String>>();
    assert!(start_minimized(&args(&["ydm", "--tray"])));
    assert!(!start_minimized(&args(&["ydm", "--tray2"])));
    assert!(!start_minimized(&args(&[])));
}

#[test]
fn the_icon_is_an_arrow() {
    let rgba = icon_rgba();
    assert_eq!(rgba.len(), 32 * 32 * 4);
    let at = |x: usize, y: usize| {
        let i = (y * 32 + x) * 4;
        (rgba[i], rgba[i + 1], rgba[i + 2], rgba[i + 3])
    };
    let back = (13, 17, 23, 255);
    let front = (88, 166, 255, 255);
    assert_eq!(at(0, 0), back);
    assert_eq!(at(16, 5), back);
    assert_eq!(at(16, 6), front);
    assert_eq!(at(13, 10), front);
    assert_eq!(at(12, 10), back);
    assert_eq!(at(19, 20), front);
    assert_eq!(at(20, 19), back);
    let width = |y: usize| (0..32).filter(|x| at(*x, y) == front).count();
    assert_eq!(width(6), 7);
    assert_eq!(width(19), 7);
    // The head tapers to its tip.
    let head: Vec<usize> = (20..28).map(width).collect();
    assert_eq!(head, vec![13, 11, 9, 7, 5, 3, 1, 0]);
    assert_eq!(at(16, 26), front);
    assert_eq!(at(10, 20), front);
    assert_eq!(at(22, 20), front);
}
