use ydm::types::Category;
use ydm::types::Color;
use ydm::types::Config;
use ydm::types::DownloadItem;
use ydm::types::DownloadStatus;

fn item() -> DownloadItem {
    DownloadItem::new(
        "https://example.com/a.zip".to_string(),
        "a.zip".to_string(),
        "/tmp".to_string(),
    )
}

fn all_statuses() -> Vec<DownloadStatus> {
    vec![
        DownloadStatus::Queued,
        DownloadStatus::Connecting,
        DownloadStatus::Downloading,
        DownloadStatus::Merging,
        DownloadStatus::Paused,
        DownloadStatus::Completed,
        DownloadStatus::Failed("x".to_string()),
        DownloadStatus::Cancelled,
    ]
}

#[test]
fn statuses_active_and_done() {
    let active: Vec<bool> = all_statuses().iter().map(|s| s.is_active()).collect();
    let done: Vec<bool> = all_statuses().iter().map(|s| s.is_done()).collect();
    assert_eq!(active, vec![false, true, true, true, false, false, false, false]);
    assert_eq!(done, vec![false, false, false, false, false, true, true, true]);
}

#[test]
fn status_labels() {
    let labels: Vec<String> = all_statuses().iter().map(|s| s.label().to_string()).collect();
    assert_eq!(
        labels,
        vec![
            "Queued",
            "Connecting",
            "Downloading",
            "Merging",
            "Paused",
            "Completed",
            "Failed",
            "Cancelled"
        ]
    );
}

#[test]
fn status_colors() {
    let colors: Vec<Color> = all_statuses().iter().map(|s| s.color()).collect();
    let rgb: Vec<(u8, u8, u8)> = colors.iter().map(|c| (c.r, c.g, c.b)).collect();
    assert_eq!(
        rgb,
        vec![
            (150, 150, 160),
            (100, 160, 255),
            (80, 200, 140),
            (200, 160, 80),
            (200, 180, 80),
            (60, 210, 120),
            (220, 80, 80),
            (140, 140, 150)
        ]
    );
}

#[test]
fn category_of_a_video() {
    assert_eq!(Category::from_url("https://example.com/a/Movie.MP4?x=1.zip"), Category::Video);
}

#[test]
fn categories_by_extension() {
    for ext in ["mp4", "mkv", "avi", "mov", "webm", "flv", "wmv", "m4v"] {
        assert_eq!(Category::from_url(&format!("http://h/f.{}", ext)), Category::Video);
    }
    for ext in ["mp3", "aac", "flac", "wav", "ogg", "m4a", "opus"] {
        assert_eq!(Category::from_url(&format!("http://h/f.{}", ext)), Category::Audio);
    }
    for ext in ["pdf", "doc", "docx", "xls", "xlsx", "ppt", "pptx", "txt"] {
        assert_eq!(Category::from_url(&format!("http://h/f.{}", ext)), Category::Document);
    }
    for ext in ["zip", "rar", "7z", "tar", "gz", "bz2", "xz"] {
        assert_eq!(Category::from_url(&format!("http://h/f.{}", ext)), Category::Compressed);
    }
    assert_eq!(Category::from_url("http://h/f.exe"), Category::Other);
    assert_eq!(Category::from_url(""), Category::Other);
    // Without a dot the whole text is the last piece.
    assert_eq!(Category::from_url("mp3"), Category::Audio);
}

#[test]
fn category_of_a_letter_outside_ascii() {
    // The Kelvin sign is written as a small k.
    assert_eq!(Category::from_url("http://h/f.m\u{212a}v"), Category::Video);
}

#[test]
fn category_labels_and_icons() {
    let all = [
        Category::Video,
        Category::Audio,
        Category::Document,
        Category::Compressed,
        Category::Other,
    ];
    let labels: Vec<&str> = all.iter().map(|c| c.label()).collect();
    let icons: Vec<&str> = all.iter().map(|c| c.icon()).collect();
    assert_eq!(labels, vec!["Video", "Audio", "Document", "Compressed", "Other"]);
    assert_eq!(icons, vec!["🎬", "🎵", "📄", "📦", "📁"]);
}

#[test]
fn new_item_has_its_first_values() {
    let i = item();
    assert_eq!(i.url, "https://example.com/a.zip");
    assert_eq!(i.filename, "a.zip");
    assert_eq!(i.save_path, "/tmp");
    assert_eq!(i.category, Category::Compressed);
    assert_eq!(i.status, DownloadStatus::Queued);
    assert_eq!((i.total_bytes, i.downloaded, i.speed_bps, i.eta_secs), (0, 0, 0, 0));
    assert_eq!(i.segments, 16);
    assert_eq!(i.finished_at, None);
    assert_eq!(i.error, None);
    assert!(!i.is_ytdlp);
    assert_eq!(i.format, None);
    assert!(i.added_at.secs > 1_600_000_000);
    assert!(i.added_at.nanos < 1_000_000_000);
}

#[test]
fn new_items_have_uuids_of_their_own() {
    let a = item();
    let b = item();
    assert_ne!(a.id, b.id);
    let id: Vec<char> = a.id.chars().collect();
    assert_eq!(id.len(), 36);
    for (i, c) in id.iter().enumerate() {
        if [8, 13, 18, 23].contains(&i) {
            assert_eq!(*c, '-');
        } else {
            assert!(c.is_ascii_hexdigit() && !c.is_ascii_uppercase());
        }
    }
    assert_eq!(id[14], '4');
    assert!(['8', '9', 'a', 'b'].contains(&id[19]));
}

#[test]
fn sizes_in_words() {
    let mut i = item();
    assert_eq!(i.human_size(), "—");
    assert_eq!(i.human_downloaded(), "0 B");
    i.total_bytes = 1024;
    i.downloaded = 1_572_864;
    assert_eq!(i.human_size(), "1 KiB");
    assert_eq!(i.human_downloaded(), "1.50 MiB");
}

#[test]
fn speed_in_words() {
    let mut i = item();
    assert_eq!(i.human_speed(), "—");
    i.speed_bps = 2048;
    assert_eq!(i.human_speed(), "2 KiB/s");
}

#[test]
fn eta_in_words() {
    let mut i = item();
    let mut words = |secs: u64| {
        i.eta_secs = secs;
        i.human_eta()
    };
    assert_eq!(words(0), "—");
    assert_eq!(words(1), "1s");
    assert_eq!(words(59), "59s");
    assert_eq!(words(60), "1m 0s");
    assert_eq!(words(3599), "59m 59s");
    assert_eq!(words(3600), "1h 0m");
    assert_eq!(words(7325), "2h 2m");
}

#[test]
fn first_settings() {
    let c = Config::first(Some("/home/u/Downloads".to_string()), "token".to_string());
    assert_eq!(c.save_dir, "/home/u/Downloads");
    assert_eq!(c.max_concurrent, 3);
    assert_eq!(c.segments, 16);
    assert_eq!(c.speed_limit_kbps, 0);
    assert!(c.dark_mode);
    assert!(c.minimize_to_tray);
    assert!(!c.run_at_startup);
    assert_eq!(c.api_port, 9876);
    assert_eq!(c.api_token, "token");
    assert_eq!(c.ytdlp_path, "yt-dlp.exe");
    assert_eq!(c.ffmpeg_path, "ffmpeg.exe");
    assert_eq!(c.ytdlp_format, "bestvideo+bestaudio/best");
    assert_eq!(Config::first(None, "t".to_string()).save_dir, ".");
}

#[test]
fn default_settings_take_the_download_folder_and_a_new_token() {
    let a = Config::default();
    let b = Config::default();
    let folder = match dirs::download_dir() {
        Some(p) => p.to_string_lossy().to_string(),
        None => ".".to_string(),
    };
    assert_eq!(a.save_dir, folder);
    assert_eq!(a.api_token.len(), 36);
    assert_ne!(a.api_token, b.api_token);
}

#[test]
fn a_query_and_capitals_keep_the_category() {
    for url in ["http://h/a.mp3", "http://h/b.pdf", "http://h/c", "x.7z"] {
        let category = Category::from_url(url);
        assert_eq!(Category::from_url(&format!("{}?q=v.mp4&r=?.zip", url)), category);
        assert_eq!(Category::from_url(&url.to_ascii_uppercase()), category);
        assert_eq!(Category::from_lower_url(&format!("{}?ä.mp4", url)), category);
    }
}
