use ydm::types::DownloadEvent;
use ydm::types::DownloadItem;
use ydm::types::DownloadStatus;
use ydm::ytdlp::ensure_tools;
use ydm::ytdlp::eta_fits;
use ydm::ytdlp::needs_ytdlp;
use ydm::ytdlp::opening_events;
use ydm::ytdlp::parse_eta;
use ydm::ytdlp::parse_speed;
use ydm::ytdlp::progress_events;
use ydm::ytdlp::run_step;
use ydm::ytdlp::scan_progress;
use ydm::ytdlp::stderr_event;
use ydm::ytdlp::ytdlp_args;
use ydm::ytdlp::ProgressTexts;
use ydm::ytdlp::RunState;
use ydm::ytdlp::RunStep;
use ydm::ytdlp::SpeedText;

fn some(s: &str) -> Option<String> {
    Some(s.to_string())
}

#[test]
fn platforms() {
    for host in [
        "youtube.com",
        "youtu.be",
        "vimeo.com",
        "twitch.tv",
        "dailymotion.com",
        "tiktok.com",
        "instagram.com",
        "facebook.com",
        "fb.watch",
        "twitter.com",
        "x.com",
        "reddit.com",
        "soundcloud.com",
        "bandcamp.com",
        "bilibili.com",
        "nicovideo.jp",
        "rumble.com",
        "odysee.com",
        "bitchute.com",
        "streamable.com",
        "gfycat.com",
        "imgur.com",
    ] {
        assert!(needs_ytdlp(&format!("HTTPS://WWW.{}/v", host.to_uppercase())));
    }
    assert!(!needs_ytdlp("https://example.org/v.mp4"));
    // Any address that has the name of a platform in it.
    assert!(needs_ytdlp("https://dropbox.com/v.mp4"));
}

#[test]
fn missing_programs() {
    let m = ensure_tools(true, true, false);
    assert_eq!((m.fetch, m.announce), (None, None));
    let m = ensure_tools(false, false, true);
    assert_eq!(
        m.fetch,
        Some("https://github.com/yt-dlp/yt-dlp/releases/latest/download/yt-dlp.exe")
    );
    assert_eq!(
        m.announce,
        Some("https://github.com/BtbN/FFmpeg-Builds/releases/latest/download/ffmpeg-master-latest-win64-gpl.zip")
    );
    let m = ensure_tools(false, false, false);
    assert_eq!(m.fetch, Some("https://github.com/yt-dlp/yt-dlp/releases/latest/download/yt-dlp"));
    assert_eq!(
        m.announce,
        Some("https://johnvansickle.com/ffmpeg/releases/ffmpeg-release-amd64-static.tar.xz")
    );
}

#[test]
fn arguments_for_ytdlp() {
    let mut i = DownloadItem::new("http://v".to_string(), "f".to_string(), "/d".to_string());
    assert_eq!(
        ytdlp_args(&i),
        vec![
            "--no-playlist",
            "--format",
            "bestvideo+bestaudio/best",
            "--merge-output-format",
            "mp4",
            "--output",
            "/d/%(title)s.%(ext)s",
            "--progress",
            "--newline",
            "--no-colors",
            "--ffmpeg-location",
            ".",
            "http://v"
        ]
    );
    i.format = some("best");
    assert_eq!(ytdlp_args(&i)[2], "best");
}

#[test]
fn a_run_of_ytdlp() {
    match run_step("i", RunState::Cancelled) {
        RunStep::Kill { event, msg } => {
            assert_eq!(
                event,
                DownloadEvent::StatusChange {
                    id: "i".to_string(),
                    status: DownloadStatus::Cancelled
                }
            );
            assert_eq!(msg, "Cancelled");
        }
        _ => panic!("a cancelled run is killed"),
    }
    assert_eq!(
        run_step("i", RunState::NotStarted { error: "no such file".to_string() }),
        RunStep::Fail { msg: "Failed to start yt-dlp: no such file".to_string() }
    );
    assert_eq!(run_step("i", RunState::Running), RunStep::Wait { ms: 100 });
    assert_eq!(run_step("i", RunState::Succeeded), RunStep::Done);
    assert_eq!(
        run_step("i", RunState::Exited { status: "exit status: 1".to_string() }),
        RunStep::Fail { msg: "yt-dlp exited with status: exit status: 1".to_string() }
    );
    assert_eq!(
        run_step("i", RunState::Unknown { error: "gone".to_string() }),
        RunStep::Fail { msg: "yt-dlp wait error: gone".to_string() }
    );
}

#[test]
fn a_run_opens_with_two_events() {
    let change = |status| DownloadEvent::StatusChange { id: "i".to_string(), status };
    assert_eq!(
        opening_events("i"),
        vec![change(DownloadStatus::Connecting), change(DownloadStatus::Downloading)]
    );
}

#[test]
fn times_read_back() {
    for (m, s) in [(0u64, 0u64), (2, 5), (59, 59), (120, 1)] {
        assert_eq!(parse_eta(&format!("{:02}:{:02}", m, s)), 60 * m + s);
        assert_eq!(parse_eta(&format!("{:02}:{:02}:{:02}", 7, m, s)), 25_200 + 60 * m + s);
    }
}

#[test]
fn lines_of_stderr() {
    assert_eq!(stderr_event("i", String::new()), None);
    assert_eq!(
        stderr_event("i", "warning".to_string()),
        Some(DownloadEvent::Log { id: "i".to_string(), msg: "warning".to_string() })
    );
}

#[test]
fn texts_in_a_progress_line() {
    assert_eq!(
        scan_progress("[download]   5.3% of   45.23MiB at    2.34MiB/s ETA 00:18"),
        Some(ProgressTexts {
            percent: some("5.3"),
            speed: some("2.34MiB/s"),
            eta: some("00:18")
        })
    );
    assert_eq!(
        scan_progress("[download] 100% of   45.23MiB in 00:19"),
        Some(ProgressTexts { percent: some("100"), speed: None, eta: None })
    );
    assert_eq!(
        scan_progress("[download] Destination: cat.mp4"),
        Some(ProgressTexts { percent: None, speed: some("ion:"), eta: None })
    );
    assert_eq!(scan_progress("[info] 50% done"), None);
}

#[test]
fn speeds() {
    let speed = |number: &str, factor: u64| Some(SpeedText { number: number.to_string(), factor });
    assert_eq!(parse_speed("2.34MiB/s"), speed("2.34", 1_048_576));
    assert_eq!(parse_speed(" 7KiB/s "), speed("7", 1024));
    assert_eq!(parse_speed("1 GiB/s"), speed("1", 1_073_741_824));
    assert_eq!(parse_speed("900B/s"), None);
    assert_eq!(parse_speed("Unknown"), None);
}

#[test]
fn clocks() {
    assert_eq!(parse_eta("00:18"), 18);
    assert_eq!(parse_eta("02:05"), 125);
    assert_eq!(parse_eta("1:00:01"), 3601);
    assert_eq!(parse_eta("42"), 0);
    assert_eq!(parse_eta("1:2:3:4"), 0);
    assert_eq!(parse_eta("Unknown"), 0);
    // What is no number is passed over.
    assert_eq!(parse_eta("x:1:2"), 62);
    assert!(eta_fits("99:99:99"));
    assert!(!eta_fits("18446744073709551615:0"));
}

#[test]
fn events_of_a_progress_line() {
    let log = DownloadEvent::Log { id: "i".to_string(), msg: "[download] x".to_string() };
    assert_eq!(progress_events("[download] x", "i", None, 1, 2), vec![log]);
    let events = progress_events("[download] 5%", "i", Some(50_000), 1, 2);
    assert_eq!(
        events,
        vec![
            DownloadEvent::Progress {
                id: "i".to_string(),
                downloaded: 50_000,
                total: 1_000_000,
                speed: 1,
                eta: 2
            },
            DownloadEvent::Log { id: "i".to_string(), msg: "[download] 5%".to_string() }
        ]
    );
}
