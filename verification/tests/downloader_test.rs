use ydm::downloader::choose_strategy;
use ydm::downloader::connecting_event;
use ydm::downloader::downloading_event;
use ydm::downloader::parse_disposition;
use ydm::downloader::parse_header_number;
use ydm::downloader::plan_segment;
use ydm::downloader::probe_event;
use ydm::downloader::read_probe;
use ydm::downloader::reassembly_event;
use ydm::downloader::segment_file;
use ydm::downloader::segment_files;
use ydm::downloader::segment_folder;
use ydm::downloader::segment_ranges;
use ydm::downloader::ProbeResult;
use ydm::downloader::SegmentPlan;
use ydm::downloader::SegmentRange;
use ydm::downloader::Strategy;
use ydm::types::DownloadEvent;
use ydm::types::DownloadStatus;

fn probe(content_length: Option<u64>, accept_ranges: bool) -> ProbeResult {
    ProbeResult { content_length, accept_ranges, filename_hint: None }
}

#[test]
fn a_probe_reads_the_headers() {
    let p = read_probe(Some("1000"), Some("bytes"), Some("attachment; filename=\"a b.zip\""));
    assert_eq!(p.content_length, Some(1000));
    assert!(p.accept_ranges);
    assert_eq!(p.filename_hint, Some("a b.zip".to_string()));
    let p = read_probe(Some("many"), Some("none"), Some("inline"));
    assert_eq!(p, probe(None, false));
    let p = read_probe(None, None, None);
    assert_eq!(p, probe(None, false));
    assert!(!read_probe(None, Some("Bytes"), None).accept_ranges);
}

#[test]
fn header_numbers() {
    assert_eq!(parse_header_number(Some("42")), Some(42));
    assert_eq!(parse_header_number(Some("4 2")), None);
    assert_eq!(parse_header_number(None), None);
}

#[test]
fn names_in_dispositions() {
    assert_eq!(parse_disposition("attachment; filename=x.bin"), Some("x.bin".to_string()));
    assert_eq!(parse_disposition("filename=\"\"; filename=b"), Some("".to_string()));
    assert_eq!(parse_disposition("filename=filename=c"), Some("c".to_string()));
    assert_eq!(parse_disposition("attachment; filename*=UTF-8''y"), None);
    assert_eq!(parse_disposition(""), None);
}

#[test]
fn the_probe_is_told() {
    assert_eq!(
        probe_event("i", &probe(Some(7), true)),
        DownloadEvent::Log { id: "i".to_string(), msg: "Size: 7 bytes, Ranges: true".to_string() }
    );
    assert_eq!(
        probe_event("i", &probe(None, false)),
        DownloadEvent::Log { id: "i".to_string(), msg: "Size: 0 bytes, Ranges: false".to_string() }
    );
}

#[test]
fn strategies() {
    let least = 4 * 1024 * 1024;
    let segmented = |total, segments| Strategy::Segmented { total, segments };
    assert_eq!(choose_strategy(&probe(Some(100 * least), true), 16), segmented(100 * least, 16));
    assert_eq!(choose_strategy(&probe(Some(16 * least), true), 16), segmented(16 * least, 16));
    assert_eq!(
        choose_strategy(&probe(Some(16 * least - 1), true), 16),
        segmented(16 * least - 1, 15)
    );
    assert_eq!(choose_strategy(&probe(Some(2 * least), true), 16), segmented(2 * least, 2));
    assert_eq!(choose_strategy(&probe(Some(2 * least - 1), true), 16), Strategy::Single);
    assert_eq!(choose_strategy(&probe(Some(5_242_880), true), 16), Strategy::Single);
    assert_eq!(choose_strategy(&probe(Some(100 * least), true), 1), Strategy::Single);
    assert_eq!(choose_strategy(&probe(Some(100 * least), true), 0), Strategy::Single);
    assert_eq!(choose_strategy(&probe(Some(100 * least), false), 16), Strategy::Single);
    assert_eq!(choose_strategy(&probe(None, true), 16), Strategy::Single);
}

#[test]
fn segments_are_large_enough() {
    let least = 4 * 1024 * 1024u64;
    for total in [2 * least, 3 * least - 1, 7 * least + 5, 64 * least + 1] {
        match choose_strategy(&probe(Some(total), true), 16) {
            Strategy::Segmented { total, segments } => {
                for r in segment_ranges(total, segments) {
                    assert!(r.end - r.start + 1 >= least);
                }
            }
            Strategy::Single => panic!("the file is large"),
        }
    }
}

#[test]
fn segments_tile_the_file() {
    let r = segment_ranges(10, 3);
    assert_eq!(
        r,
        vec![
            SegmentRange { start: 0, end: 2 },
            SegmentRange { start: 3, end: 5 },
            SegmentRange { start: 6, end: 9 }
        ]
    );
    assert_eq!(segment_ranges(1, 1), vec![SegmentRange { start: 0, end: 0 }]);
    let r = segment_ranges(u64::MAX, 32);
    assert_eq!(r[0].start, 0);
    assert_eq!(r[31].end, u64::MAX - 1);
    for i in 1..32 {
        assert_eq!(r[i].start, r[i - 1].end + 1);
    }
}

#[test]
fn joined_segments_are_the_file() {
    let file: Vec<u8> = (0u8..101).collect();
    let mut joined: Vec<u8> = Vec::new();
    for r in segment_ranges(101, 7) {
        joined.extend_from_slice(&file[r.start as usize..=r.end as usize]);
    }
    assert_eq!(joined, file);
}

#[test]
fn names_of_segments() {
    assert_eq!(segment_folder("x"), ".ydm_x");
    assert_eq!(segment_file(0), "seg_0000");
    assert_eq!(segment_file(31), "seg_0031");
    assert_eq!(segment_file(12345), "seg_12345");
    assert_eq!(segment_files(2), vec!["seg_0000", "seg_0001"]);
}

#[test]
fn plans_resume_where_the_file_ends() {
    let r = SegmentRange { start: 100, end: 199 };
    assert_eq!(
        plan_segment(r, 0),
        SegmentPlan::Fetch {
            counted: 0,
            from: 100,
            range: "bytes=100-199".to_string(),
            append: false
        }
    );
    assert_eq!(
        plan_segment(r, 99),
        SegmentPlan::Fetch {
            counted: 99,
            from: 199,
            range: "bytes=199-199".to_string(),
            append: true
        }
    );
    assert_eq!(plan_segment(r, 100), SegmentPlan::Complete { counted: 100 });
    assert_eq!(plan_segment(r, 5000), SegmentPlan::Complete { counted: 100 });
}

#[test]
fn what_a_run_says() {
    let change = |status| DownloadEvent::StatusChange { id: "i".to_string(), status };
    assert_eq!(connecting_event("i"), change(DownloadStatus::Connecting));
    assert_eq!(downloading_event("i"), change(DownloadStatus::Downloading));
    assert_eq!(
        reassembly_event("i"),
        DownloadEvent::Log { id: "i".to_string(), msg: "Reassembling segments…".to_string() }
    );
}

#[test]
fn a_resumed_segment_is_whole() {
    let file: Vec<u8> = (0u8..50).collect();
    let r = SegmentRange { start: 10, end: 29 };
    for already in 0u64..20 {
        match plan_segment(r, already) {
            SegmentPlan::Fetch { from, append, .. } => {
                assert_eq!(append, already > 0);
                let mut got = file[10..10 + already as usize].to_vec();
                got.extend_from_slice(&file[from as usize..=29]);
                assert_eq!(got, file[10..30].to_vec());
            }
            SegmentPlan::Complete { .. } => panic!("there is more to fetch"),
        }
    }
}
