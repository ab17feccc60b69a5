use tiny_beast_dictionary::download::{
    effective_total_size, percentage, run_download, ChunkData, DownloadOutcome,
};
use tiny_beast_dictionary::registry::OfflineDict;

fn entry(length_mb: u64) -> OfflineDict {
    OfflineDict {
        code: "fr".to_string(),
        name: "French".to_string(),
        url: String::new(),
        length_mb,
    }
}

fn chunk(data: &[u8], cancel_requested: bool, elapsed_secs: u64) -> ChunkData {
    ChunkData {
        data: data.to_vec(),
        cancel_requested,
        elapsed_secs,
    }
}

#[test]
fn percentage_is_exact() {
    assert_eq!(percentage(42, 100), 42);
    assert_eq!(percentage(0, 100), 0);
    assert_eq!(percentage(100, 100), 100);
    assert_eq!(percentage(1, 3), 33);
}

#[test]
fn percentage_is_clamped_to_100() {
    // the fallback total can undershoot the real size; the displayed value
    // must still stop at 100
    assert_eq!(percentage(250, 100), 100);
    assert_eq!(percentage(u64::MAX, 1), 100);
}

#[test]
fn total_size_prefers_the_content_length() {
    let e = entry(25);
    assert_eq!(effective_total_size(Some(12345), &e), 12345);
}

#[test]
fn total_size_falls_back_to_the_registry_estimate() {
    let e = entry(25);
    assert_eq!(effective_total_size(None, &e), 25 * 1024 * 1024);
    assert_eq!(effective_total_size(Some(0), &e), 25 * 1024 * 1024);
}

#[test]
fn completed_download_collects_all_bytes_and_ends_at_100() {
    let chunks = vec![
        chunk(&[1u8; 30], false, 0),
        chunk(&[2u8; 30], false, 2),
        chunk(&[3u8; 40], false, 5),
    ];
    let run = run_download(100, &chunks);
    assert!(matches!(run.outcome, DownloadOutcome::Completed));
    let archive = run.archive.clone().unwrap();
    assert_eq!(archive.len(), 100);
    assert_eq!(&archive[..30], &[1u8; 30][..]);
    assert_eq!(run.emitted.first(), Some(&0));
    assert_eq!(run.emitted.last(), Some(&100));
    let mut prev = 0u8;
    for &p in &run.emitted {
        assert!(p >= prev && p <= 100);
        prev = p;
    }
}

#[test]
fn progress_is_throttled_between_the_endpoints() {
    // chunks arrive faster than the two-second interval: no intermediate
    // event fires
    let chunks = vec![
        chunk(&[0u8; 10], false, 0),
        chunk(&[0u8; 10], false, 0),
        chunk(&[0u8; 10], false, 1),
    ];
    let run = run_download(30, &chunks);
    assert_eq!(run.emitted, vec![0, 100]);
}

#[test]
fn cancellation_at_42_percent_leaves_no_archive() {
    let chunks = vec![
        chunk(&[7u8; 42], false, 2),
        chunk(&[7u8; 58], true, 4),
    ];
    let run = run_download(100, &chunks);
    assert!(matches!(run.outcome, DownloadOutcome::Cancelled));
    assert!(run.archive.is_none());
    assert_eq!(run.emitted, vec![0, 42]);
}

#[test]
fn percentage_uses_the_fallback_and_stays_clamped() {
    // the server omitted its content length and the estimate is too small:
    // the reported value exceeds neither 100 nor monotonicity
    let e = entry(1);
    let total = effective_total_size(None, &e);
    let chunks = vec![
        chunk(&vec![0u8; 2 * 1024 * 1024], false, 2),
        chunk(&[0u8; 1], false, 4),
    ];
    let run = run_download(total, &chunks);
    assert!(matches!(run.outcome, DownloadOutcome::Completed));
    assert_eq!(run.emitted, vec![0, 100, 100, 100]);
}
