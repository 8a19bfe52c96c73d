use yt_dlp_feed::progress::{format_duration, parse_ytdlp_progress, Eta, YtDlpProgress};

fn speed(progress: &YtDlpProgress) -> Option<f64> {
    progress.speed.as_deref().and_then(|text| text.parse().ok())
}

fn effective_eta_seconds(progress: &YtDlpProgress) -> Option<u64> {
    match progress.eta() {
        Eta::Known { seconds } => Some(seconds),
        Eta::Computed {
            remaining_bytes,
            speed,
        } => {
            let speed: f64 = speed.parse().ok()?;
            if speed <= 0.0 {
                return None;
            }
            Some((remaining_bytes as f64 / speed).ceil() as u64)
        }
        Eta::Unknown => None,
    }
}

#[test]
fn parses_ytdlp_progress_with_eta() {
    let progress =
        parse_ytdlp_progress("yt-dlp-rss-progress|downloading|1024|4096||512|6").unwrap();

    assert_eq!(progress.status.as_deref(), Some("downloading"));
    assert_eq!(progress.downloaded_bytes, Some(1024));
    assert_eq!(progress.total_bytes, Some(4096));
    assert_eq!(speed(&progress), Some(512.0));
    assert_eq!(effective_eta_seconds(&progress), Some(6));
}

#[test]
fn parses_ytdlp_progress_with_computed_eta() {
    let progress =
        parse_ytdlp_progress("yt-dlp-rss-progress|downloading|1024||4096|512|").unwrap();

    assert_eq!(progress.total_bytes_estimate, Some(4096));
    assert_eq!(effective_eta_seconds(&progress), Some(6));
}

#[test]
fn parses_ytdlp_progress_with_unknown_speed() {
    let progress =
        parse_ytdlp_progress("yt-dlp-rss-progress|downloading|1024||4096||").unwrap();

    assert_eq!(effective_eta_seconds(&progress), None);
}

#[test]
fn ignores_non_progress_stderr_lines() {
    assert!(parse_ytdlp_progress("[download] Destination: item.m4a").is_none());
}

#[test]
fn fields_that_are_missing_or_not_available_are_none() {
    let progress = parse_ytdlp_progress("yt-dlp-rss-progress| NA |x| 12 ").unwrap();
    assert_eq!(progress.status, None);
    assert_eq!(progress.downloaded_bytes, None);
    assert_eq!(progress.total_bytes, Some(12));
    assert_eq!(progress.total_bytes_estimate, None);
    assert_eq!(progress.speed, None);
    assert_eq!(progress.eta_seconds, None);
    assert_eq!(progress.total_or_estimate(), Some(12));
    assert_eq!(progress.eta(), Eta::Unknown);
}

#[test]
fn numbers_that_do_not_fit_are_none() {
    let progress = parse_ytdlp_progress(
        "yt-dlp-rss-progress||18446744073709551616|18446744073709551615|+7|1|",
    )
    .unwrap();
    assert_eq!(progress.downloaded_bytes, None);
    assert_eq!(progress.total_bytes, Some(u64::MAX));
    assert_eq!(progress.total_bytes_estimate, Some(7));
}

#[test]
fn more_downloaded_than_there_is_has_no_eta() {
    let progress = parse_ytdlp_progress("yt-dlp-rss-progress|x|9|5||3|").unwrap();
    assert_eq!(progress.eta(), Eta::Unknown);
    let progress = parse_ytdlp_progress("yt-dlp-rss-progress|x|2|5||3|").unwrap();
    assert_eq!(
        progress.eta(),
        Eta::Computed {
            remaining_bytes: 3,
            speed: "3".to_string()
        }
    );
}

#[test]
fn durations_are_written_for_readers() {
    assert_eq!(format_duration(4), "4s");
    assert_eq!(format_duration(0), "0s");
    assert_eq!(format_duration(61), "1m 1s");
    assert_eq!(format_duration(3600), "1h 0m 0s");
    assert_eq!(format_duration(36_125), "10h 2m 5s");
}
