use std::time::Duration;

use yt_dlp_feed::cleanup::{
    is_completed_media_file, is_fresh, CleanupPass, FileFacts, Observation,
};
use yt_dlp_feed::config::Config;
use yt_dlp_feed::media::{
    cache_key, download_error_response, executable_name, find_in_paths,
    is_soundcloud_playlist_item_url, items_from_entries, media_path, resolve_tool_path,
    temp_download_path, tool_candidates, ytdlp_download_args, InvalidFileName, PlaylistEntry,
};

fn args_contains_pair(args: &[String], key: &str, value: &str) -> bool {
    args.windows(2)
        .any(|window| window[0] == key && window[1] == value)
}

#[test]
fn cache_keys_are_stable() {
    assert_eq!(
        cache_key("derek", "soundcloud", "dereknet", "abc"),
        cache_key("derek", "soundcloud", "dereknet", "abc")
    );
    assert_ne!(
        cache_key("derek", "soundcloud", "dereknet", "abc"),
        cache_key("derek", "soundcloud", "dereknet", "def")
    );
}

#[test]
fn ytdlp_download_args_pin_m4a_output() {
    let args = ytdlp_download_args(
        "/usr/bin/ffmpeg",
        "-",
        "https://soundcloud.com/example/item",
        false,
    );

    assert!(args.contains(&"bestaudio[ext=m4a]".to_string()));
    assert!(args.contains(&"-".to_string()));
    assert!(args.contains(&"--no-part".to_string()));
    assert!(args_contains_pair(&args, "--playlist-items", "1"));
    assert!(args.contains(&"--ffmpeg-location".to_string()));
    assert!(args.contains(&"--no-progress".to_string()));
}

#[test]
fn ytdlp_download_args_limit_playlist_to_single_item() {
    let args = ytdlp_download_args(
        "/usr/bin/ffmpeg",
        "-",
        "https://soundcloud.com/example/sets/album",
        false,
    );

    assert!(args_contains_pair(&args, "--playlist-items", "1"));
}

#[test]
fn detects_soundcloud_playlist_item_urls() {
    assert!(is_soundcloud_playlist_item_url(
        "https://soundcloud.com/dereknet/sets/bumpin"
    ));
    assert!(is_soundcloud_playlist_item_url(
        "https://api-v2.soundcloud.com/playlists/13564113"
    ));
    assert!(is_soundcloud_playlist_item_url(
        "https://www.soundcloud.com/dereknet/sets/bumpin?utm_source=feed"
    ));
}

#[test]
fn keeps_soundcloud_track_item_urls() {
    assert!(!is_soundcloud_playlist_item_url(
        "https://soundcloud.com/disclosuremusic/apollo"
    ));
    assert!(!is_soundcloud_playlist_item_url(
        "https://api-v2.soundcloud.com/tracks/117448277"
    ));
    assert!(!is_soundcloud_playlist_item_url(
        "https://example.test/dereknet/sets/bumpin"
    ));
}

#[test]
fn playlist_urls_are_told_by_host_and_path_alone() {
    assert!(is_soundcloud_playlist_item_url(
        "https://user@soundcloud.com:443/a/sets"
    ));
    assert!(!is_soundcloud_playlist_item_url(
        "https://soundcloud.com/a?x=/sets/"
    ));
    assert!(!is_soundcloud_playlist_item_url(
        "https://soundcloud.com/a#/sets/b"
    ));
    assert!(!is_soundcloud_playlist_item_url("soundcloud.com/a/sets/b"));
    assert!(!is_soundcloud_playlist_item_url("https://soundcloud.com"));
    assert!(!is_soundcloud_playlist_item_url(
        "https://api-v2.soundcloud.com/users/playlists"
    ));
}

#[test]
fn ytdlp_download_args_enable_debug_progress() {
    let args = ytdlp_download_args(
        "/usr/bin/ffmpeg",
        "-",
        "https://soundcloud.com/example/item",
        true,
    );

    assert!(args.contains(&"--progress".to_string()));
    assert!(args.contains(&"--newline".to_string()));
    assert!(args.contains(&"--progress-delta".to_string()));
    assert!(args
        .iter()
        .any(|arg| arg.starts_with("download:yt-dlp-rss-progress|")));
}

#[test]
fn temp_download_path_keeps_m4a_extension() {
    assert_eq!(
        temp_download_path("/tmp/item.m4a").unwrap(),
        "/tmp/item.m4a.download.m4a"
    );
}

#[test]
fn temp_files_need_a_file_name() {
    assert_eq!(temp_download_path("/"), Err(InvalidFileName));
    assert_eq!(temp_download_path(""), Err(InvalidFileName));
    assert_eq!(temp_download_path("/tmp/.."), Err(InvalidFileName));
    assert_eq!(
        InvalidFileName.message(),
        "download path has no valid file name"
    );
    assert_eq!(
        temp_download_path("item.m4a"),
        Ok("item.m4a.download.m4a".to_string())
    );
    assert_eq!(
        temp_download_path("/item.m4a/."),
        Ok("/item.m4a.download.m4a".to_string())
    );
}

#[test]
fn cache_keys_are_digests_of_their_labels() {
    assert_eq!(
        cache_key("", "", "", ""),
        "709e80c88487a2411e1ee4dfb9f22a861492d20c4765150c0c794abd70f8147c"
    );
    assert_ne!(cache_key("a", "b", "c", "d"), cache_key("ab", "", "c", "d"));
}

#[test]
fn media_files_are_completed_and_temporary_ones_are_not() {
    let config = Config::default();
    let path = media_path(&config, &cache_key("derek", "soundcloud", "dereknet", "abc"));
    assert!(path.starts_with("./data/media/"));
    assert!(path.ends_with(".m4a"));
    assert!(is_completed_media_file(&path));
    assert!(!is_completed_media_file(&temp_download_path(&path).unwrap()));
    assert!(!is_completed_media_file("/tmp/notes.txt"));
    assert!(!is_completed_media_file("/"));
}

#[test]
fn failed_downloads_are_bad_gateways() {
    assert_eq!(
        download_error_response("no".to_string()),
        (502, "no".to_string())
    );
}

#[test]
fn resolve_tool_path_prefers_managed_binary() {
    let path = "/managed/yt-dlp";
    assert_eq!(
        resolve_tool_path(path, true, None, "missing-tool").unwrap(),
        path
    );
}

#[test]
fn find_in_paths_locates_system_binary_candidate() {
    let directories = vec!["/usr/local/bin".to_string(), "/usr/bin".to_string()];
    let candidates = tool_candidates("yt-dlp", &directories, false);
    assert_eq!(candidates, vec!["/usr/local/bin/yt-dlp", "/usr/bin/yt-dlp"]);
    let seen: Vec<(String, bool)> = candidates
        .into_iter()
        .map(|path| {
            let present = path == "/usr/bin/yt-dlp";
            (path, present)
        })
        .collect();
    assert_eq!(find_in_paths(&seen), Some("/usr/bin/yt-dlp".to_string()));
    assert_eq!(find_in_paths(&vec![]), None);
    assert_eq!(executable_name("ffmpeg", true), "ffmpeg.exe");
    assert_eq!(
        resolve_tool_path("/libs/ffmpeg", false, None, "ffmpeg"),
        Err(
            "could not find ffmpeg; expected /libs/ffmpeg or a ffmpeg executable on PATH"
                .to_string()
        )
    );
    assert_eq!(
        resolve_tool_path("/libs/ffmpeg", false, Some("/bin/ffmpeg".to_string()), "ffmpeg"),
        Ok("/bin/ffmpeg".to_string())
    );
}

#[test]
fn entries_become_items_in_their_order() {
    let entry = |id: &str, url: &str, uploader: Option<&str>| PlaylistEntry {
        id: id.to_string(),
        title: format!("Title {id}"),
        url: url.to_string(),
        uploader: uploader.map(str::to_string),
        thumbnail: None,
    };
    let (items, skipped) = items_from_entries(&vec![
        entry("2", "https://soundcloud.com/a/two", Some("A")),
        entry("s", "https://soundcloud.com/a/sets/x", None),
        entry("1", "https://soundcloud.com/a/one", None),
    ]);
    assert_eq!(skipped, 1);
    assert_eq!(items.len(), 2);
    assert_eq!(items[0].id, "2");
    assert_eq!(items[0].description.as_deref(), Some("Uploaded by A"));
    assert_eq!(items[1].webpage_url, "https://soundcloud.com/a/one");
    assert_eq!(items[1].description, None);
}

fn file(modified: i128, bytes: u64) -> FileFacts {
    FileFacts {
        is_file: true,
        modified: Some(modified),
        bytes,
    }
}

#[test]
fn cleanup_removes_expired_media_files() {
    let mut pass = CleanupPass::start(Some(0));
    assert_eq!(
        pass.observe("/m/old.m4a".to_string(), file(1, 3), 2),
        Observation::Remove
    );
    assert_eq!(pass.trim(None), Vec::<String>::new());
}

#[test]
fn cleanup_keeps_media_when_ttl_is_disabled() {
    let mut pass = CleanupPass::start(None);
    assert_eq!(
        pass.observe("/m/kept.m4a".to_string(), file(0, 4), i128::MAX),
        Observation::Keep
    );
    assert_eq!(pass.trim(None), Vec::<String>::new());
}

#[test]
fn cleanup_trims_oldest_media_to_max_size() {
    let mut pass = CleanupPass::start(None);
    pass.observe("/m/newest.m4a".to_string(), file(20, 3), 30);
    pass.observe("/m/oldest.m4a".to_string(), file(10, 3), 30);
    assert_eq!(pass.trim(Some(3)), vec!["/m/oldest.m4a"]);
}

#[test]
fn cleanup_does_not_count_in_progress_downloads_against_max_size() {
    let mut pass = CleanupPass::start(None);
    assert_eq!(
        pass.observe("/m/complete.m4a".to_string(), file(1, 8), 2),
        Observation::Keep
    );
    assert_eq!(
        pass.observe("/m/complete.m4a.download.m4a".to_string(), file(1, 16), 2),
        Observation::Skip
    );
    assert_eq!(pass.trim(Some(8)), Vec::<String>::new());
}

#[test]
fn cleanup_ties_go_by_the_order_in_which_files_were_seen() {
    let mut pass = CleanupPass::start(Some(1));
    pass.observe("/m/a.m4a".to_string(), file(5, u64::MAX), 6);
    pass.observe("/m/b.m4a".to_string(), file(5, 1), 6);
    pass.observe("/m/c.m4a".to_string(), file(9, 1), 6);
    assert_eq!(pass.trim(Some(0)), vec!["/m/a.m4a"]);
}

#[test]
fn cleanup_counts_files_without_a_time_as_the_oldest() {
    let mut pass = CleanupPass::start(None);
    let unknown = FileFacts {
        is_file: true,
        modified: None,
        bytes: 2,
    };
    let directory = FileFacts {
        is_file: false,
        modified: None,
        bytes: 2,
    };
    pass.observe("/m/new.m4a".to_string(), file(1, 2), 2);
    pass.observe("/m/unknown.m4a".to_string(), unknown, 2);
    assert_eq!(
        pass.observe("/m/directory.m4a".to_string(), directory, 2),
        Observation::Skip
    );
    assert_eq!(pass.trim(Some(3)), vec!["/m/unknown.m4a"]);
}

#[test]
fn media_is_fresh_until_its_time_is_over() {
    let second = 1_000_000_000;
    let ttl = Some(Duration::from_secs(5).as_nanos());
    assert!(is_fresh(Some(file(0, 1)), 5 * second, ttl));
    assert!(!is_fresh(Some(file(0, 1)), 5 * second + 1, ttl));
    let short = Some(Duration::from_millis(20).as_nanos());
    assert!(is_fresh(Some(file(0, 1)), 20_000_000, short));
    assert!(!is_fresh(Some(file(0, 1)), 20_000_001, short));
    assert!(!is_fresh(Some(file(2, 1)), 1, ttl));
    assert!(is_fresh(Some(file(0, 1)), i128::MAX, None));
    let longest = Some(Duration::MAX.as_nanos());
    assert!(!is_fresh(Some(file(i128::MIN, 1)), i128::MAX, longest));
    assert!(is_fresh(Some(file(i128::MIN, 1)), i128::MAX, Some(u128::MAX)));
    assert!(!is_fresh(None, 0, None));
    let unknown = FileFacts {
        is_file: true,
        modified: None,
        bytes: 1,
    };
    assert!(!is_fresh(Some(unknown), 0, ttl));
    assert!(is_fresh(Some(unknown), 0, None));
}
