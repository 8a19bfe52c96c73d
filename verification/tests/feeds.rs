use yt_dlp_feed::cache::{MetadataCache, WorkerAction};
use yt_dlp_feed::config::{Config, ServiceConfig, ServiceKind, SoundCloudFeedKind};
use yt_dlp_feed::exchange::{Headers, Method, Response};
use yt_dlp_feed::html::{render_index, render_index_for_user};
use yt_dlp_feed::identity::{
    cache_file_stem, identity_for, identity_hash, safe_part, FeedIdentity,
};
use yt_dlp_feed::markup::{escape_attr, escape_html};
use yt_dlp_feed::media::{fetch_error_text, FeedItem};
use yt_dlp_feed::metadata::{
    feed_title, namespace_map, service_display_name, truncate_error, CachedFeedMetadata, IndexJson,
    IndexSummary, MetadataCacheState, RefreshOutcome, RefreshPriority,
};
use yt_dlp_feed::routes::{
    answer_feed, audio_target, authenticated_config_user, authorize_config_user,
    base_url_from_headers, begin_feed, cached_media_not_modified, decide_audio, find_feed,
    find_item, finish_feed, healthz, index_json, index_page, limit_response, media_body,
    not_modified, open_audio, open_feed, parse_byte_range, range_not_satisfiable, readyz, refresh_requested,
    serve_cached_media, stream_response, AudioDecision, MediaFacts,
};
use yt_dlp_feed::timestamp::{http_date, rfc3339, Timestamp};
use yt_dlp_feed::urls::{audio_path, feed_path};

/// 1994-11-06T08:49:37Z.
const SECOND: i64 = 784_111_777;

fn at(seconds: i64, nanos: u32) -> Timestamp {
    Timestamp::new(seconds, nanos).expect("a second in range")
}

fn item(id: &str, title: &str) -> FeedItem {
    FeedItem {
        id: id.to_string(),
        title: title.to_string(),
        webpage_url: format!("https://soundcloud.com/dereknet/{id}"),
        description: Some(format!("About {title}")),
        published_at: None,
        content_length: Some(12),
        thumbnail_url: Some(format!("https://example.test/{id}.jpg")),
    }
}

fn items() -> Vec<FeedItem> {
    vec![item("track-2", "Track Two"), item("track-1", "Track One")]
}

fn dereknet(config: &Config) -> ServiceConfig {
    config
        .service("derek", ServiceKind::Soundcloud, "dereknet")
        .expect("default service")
        .clone()
}

fn warm_cache(config: &Config) -> MetadataCache {
    let mut cache = MetadataCache::new(config.clone());
    for (identity, service) in cache.configured_feeds() {
        cache.store_success_for_test(identity, &service, items(), at(SECOND, 0));
    }
    cache
}

fn identity(feed: SoundCloudFeedKind) -> FeedIdentity {
    identity_for("derek", &dereknet(&Config::default()), feed)
}

fn headers(pairs: &[(&str, &str)]) -> Headers {
    let mut headers = Headers::new();
    for (name, value) in pairs {
        headers.add(name, value.as_bytes().to_vec());
    }
    headers
}

fn header<'a>(response: &'a Response, name: &str) -> Option<&'a str> {
    response
        .headers
        .iter()
        .find(|(key, _)| key == name)
        .map(|(_, value)| value.as_str())
}

fn configured_feed_path(name: &str, feed: SoundCloudFeedKind) -> String {
    let config = Config::default();
    let user = &config.users[0];
    let service = config
        .service(&user.name, ServiceKind::Soundcloud, name)
        .expect("configured test service");
    feed_path(&user.name, service.kind.as_path(), &service.name, feed)
}

fn configured_media_url(name: &str, item_id: &str) -> String {
    let config = Config::default();
    let user = &config.users[0];
    let service = config
        .service(&user.name, ServiceKind::Soundcloud, name)
        .expect("configured test service");
    format!(
        "http://example.test/users/{}/{}/{}/items/{}/audio.m4a",
        urlencoding::encode(&user.name),
        urlencoding::encode(service.kind.as_path()),
        urlencoding::encode(&service.name),
        urlencoding::encode(item_id)
    )
}

fn empty_index() -> IndexJson {
    IndexJson {
        generated_at: at(SECOND, 0),
        summary: IndexSummary {
            feeds_total: 0,
            feeds_ready: 0,
            feeds_missing: 0,
            refreshes_in_progress: 0,
        },
        feeds: vec![],
    }
}

#[test]
fn index_contains_profile_and_likes_links() {
    let html = render_index(&Config::default(), &empty_index());

    assert!(html.contains(&configured_feed_path(
        "dereknet",
        SoundCloudFeedKind::Profile
    )));
    assert!(html.contains(&configured_feed_path("dereknet", SoundCloudFeedKind::Likes)));
    assert!(html.contains(&configured_feed_path("NTS", SoundCloudFeedKind::Profile)));
    assert!(html.contains(&configured_feed_path("NTS", SoundCloudFeedKind::Likes)));
    assert!(html.contains("https://soundcloud.com/dereknet"));
    assert!(html.contains("https://soundcloud.com/dereknet/likes"));
    assert!(html.contains("https://soundcloud.com/user-202286394-991268468"));
    assert!(html.contains("https://soundcloud.com/user-202286394-991268468/likes"));
    assert!(html.contains(
        r#"<a class="source-url" href="https://soundcloud.com/dereknet">https://soundcloud.com/dereknet</a>"#
    ));
    assert!(html.contains("<strong>SoundCloud: NTS / Profile</strong>"));
    assert!(html.contains("<strong>SoundCloud: NTS / Likes</strong>"));
    assert!(!html.contains("derek / soundcloud / NTS Profile"));
    assert!(html.contains("RSS"));
}

#[test]
fn index_lists_configured_feed_links() {
    let config = Config::default();
    let cache = warm_cache(&config);
    let page = index_page(render_index_for_user(
        &config,
        &cache.index_json_for_user(None, at(SECOND, 0)),
        None,
    ));
    let html = page.body;

    assert!(html.contains(&configured_feed_path(
        "dereknet",
        SoundCloudFeedKind::Profile
    )));
    assert!(html.contains(&configured_feed_path("dereknet", SoundCloudFeedKind::Likes)));
    assert!(html.contains(&configured_feed_path("NTS", SoundCloudFeedKind::Profile)));
    assert!(html.contains(&configured_feed_path("NTS", SoundCloudFeedKind::Likes)));
    assert!(html.contains("State: ready · Last fetched (UTC): 1994-11-06T08:49:37Z"));
}

#[test]
fn the_index_of_nobody_has_no_feeds() {
    let config = Config::default();
    let html = render_index_for_user(&config, &empty_index(), Some("nobody"));
    assert!(html.contains("<p>No feeds are configured.</p>"));
    assert!(!html.contains("/users/derek"));
    assert!(html.starts_with("<!doctype html>\n"));
    assert!(html.ends_with("</html>"));
}

#[test]
fn markup_is_escaped() {
    assert_eq!(escape_html("<a & \"b\">"), "&lt;a &amp; \"b\"&gt;");
    assert_eq!(escape_attr("<a & \"b\">"), "&lt;a &amp; &quot;b&quot;&gt;");
    assert_eq!(escape_html("&lt;"), "&amp;lt;");
}

#[test]
fn routes_are_percent_encoded() {
    assert_eq!(
        feed_path("a b/c", "soundcloud", "é~", SoundCloudFeedKind::Likes),
        "/users/a%20b%2Fc/soundcloud/%C3%A9~/likes.xml"
    );
    assert_eq!(
        audio_path("a", "soundcloud", "b", "1?2"),
        "/users/a/soundcloud/b/items/1%3F2/audio.m4a"
    );
}

#[test]
fn healthz_responds_ok() {
    let response = healthz();
    assert_eq!(response.status, 200);
    assert_eq!(response.body, "ok");
}

#[test]
fn rss_contains_stable_audio_enclosure() {
    let config = Config::default();
    let mut cache = warm_cache(&config);
    let target = find_feed(&config, "derek", "dereknet", SoundCloudFeedKind::Profile)
        .expect("configured feed");
    let response = finish_feed(
        &mut cache,
        &headers(&[("host", "example.test")]),
        "derek",
        &target,
        None,
        None,
    )
    .expect("a date in range");
    let xml = response.body;

    assert!(xml.contains("Track One"));
    assert!(xml.contains(&configured_media_url("dereknet", "track-1")));
    assert!(xml.contains("audio/mp4"));
    assert!(xml.contains("media:thumbnail"));
    assert!(xml.contains("itunes:image"));
    assert!(xml.find("Track Two").unwrap() < xml.find("Track One").unwrap());
    assert!(xml.contains("<lastBuildDate>Sun, 06 Nov 1994 08:49:37 GMT</lastBuildDate>"));
    assert!(xml.contains("length=\"12\""));
    assert!(xml.contains("xmlns:itunes=\"http://www.itunes.com/dtds/podcast-1.0.dtd\""));
}

#[test]
fn authenticated_user_must_match_route_user() {
    let mut config = Config::default();
    config.auth.enabled = true;
    config.auth.username = Some("derek".to_string());
    config.auth.password = Some("secret".to_string());

    let response = authorize_config_user(&config, Some("derek"), "someone-else").unwrap_err();
    assert_eq!(response.status, 403);
    let response = authorize_config_user(&config, None, "derek").unwrap_err();
    assert_eq!(response.status, 401);
    assert_eq!(authorize_config_user(&config, Some("derek"), "derek"), Ok(()));
    assert_eq!(authenticated_config_user(&config, Some("derek")), Some("derek"));
    config.auth.enabled = false;
    assert_eq!(authorize_config_user(&config, None, "derek"), Ok(()));
    assert_eq!(authenticated_config_user(&config, Some("derek")), None);
}

#[test]
fn index_json_contains_metadata_status_summary() {
    let config = Config::default();
    let index = warm_cache(&config).index_json(at(SECOND, 5));

    assert_eq!(index.generated_at, at(SECOND, 5));
    assert_eq!(index.summary.feeds_missing, 0);
    assert_eq!(index.summary.feeds_total, 4);
    assert_eq!(index.summary.feeds_ready, 4);
    assert_eq!(index.feeds[0].metadata_cache.state, MetadataCacheState::Ready);
    assert_eq!(index.feeds[0].name, "dereknet");
    assert_eq!(index.feeds[0].item_count, Some(2));
    assert_eq!(index.feeds[1].feed, "likes");
    assert_eq!(
        index.feeds[1].source_url,
        "https://soundcloud.com/dereknet/likes"
    );
    assert_eq!(index.feeds[3].title, "SoundCloud: NTS / Likes");
    assert_eq!(warm_cache(&config).index_json_for_user(Some("x"), at(0, 0)).feeds, vec![]);
}

#[test]
fn readyz_reports_ready_when_all_feeds_have_metadata() {
    let config = Config::default();
    let response = readyz(warm_cache(&config).ready_missing_count());
    assert_eq!(response.status, 200);

    let mut cache = MetadataCache::new(config);
    let profile = identity(SoundCloudFeedKind::Profile);
    cache.store_success_for_test(profile, &dereknet(&Config::default()), vec![], at(0, 0));
    let response = readyz(cache.ready_missing_count());
    assert_eq!(response.status, 503);
    assert_eq!(response.body, "metadata cache warming: 3 feed(s) missing");
}

#[test]
fn cached_media_supports_byte_ranges() {
    let reply = serve_cached_media(
        Method::Get,
        &headers(&[("range", "bytes=2-4")]),
        Ok(MediaFacts {
            len: 6,
            modified: Some(1_000_000_001),
        }),
    )
    .expect("a date in range");
    assert_eq!(reply.response.status, 206);
    assert_eq!(header(&reply.response, "content-range"), Some("bytes 2-4/6"));
    assert_eq!(header(&reply.response, "content-length"), Some("3"));
    assert_eq!(
        header(&reply.response, "last-modified"),
        Some("Thu, 01 Jan 1970 00:00:01 GMT")
    );
    let (start, end) = reply.body.expect("a body");
    assert_eq!(media_body(&b"abcdef".to_vec(), start, end), b"cde");
}

#[test]
fn cached_media_head_includes_lengths_without_body() {
    let reply = serve_cached_media(
        Method::Head,
        &Headers::new(),
        Ok(MediaFacts {
            len: 6,
            modified: None,
        }),
    )
    .expect("no date");
    assert_eq!(reply.response.status, 200);
    assert_eq!(header(&reply.response, "content-length"), Some("6"));
    assert_eq!(header(&reply.response, "accept-ranges"), Some("bytes"));
    assert_eq!(header(&reply.response, "content-type"), Some("audio/mp4"));
    assert_eq!(reply.body, None);
    assert!(reply.response.body.is_empty());
}

#[test]
fn byte_ranges_are_read_in_all_their_forms() {
    assert_eq!(parse_byte_range("bytes=0-0", 6), Some((0, 0)));
    assert_eq!(parse_byte_range("bytes=2-", 6), Some((2, 5)));
    assert_eq!(parse_byte_range("bytes=2-99", 6), Some((2, 5)));
    assert_eq!(parse_byte_range("bytes=-2", 6), Some((4, 5)));
    assert_eq!(parse_byte_range("bytes=-99", 6), Some((0, 5)));
    assert_eq!(parse_byte_range("bytes=-0", 6), None);
    assert_eq!(parse_byte_range("bytes=6-7", 6), None);
    assert_eq!(parse_byte_range("bytes=4-2", 6), None);
    assert_eq!(parse_byte_range("bytes=0-1,3-4", 6), None);
    assert_eq!(parse_byte_range("bytes=-", 6), None);
    assert_eq!(parse_byte_range("bytes=x-1", 6), None);
    assert_eq!(parse_byte_range("items=0-1", 6), None);
    assert_eq!(parse_byte_range("bytes=0-1", 0), None);
}

#[test]
fn ranges_that_cannot_be_satisfied_are_answered_so() {
    let known = Ok(MediaFacts {
        len: 6,
        modified: None,
    });
    let mut opaque = Headers::new();
    opaque.add("range", vec![0xff]);
    for asked in [headers(&[("range", "bytes=9-")]), opaque] {
        let reply = serve_cached_media(Method::Get, &asked, known.clone()).unwrap();
        assert_eq!(reply.response, range_not_satisfiable(6));
        assert_eq!(reply.body, None);
    }
    assert_eq!(range_not_satisfiable(6).status, 416);
    assert_eq!(
        header(&range_not_satisfiable(6), "content-range"),
        Some("bytes */6")
    );
}

#[test]
fn cached_media_of_no_bytes_has_no_body() {
    let reply = serve_cached_media(
        Method::Get,
        &Headers::new(),
        Ok(MediaFacts {
            len: 0,
            modified: None,
        }),
    )
    .unwrap();
    assert_eq!(reply.response.status, 200);
    assert_eq!(header(&reply.response, "content-length"), Some("0"));
    assert_eq!(reply.body, None);
}

#[test]
fn cached_media_is_not_sent_again_unless_it_changed() {
    let since = headers(&[("if-modified-since", "Thu, 01 Jan 1970 00:00:01 GMT")]);
    let second = 1_000_000_000;
    assert!(cached_media_not_modified(&since, Some(second)));
    assert!(!cached_media_not_modified(&since, Some(second + 1)));
    assert!(!cached_media_not_modified(&since, None));
    let known = Ok(MediaFacts {
        len: 6,
        modified: Some(second),
    });
    let reply = serve_cached_media(Method::Get, &since, known.clone()).unwrap();
    assert_eq!(reply.response.status, 304);
    let reply = serve_cached_media(Method::Head, &since, known).unwrap();
    assert_eq!(reply.response.status, 200);
}

#[test]
fn cached_media_that_cannot_be_told_of_is_an_error() {
    let reply = serve_cached_media(Method::Get, &Headers::new(), Err("gone".to_string())).unwrap();
    assert_eq!(reply.response.status, 500);
    assert_eq!(reply.response.body, "gone");
    let ancient = Ok(MediaFacts {
        len: 1,
        modified: Some(-1),
    });
    assert_eq!(serve_cached_media(Method::Get, &Headers::new(), ancient), None);
}

#[test]
fn bodies_of_files_that_became_shorter_are_empty() {
    assert_eq!(media_body(&b"ab".to_vec(), 1, 2), b"");
    assert_eq!(media_body(&b"ab".to_vec(), 0, 1), b"ab");
    assert_eq!(media_body(&b"ab".to_vec(), 1, 0), b"");
}

#[test]
fn feeds_without_metadata_are_warming() {
    let config = Config::default();
    let mut cache = MetadataCache::new(config.clone());
    let target = find_feed(&config, "derek", "NTS", SoundCloudFeedKind::Likes).unwrap();
    assert!(begin_feed(&mut cache, &target, None, 1, None).is_none());
    let response = finish_feed(&mut cache, &Headers::new(), "derek", &target, None, None).unwrap();
    assert_eq!(response.status, 503);
    assert_eq!(header(&response, "x-yt-dlp-feed-refresh"), None);
    assert_eq!(
        response.body,
        "feed metadata cache is warming; no cached metadata is available yet"
    );
    assert_eq!(cache.queue_size(), 1);
    assert_eq!(
        cache.status(&target.identity).state,
        MetadataCacheState::Warming
    );

    let handle = begin_feed(&mut cache, &target, Some("1"), 2, None).unwrap();
    assert_eq!(handle.already_running(), Some(MetadataCacheState::Warming));
    let outcome = handle.wait(None);
    let response =
        finish_feed(&mut cache, &Headers::new(), "derek", &target, Some(outcome), None).unwrap();
    assert_eq!(response.status, 503);
    assert_eq!(header(&response, "x-yt-dlp-feed-refresh"), Some("warming"));
    assert_eq!(cache.queue_size(), 1);
}

#[test]
fn running_refreshes_serve_what_is_in_the_file() {
    let config = Config::default();
    let target = find_feed(&config, "derek", "NTS", SoundCloudFeedKind::Profile).unwrap();
    let warm = warm_cache(&config);
    let file = warm.cached(&target.identity).expect("cached metadata");
    let mut cache = MetadataCache::new(config.clone());
    assert_eq!(
        begin_feed(&mut cache, &target, Some("1"), 1, None)
            .unwrap()
            .already_running(),
        None
    );
    let mut other = file.clone();
    other.schema_version = 2;
    assert_eq!(
        begin_feed(&mut cache, &target, Some("1"), 2, Some(other))
            .unwrap()
            .already_running(),
        Some(MetadataCacheState::Warming)
    );
    let handle = begin_feed(&mut cache, &target, Some("1"), 3, Some(file.clone())).unwrap();
    assert_eq!(
        handle.already_running(),
        Some(MetadataCacheState::Refreshing)
    );
    assert_eq!(cache.queue_size(), 1);
    let response = finish_feed(
        &mut cache,
        &Headers::new(),
        "derek",
        &target,
        Some(handle.wait(None)),
        None,
    )
    .unwrap();
    assert_eq!(response.status, 200);
    assert_eq!(
        header(&response, "x-yt-dlp-feed-refresh"),
        Some("refreshing")
    );
}

#[test]
fn answers_tell_of_the_metadata_at_hand() {
    let config = Config::default();
    let target = find_feed(&config, "derek", "NTS", SoundCloudFeedKind::Profile).unwrap();
    let warm = warm_cache(&config);
    let file = warm.cached(&target.identity).expect("cached metadata");
    for (outcome, told) in [
        (
            RefreshOutcome::AlreadyRunning(MetadataCacheState::Warming),
            "refreshing",
        ),
        (RefreshOutcome::Failed(MetadataCacheState::Error), "stale"),
    ] {
        let mut cache = MetadataCache::new(config.clone());
        let response = finish_feed(
            &mut cache,
            &Headers::new(),
            "derek",
            &target,
            Some(outcome),
            Some(file.clone()),
        )
        .unwrap();
        assert_eq!(response.status, 200);
        assert_eq!(header(&response, "x-yt-dlp-feed-refresh"), Some(told));
    }
}

#[test]
fn manual_refreshes_tell_how_they_ended() {
    let config = Config::default();
    let mut cache = warm_cache(&config);
    let target = find_feed(&config, "derek", "NTS", SoundCloudFeedKind::Profile).unwrap();
    let handle = begin_feed(&mut cache, &target, Some("true"), 9, None).unwrap();
    assert_eq!(handle.already_running(), None);
    assert_eq!(
        begin_feed(&mut cache, &target, Some("1"), 10, None)
            .unwrap()
            .already_running(),
        Some(MetadataCacheState::Refreshing)
    );
    let job = cache.next_job().expect("queued refresh");
    assert_eq!(job.source_url, "https://soundcloud.com/user-202286394-991268468");
    let (outcome, waiters) =
        cache.complete_refresh(&job.identity, Err("e".repeat(600)));
    assert_eq!(outcome, RefreshOutcome::Failed(MetadataCacheState::Stale));
    assert_eq!(waiters, vec![9]);
    let status = cache.status(&job.identity);
    assert_eq!(status.state, MetadataCacheState::Stale);
    assert_eq!(status.last_error, Some("e".repeat(500)));
    let response = finish_feed(
        &mut cache,
        &Headers::new(),
        "derek",
        &target,
        Some(handle.wait(Some(outcome))),
        None,
    )
    .unwrap();
    assert_eq!(response.status, 200);
    assert_eq!(header(&response, "x-yt-dlp-feed-refresh"), Some("stale"));
    assert!(response.body.contains("Track Two"));

    let handle = begin_feed(&mut cache, &target, Some("1"), 11, None).unwrap();
    let job = cache.next_job().expect("queued refresh");
    let cached = job.refreshed(vec![item("new", "New")], at(SECOND + 1, 0));
    let (outcome, waiters) = cache.complete_refresh(&job.identity, Ok(cached));
    assert_eq!(waiters, vec![11]);
    let response = finish_feed(
        &mut cache,
        &headers(&[("if-modified-since", "Sun, 06 Nov 2094 08:49:37 GMT")]),
        "derek",
        &target,
        Some(handle.wait(Some(outcome))),
        None,
    )
    .unwrap();
    assert_eq!(response.status, 200);
    assert_eq!(header(&response, "x-yt-dlp-feed-refresh"), Some("ready"));
    assert!(!response.body.contains("Track Two"));
    assert_eq!(cache.status(&job.identity).last_error, None);
}

#[test]
fn a_refresh_of_which_nothing_is_heard_has_failed() {
    let config = Config::default();
    let mut cache = MetadataCache::new(config.clone());
    let service = dereknet(&config);
    let profile = identity(SoundCloudFeedKind::Profile);
    let handle = cache.enqueue_refresh(profile, &service, RefreshPriority::Manual, Some(1), None);
    assert_eq!(
        handle.wait(None),
        RefreshOutcome::Failed(MetadataCacheState::Error)
    );
}

#[test]
fn manual_refreshes_go_before_scheduled_ones() {
    let config = Config::default();
    let mut cache = MetadataCache::new(config.clone());
    cache.enqueue_missing();
    cache.enqueue_missing();
    assert_eq!(cache.queue_size(), 4);
    let nts = config
        .service("derek", ServiceKind::Soundcloud, "NTS")
        .unwrap()
        .clone();
    let likes = identity_for("derek", &nts, SoundCloudFeedKind::Likes);
    let handle = cache.enqueue_refresh(likes, &nts, RefreshPriority::Manual, None, None);
    assert_eq!(handle.already_running(), Some(MetadataCacheState::Warming));
    let first = cache.next_job().unwrap();
    assert_eq!(first.identity, identity(SoundCloudFeedKind::Profile));
    cache.complete_refresh(&first.identity, Err("no".to_string()));
    assert_eq!(
        cache.status(&first.identity).state,
        MetadataCacheState::Error
    );
    cache.enqueue_refresh(
        first.identity.clone(),
        &dereknet(&config),
        RefreshPriority::Manual,
        None,
        None,
    );
    let next = cache.next_job().unwrap();
    assert_eq!(next.identity, first.identity);
    assert_eq!(
        cache.next_job().unwrap().identity,
        identity(SoundCloudFeedKind::Likes)
    );
}

#[test]
fn scheduled_refreshes_leave_recent_feeds_alone() {
    let config = Config::default();
    let mut cache = warm_cache(&config);
    cache.enqueue_due_scheduled(at(SECOND + 3599, 999_999_999));
    assert_eq!(cache.queue_size(), 0);
    assert!(cache.next_job().is_none());
    cache.enqueue_due_scheduled(at(SECOND + 3600, 0));
    assert_eq!(cache.queue_size(), 4);
}

#[test]
fn only_one_worker_is_granted() {
    let mut cache = MetadataCache::new(Config::default());
    assert!(cache.claim_worker());
    assert!(!cache.claim_worker());
}

#[test]
fn metadata_files_are_taken_over_once() {
    let config = Config::default();
    let mut cache = MetadataCache::new(config.clone());
    let profile = identity(SoundCloudFeedKind::Profile);
    let file = |version: u32, source: &str| CachedFeedMetadata {
        schema_version: version,
        user: "derek".to_string(),
        service: ServiceKind::Soundcloud,
        name: "dereknet".to_string(),
        feed: SoundCloudFeedKind::Profile,
        source_url: source.to_string(),
        last_successful_refresh: at(1, 0),
        items: vec![],
    };
    assert_eq!(cache.get(&profile, None), None);
    assert_eq!(cache.get(&profile, Some(file(2, "a"))), None);
    assert_eq!(cache.get(&profile, Some(file(1, "b"))), Some(file(1, "b")));
    assert_eq!(cache.get(&profile, Some(file(1, "c"))), Some(file(1, "b")));
    assert_eq!(cache.cached(&profile), Some(&file(1, "b")));
    assert_eq!(
        cache.status(&profile).last_successful_refresh,
        Some(at(1, 0))
    );
    assert_eq!(cache.index_json(at(0, 0)).feeds[0].item_count, None);
}

#[test]
fn metadata_files_have_safe_names() {
    let cache = MetadataCache::new(Config::default());
    let odd = FeedIdentity {
        user: "../é".to_string(),
        service: ServiceKind::Soundcloud,
        name: String::new(),
        feed: SoundCloudFeedKind::Likes,
    };
    let hash = identity_hash(&odd);
    assert_eq!(hash.len(), 64);
    let stem = format!("____{}__soundcloud__empty__likes__{}", "", &hash[..12]);
    assert_eq!(cache_file_stem(&odd), stem);
    assert_eq!(
        cache.cache_path(&odd),
        format!("./data/feed-metadata/{stem}.json")
    );
    assert_eq!(
        cache.temp_cache_path(&odd),
        format!("./data/feed-metadata/{stem}.json.tmp")
    );
    assert_eq!(safe_part("a-b_C 9/"), "a-b_C_9_");
    assert_eq!(safe_part(""), "empty");
}

#[test]
fn feeds_that_are_not_configured_are_not_found() {
    let mut config = Config::default();
    config.users[0].services[0].feeds = vec![SoundCloudFeedKind::Profile];
    for (user, name, feed) in [
        ("derek", "dereknet", SoundCloudFeedKind::Likes),
        ("derek", "other", SoundCloudFeedKind::Profile),
        ("other", "dereknet", SoundCloudFeedKind::Profile),
    ] {
        let response = find_feed(&config, user, name, feed).unwrap_err();
        assert_eq!(response.status, 404);
        assert!(response.headers.is_empty());
    }
}

#[test]
fn feeds_are_not_sent_again_unless_they_were_refreshed() {
    let date = http_date(&at(SECOND, 5));
    assert_eq!(date, "Sun, 06 Nov 1994 08:49:37 GMT");
    let since = headers(&[("If-Modified-Since", &date)]);
    assert!(not_modified(&since, &at(SECOND, 0)));
    assert!(!not_modified(&since, &at(SECOND, 1)));
    assert!(!not_modified(&headers(&[("if-modified-since", "soon")]), &at(0, 0)));
    assert!(!not_modified(&Headers::new(), &at(0, 0)));
    let obsolete = headers(&[("if-modified-since", "Sunday, 06-Nov-94 08:49:37 GMT")]);
    assert!(not_modified(&obsolete, &at(SECOND, 0)));

    let config = Config::default();
    let service = dereknet(&config);
    let mut cache = warm_cache(&config);
    let target = find_feed(&config, "derek", "dereknet", SoundCloudFeedKind::Likes).unwrap();
    let response = finish_feed(&mut cache, &since, "derek", &target, None, None).unwrap();
    assert_eq!(response.status, 304);
    assert!(response.headers.is_empty());
    let reply = answer_feed(
        &since,
        "derek",
        &service,
        SoundCloudFeedKind::Likes,
        Some(RefreshOutcome::Refreshed),
        cache.cached(&target.identity),
    )
    .unwrap();
    assert_eq!(reply.response.status, 200);
    assert_eq!(
        header(&reply.response, "last-modified"),
        Some("Sun, 06 Nov 1994 08:49:37 GMT")
    );
    assert!(!reply.enqueue_scheduled);
}

#[test]
fn feeds_of_times_without_a_date_have_no_answer() {
    let config = Config::default();
    let mut cache = MetadataCache::new(config.clone());
    let target = find_feed(&config, "derek", "dereknet", SoundCloudFeedKind::Likes).unwrap();
    cache.store_success_for_test(
        target.identity.clone(),
        &target.service,
        vec![],
        at(253_402_300_800, 0),
    );
    assert!(finish_feed(&mut cache, &Headers::new(), "derek", &target, None, None).is_none());
}

#[test]
fn base_urls_prefer_the_proxy() {
    assert_eq!(base_url_from_headers(&Headers::new()), "http://localhost");
    assert_eq!(
        base_url_from_headers(&headers(&[("host", "a:1")])),
        "http://a:1"
    );
    assert_eq!(
        base_url_from_headers(&headers(&[
            ("host", "a"),
            ("x-forwarded-host", "b"),
            ("x-forwarded-proto", "https")
        ])),
        "https://b"
    );
    let mut opaque = headers(&[("host", "a")]);
    opaque.add("x-forwarded-host", vec![0xff]);
    assert_eq!(base_url_from_headers(&opaque), "http://localhost");
}

#[test]
fn items_are_found_in_the_feeds_of_their_service() {
    let config = Config::default();
    let mut cache = MetadataCache::new(config.clone());
    let service = dereknet(&config);
    cache.store_success_for_test(
        identity(SoundCloudFeedKind::Likes),
        &service,
        vec![item("liked", "Liked"), item("liked", "Again")],
        at(0, 0),
    );
    let found = find_item(&cache, &service, "derek", "liked").unwrap();
    assert_eq!(found.title, "Liked");
    assert_eq!(find_item(&cache, &service, "derek", "none"), None);
    assert_eq!(find_item(&cache, &service, "other", "liked"), None);
    let target = audio_target(&config, "derek", "dereknet", &found);
    assert_eq!(target.source_url, "https://soundcloud.com/dereknet/liked");
    assert_eq!(target.path, format!("./data/media/{}.m4a", target.key));
}

#[test]
fn audio_is_opened_for_those_who_may_see_it() {
    let mut config = Config::default();
    let cache = warm_cache(&config);
    let target = open_audio(&config, &cache, None, "derek", "NTS", "track-1").unwrap();
    assert_eq!(
        target.source_url,
        "https://soundcloud.com/dereknet/track-1"
    );
    for (user, name, id) in [
        ("derek", "NTS", "track-3"),
        ("derek", "none", "track-1"),
        ("none", "NTS", "track-1"),
    ] {
        let response = open_audio(&config, &cache, None, user, name, id).unwrap_err();
        assert_eq!(response.status, 404);
    }
    config.auth.enabled = true;
    let refused = open_audio(&config, &cache, None, "none", "NTS", "track-1").unwrap_err();
    assert_eq!(refused.status, 401);
    let profile = SoundCloudFeedKind::Profile;
    let refused = open_feed(&config, Some("x"), "derek", "NTS", profile).unwrap_err();
    assert_eq!(refused.status, 403);
    let opened = open_feed(&config, Some("derek"), "derek", "NTS", profile).unwrap();
    assert_eq!(opened.identity.name, "NTS");
    let missing = open_feed(&config, Some("derek"), "derek", "x", profile).unwrap_err();
    assert_eq!(missing.status, 404);
}

#[test]
fn metadata_is_in_service_only_when_it_is_written() {
    let config = Config::default();
    let mut cache = MetadataCache::new(config.clone());
    cache.enqueue_missing();
    let job = cache.next_job().unwrap();
    let WorkerAction::Write { cached } = cache.on_fetched(&job, Ok(items()), at(SECOND, 0), None)
    else {
        panic!("fetched items are written");
    };
    assert_eq!(cached.items[1].id, "track-1");
    assert_eq!(cached.schema_version, 1);
    assert_eq!(cache.cached(&job.identity), None);
    let (outcome, _) = cache.on_written(&job, cached.clone(), Err("disk full".to_string()), None);
    assert_eq!(outcome, RefreshOutcome::Failed(MetadataCacheState::Error));
    assert_eq!(cache.cached(&job.identity), None);
    let (outcome, _) = cache.on_written(&job, cached.clone(), Ok(()), None);
    assert_eq!(outcome, RefreshOutcome::Refreshed);
    assert_eq!(cache.cached(&job.identity), Some(&cached));
    match cache.on_fetched(&job, Err("offline".to_string()), at(SECOND, 0), None) {
        WorkerAction::Tell { outcome, waiters } => {
            assert_eq!(outcome, RefreshOutcome::Failed(MetadataCacheState::Stale));
            assert!(waiters.is_empty());
        }
        other => panic!("unexpected action: {other:?}"),
    }
    assert_eq!(cache.cached(&job.identity), Some(&cached));
}

#[test]
fn audio_is_served_downloaded_or_not_found() {
    assert_eq!(decide_audio(Method::Get, true), AudioDecision::Serve);
    assert_eq!(decide_audio(Method::Head, true), AudioDecision::Serve);
    assert_eq!(decide_audio(Method::Head, false), AudioDecision::NotFound);
    assert_eq!(decide_audio(Method::Get, false), AudioDecision::Download);
    let limit = limit_response();
    assert_eq!(limit.status, 503);
    assert_eq!(header(&limit, "retry-after"), Some("30"));
    assert_eq!(limit.body, "maximum concurrent media downloads reached");
    assert_eq!(header(&stream_response(), "content-type"), Some("audio/mp4"));
}

#[test]
fn refreshes_are_asked_for_by_two_words() {
    assert!(refresh_requested(Some("1")));
    assert!(refresh_requested(Some("true")));
    assert!(!refresh_requested(Some("yes")));
    assert!(!refresh_requested(None));
}

#[test]
fn json_that_cannot_be_written_is_an_error() {
    let response = index_json(Ok("{}".to_string()));
    assert_eq!(response.status, 200);
    assert_eq!(
        header(&response, "content-type"),
        Some("application/json; charset=utf-8")
    );
    let response = index_json(Err("no".to_string()));
    assert_eq!(response.status, 500);
    assert_eq!(response.body, "no");
}

#[test]
fn titles_and_errors_are_written_for_readers() {
    let service = dereknet(&Config::default());
    assert_eq!(
        feed_title(&service, SoundCloudFeedKind::Profile),
        "SoundCloud: dereknet / Profile"
    );
    assert_eq!(service_display_name("other"), "other");
    assert_eq!(
        fetch_error_text("url", SoundCloudFeedKind::Likes),
        "failed to fetch Likes metadata for url"
    );
    assert_eq!(truncate_error("short"), "short");
    assert_eq!(truncate_error(&"é".repeat(501)), "é".repeat(500));
    assert_eq!(namespace_map()[2].0, "media");
    assert_eq!(MetadataCacheState::Missing.as_header_value(), "missing");
}

#[test]
fn timestamps_are_written_to_the_second() {
    assert_eq!(rfc3339(&at(SECOND, 999_999_999)), "1994-11-06T08:49:37Z");
    assert_eq!(rfc3339(&at(-1, 0)), "1969-12-31T23:59:59Z");
    assert_eq!(at(-1, 7).seconds(), -1);
    assert_eq!(at(-1, 7).nanos(), 7);
    assert_eq!(at(-1, 7).as_nanos(), -999_999_993);
    assert_eq!(Timestamp::new(0, 1_000_000_000), None);
    assert!(Timestamp::new(8_210_266_876_799, 0).is_some());
    assert_eq!(Timestamp::new(8_210_266_876_800, 0), None);
    assert_eq!(
        rfc3339(&at(8_210_266_876_799, 0)),
        "+262142-12-31T23:59:59Z"
    );
    assert_eq!(
        rfc3339(&at(-8_334_601_228_800, 0)),
        "-262143-01-01T00:00:00Z"
    );
    assert_eq!(
        http_date(&at(253_402_300_799, 0)),
        "Fri, 31 Dec 9999 23:59:59 GMT"
    );
}

#[test]
fn a_failed_refresh_counts_what_is_in_the_file() {
    let config = Config::default();
    let mut cache = MetadataCache::new(config.clone());
    cache.enqueue_missing();
    let job = cache.next_job().unwrap();
    let file = job.refreshed(vec![item("old", "Old")], at(SECOND, 0));
    match cache.on_fetched(
        &job,
        Err("offline".to_string()),
        at(SECOND + 1, 0),
        Some(file.clone()),
    ) {
        WorkerAction::Tell { outcome, .. } => {
            assert_eq!(outcome, RefreshOutcome::Failed(MetadataCacheState::Stale));
        }
        other => panic!("unexpected action: {other:?}"),
    }
    assert_eq!(cache.cached(&job.identity), Some(&file));
    let mut cache = MetadataCache::new(config);
    let (outcome, _) = cache.on_written(
        &job,
        job.refreshed(vec![], at(SECOND + 1, 0)),
        Err("disk full".to_string()),
        Some(file.clone()),
    );
    assert_eq!(outcome, RefreshOutcome::Failed(MetadataCacheState::Stale));
    assert_eq!(cache.cached(&job.identity), Some(&file));
}

#[test]
fn files_of_all_feeds_are_recalled() {
    let config = Config::default();
    let warm = warm_cache(&config);
    let mut cache = MetadataCache::new(config);
    let feeds = cache.configured_feeds();
    assert_eq!(feeds.len(), 4);
    let mut other = warm.cached(&feeds[1].0).unwrap().clone();
    other.schema_version = 2;
    cache.recall_all(vec![warm.cached(&feeds[0].0).cloned(), Some(other), None]);
    assert_eq!(cache.ready_missing_count(), 3);
    assert_eq!(cache.cached(&feeds[0].0), warm.cached(&feeds[0].0));
    let mut later = warm.cached(&feeds[0].0).unwrap().clone();
    later.items = vec![];
    cache.recall_all(vec![
        Some(later),
        warm.cached(&feeds[1].0).cloned(),
        None,
        warm.cached(&feeds[3].0).cloned(),
    ]);
    assert_eq!(cache.ready_missing_count(), 1);
    assert_eq!(cache.cached(&feeds[0].0), warm.cached(&feeds[0].0));
    cache.enqueue_missing();
    assert_eq!(cache.queue_size(), 1);
    assert_eq!(cache.next_job().unwrap().identity, feeds[2].0);
}

#[test]
fn leap_seconds_are_points_in_time() {
    // 2016-12-31T23:59:60.5Z.
    let leap = at(1_483_228_799, 1_500_000_000);
    assert_eq!(leap.seconds(), 1_483_228_799);
    assert_eq!(leap.nanos(), 1_500_000_000);
    assert_eq!(rfc3339(&leap), "2016-12-31T23:59:60Z");
    assert_eq!(http_date(&leap), "Sun, 01 Jan 2017 00:00:00 GMT");
    let next = headers(&[("if-modified-since", "Sun, 01 Jan 2017 00:00:00 GMT")]);
    assert!(not_modified(&next, &leap));
    let before = headers(&[("if-modified-since", "Sat, 31 Dec 2016 23:59:59 GMT")]);
    assert!(!not_modified(&before, &leap));
    assert_eq!(Timestamp::new(1_483_228_798, 1_500_000_000), None);
    assert_eq!(Timestamp::new(1_483_228_799, 2_000_000_000), None);

    let leap = at(59, 1_500_000_000);
    assert!(at(60, 0).is_within(1, &leap));
    assert!(!at(60, 0).is_within(0, &leap));
    assert!(at(60, 499_999_999).is_within(1, &leap));
    assert!(!at(60, 500_000_000).is_within(1, &leap));
}
