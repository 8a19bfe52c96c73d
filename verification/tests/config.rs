use std::time::Duration;

use yt_dlp_feed::config::{
    parse_bool, Config, ConfigWarning, DisconnectBehavior, ServiceConfig, ServiceKind,
    SoundCloudFeedKind, UserConfig,
};

#[test]
fn config_defaults_include_derek_soundcloud_feeds() {
    let config = Config::default();
    let service = config
        .service("derek", ServiceKind::Soundcloud, "dereknet")
        .expect("default derek soundcloud service");

    assert_eq!(service.profile_url, "https://soundcloud.com/dereknet");
    assert_eq!(
        service.feeds,
        vec![SoundCloudFeedKind::Profile, SoundCloudFeedKind::Likes]
    );
    assert_eq!(
        config.cache.disconnect_behavior,
        DisconnectBehavior::DelayCancel
    );
    assert_eq!(config.cache.disconnect_grace_seconds, 15);
    assert_eq!(config.cache.media_ttl_minutes, Some(360));
    assert_eq!(
        config.cache.media_ttl().map(Duration::from_secs),
        Some(Duration::from_secs(21_600))
    );
    assert_eq!(config.cache.media_max_megabytes, Some(10_240));
    assert_eq!(config.cache.media_max_bytes(), Some(10_737_418_240));
    assert!(!config.pip_tool_updates.enabled);
    assert!(config.pip_tool_updates.startup_check);
    assert_eq!(config.pip_tool_updates.interval_hours, Some(168));
    assert_eq!(config.pip_tool_updates.pip_package, "yt-dlp");
    assert_eq!(config.downloads.max_concurrent, 3);
    assert_eq!(config.downloads.probe_timeout_seconds, 300);
    assert_eq!(
        Duration::from_secs(config.downloads.probe_timeout()),
        Duration::from_secs(300)
    );

    let nts = config
        .service("derek", ServiceKind::Soundcloud, "NTS")
        .expect("default NTS soundcloud service");
    assert_eq!(
        nts.profile_url,
        "https://soundcloud.com/user-202286394-991268468"
    );
    assert_eq!(
        nts.feeds,
        vec![SoundCloudFeedKind::Profile, SoundCloudFeedKind::Likes]
    );
    assert_eq!(
        SoundCloudFeedKind::Likes.source_url(nts),
        "https://soundcloud.com/user-202286394-991268468/likes"
    );
}

#[test]
fn parses_bool_env_values() {
    assert_eq!(parse_bool("true"), Some(true));
    assert_eq!(parse_bool("1"), Some(true));
    assert_eq!(parse_bool("off"), Some(false));
    assert_eq!(parse_bool("wat"), None);
}

#[test]
fn switches_are_read_in_any_case_and_between_white_space() {
    assert_eq!(parse_bool(" YES\n"), Some(true));
    assert_eq!(parse_bool("On"), Some(true));
    assert_eq!(parse_bool("0"), Some(false));
    assert_eq!(parse_bool("FALSE"), Some(false));
    assert_eq!(parse_bool("\u{a0}no\u{3000}"), Some(false));
    assert_eq!(parse_bool(""), None);
    assert_eq!(parse_bool("tr ue"), None);
}

#[test]
fn environment_overrides_only_what_it_can_be_read_as() {
    let mut config = Config::default();
    assert!(!config.apply_env_overrides(None));
    assert_eq!(config, Config::default());
    assert!(config.apply_env_overrides(Some("wat")));
    assert_eq!(config, Config::default());
    assert!(!config.apply_env_overrides(Some("on")));
    assert!(config.pip_tool_updates.enabled);
    assert!(!config.apply_env_overrides(Some("off")));
    assert_eq!(config, Config::default());
}

#[test]
fn directories_lie_in_the_data_directory() {
    let mut config = Config::default();
    assert_eq!(config.media_dir(), "./data/media");
    assert_eq!(config.metadata_dir(), "./data/metadata");
    config.cache.data_dir = "/data/".to_string();
    assert_eq!(config.feed_metadata_dir(), "/data/feed-metadata");
    assert_eq!(config.libs_dir(), "/data/libs");
}

#[test]
fn durations_and_sizes_saturate() {
    let mut config = Config::default();
    config.cache.media_ttl_minutes = Some(u64::MAX);
    config.cache.media_max_megabytes = Some(u64::MAX / 1024);
    config.metadata.refresh_interval_hours = Some(2);
    config.pip_tool_updates.interval_hours = None;
    config.metadata.refresh_recent_grace_minutes = 60;
    assert_eq!(config.cache.media_ttl(), Some(u64::MAX));
    assert_eq!(config.cache.media_max_bytes(), Some(u64::MAX));
    assert_eq!(config.metadata.refresh_interval(), Some(7200));
    assert_eq!(config.pip_tool_updates.interval(), None);
    assert_eq!(config.metadata.refresh_recent_grace(), 3600);
    config.metadata.refresh_recent_grace_minutes = u64::MAX;
    assert_eq!(config.metadata.refresh_recent_grace(), -60);
    config.cache.media_ttl_minutes = None;
    assert_eq!(config.cache.media_ttl(), None);
}

#[test]
fn default_config_has_nothing_to_repair() {
    let mut config = Config::default();
    assert_eq!(config.lint_and_repair(), vec![]);
    assert_eq!(config, Config::default());
}

#[test]
fn lint_repairs_what_nothing_can_be_done_with() {
    let mut config = Config::default();
    config.downloads.max_concurrent = 0;
    config.downloads.probe_timeout_seconds = 0;
    config.metadata.refresh_interval_hours = Some(0);
    config.pip_tool_updates.interval_hours = Some(0);
    config.pip_tool_updates.pip_package = " \t".to_string();
    assert_eq!(
        config.lint_and_repair(),
        vec![
            ConfigWarning::NoConcurrentDownloads,
            ConfigWarning::NoProbeTimeout,
            ConfigWarning::NoRefreshInterval,
            ConfigWarning::NoUpdateInterval,
            ConfigWarning::EmptyPipPackage,
        ]
    );
    assert_eq!(config, Config::default());
    assert_eq!(config.lint_and_repair(), vec![]);
}

#[test]
fn lint_warns_of_settings_that_it_leaves() {
    let mut config = Config::default();
    config.server.bind = "0.0.0.0:8080".to_string();
    config.downloads.max_concurrent = 11;
    config.cache.media_ttl_minutes = Some(9);
    config.metadata.refresh_interval_hours = None;
    assert_eq!(
        config.lint_and_repair(),
        vec![
            ConfigWarning::OpenToAllInterfaces {
                bind: "0.0.0.0:8080".to_string()
            },
            ConfigWarning::ManyConcurrentDownloads { max_concurrent: 11 },
            ConfigWarning::ShortMediaTtl { minutes: 9 },
            ConfigWarning::RefreshDisabled,
        ]
    );

    let mut config = Config::default();
    config.auth.enabled = true;
    config.auth.username = Some("derek".to_string());
    config.auth.password = Some(String::new());
    assert_eq!(config.lint_and_repair(), vec![ConfigWarning::EmptyCredentials]);
}

#[test]
fn lint_warns_of_users_services_and_feeds() {
    let service = |name: &str, url: &str, feeds: Vec<SoundCloudFeedKind>| ServiceConfig {
        kind: ServiceKind::Soundcloud,
        name: name.to_string(),
        profile_url: url.to_string(),
        feeds,
    };
    let mut config = Config::default();
    config.users = vec![
        UserConfig {
            name: " ".to_string(),
            services: vec![
                service("", "", vec![]),
                service("a", "ftp://a", vec![]),
            ],
        },
        UserConfig {
            name: " ".to_string(),
            services: vec![service(
                "a",
                "http://a",
                vec![SoundCloudFeedKind::Likes, SoundCloudFeedKind::Likes],
            )],
        },
    ];
    let blank = " ".to_string();
    assert_eq!(
        config.lint_and_repair(),
        vec![
            ConfigWarning::EmptyUserName,
            ConfigWarning::EmptyServiceName { user: blank.clone() },
            ConfigWarning::EmptyProfileUrl {
                user: blank.clone(),
                name: String::new()
            },
            ConfigWarning::UnknownUrlScheme {
                user: blank.clone(),
                name: "a".to_string(),
                profile_url: "ftp://a".to_string()
            },
            ConfigWarning::EmptyUserName,
            ConfigWarning::DuplicateService {
                user: blank.clone(),
                service: ServiceKind::Soundcloud,
                name: "a".to_string()
            },
            ConfigWarning::DuplicateFeed {
                user: blank,
                service: ServiceKind::Soundcloud,
                name: "a".to_string(),
                feed: SoundCloudFeedKind::Likes
            },
        ]
    );
}

#[test]
fn a_service_is_looked_for_with_the_first_user_of_the_name() {
    let mut config = Config::default();
    config.users.push(UserConfig {
        name: "derek".to_string(),
        services: vec![ServiceConfig {
            kind: ServiceKind::Soundcloud,
            name: "hidden".to_string(),
            profile_url: "https://soundcloud.com/hidden".to_string(),
            feeds: vec![],
        }],
    });
    assert!(config.service("derek", ServiceKind::Soundcloud, "hidden").is_none());
    assert!(config.service("nobody", ServiceKind::Soundcloud, "NTS").is_none());
}

#[test]
fn the_startup_summary_counts_feeds() {
    let summary = Config::default().log_startup_summary();
    assert_eq!(summary.users, 1);
    assert_eq!(summary.feeds, 4);
    assert_eq!(summary.bind, "127.0.0.1:8080");
    assert_eq!(summary.media_dir, "./data/media");
    assert_eq!(summary.metadata_refresh_interval_hours, Some(24));
}

#[test]
fn likes_are_read_from_behind_the_profile() {
    let mut service = Config::default().users[0].services[0].clone();
    service.profile_url = "https://soundcloud.com/dereknet//".to_string();
    assert_eq!(
        SoundCloudFeedKind::Likes.source_url(&service),
        "https://soundcloud.com/dereknet/likes"
    );
    assert_eq!(
        SoundCloudFeedKind::Profile.source_url(&service),
        "https://soundcloud.com/dereknet//"
    );
    assert_eq!(SoundCloudFeedKind::Likes.as_path(), "likes.xml");
    assert_eq!(SoundCloudFeedKind::Profile.as_path(), "feed.xml");
}

#[test]
fn grace_is_valid_within_its_limits() {
    let mut config = Config::default();
    assert!(config.metadata.has_valid_grace());
    config.metadata.refresh_recent_grace_minutes = 153_722_867_280_912;
    assert!(config.metadata.has_valid_grace());
    config.metadata.refresh_recent_grace_minutes = 153_722_867_280_913;
    assert!(!config.metadata.has_valid_grace());
    config.metadata.refresh_recent_grace_minutes = u64::MAX - 153_722_867_280_911;
    assert!(config.metadata.has_valid_grace());
    config.metadata.refresh_recent_grace_minutes = u64::MAX - 153_722_867_280_912;
    assert!(!config.metadata.has_valid_grace());
}
