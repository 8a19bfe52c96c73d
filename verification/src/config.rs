//! The server's configuration: its defaults, its repair, and what it names.
use vstd::prelude::*;

use crate::paths;
use crate::text;

verus! {

/// The whole configuration.
#[derive(Debug, Clone, PartialEq, Eq)]
pub struct Config {
    pub server: ServerConfig,
    pub cache: CacheConfig,
    pub metadata: MetadataConfig,
    pub downloads: DownloadsConfig,
    pub pip_tool_updates: PipToolUpdatesConfig,
    pub auth: AuthConfig,
    pub users: Vec<UserConfig>,
}

/// Where the server listens.
#[derive(Debug, Clone, PartialEq, Eq)]
pub struct ServerConfig {
    pub bind: String,
}

/// Where files are kept, for how long, and how many of them.
#[derive(Debug, Clone, PartialEq, Eq)]
pub struct CacheConfig {
    pub data_dir: String,
    pub media_ttl_minutes: Option<u64>,
    pub media_max_megabytes: Option<u64>,
    pub disconnect_behavior: DisconnectBehavior,
    pub disconnect_grace_seconds: u64,
}

/// What becomes of a download when its last client disconnects.
#[derive(Debug, Clone, Copy, PartialEq, Eq, Structural)]
pub enum DisconnectBehavior {
    Continue,
    Cancel,
    DelayCancel,
}

/// The credentials of HTTP Basic auth.
#[derive(Debug, Clone, PartialEq, Eq)]
pub struct AuthConfig {
    pub enabled: bool,
    pub username: Option<String>,
    pub password: Option<String>,
}

/// When feed metadata is refreshed.
#[derive(Debug, Clone, PartialEq, Eq)]
pub struct MetadataConfig {
    pub refresh_interval_hours: Option<u64>,
    pub refresh_recent_grace_minutes: u64,
}

/// The limits of media downloads.
#[derive(Debug, Clone, PartialEq, Eq)]
pub struct DownloadsConfig {
    pub max_concurrent: usize,
    pub probe_timeout_seconds: u64,
}

/// Whether and when the installed yt-dlp is brought up to date.
#[derive(Debug, Clone, PartialEq, Eq)]
pub struct PipToolUpdatesConfig {
    pub enabled: bool,
    pub startup_check: bool,
    pub interval_hours: Option<u64>,
    pub pip_package: String,
}

/// A user and the services configured for that user.
#[derive(Debug, Clone, PartialEq, Eq)]
pub struct UserConfig {
    pub name: String,
    pub services: Vec<ServiceConfig>,
}

/// An account of a service, and the feeds that are offered of it.
#[derive(Debug, PartialEq, Eq)]
pub struct ServiceConfig {
    pub kind: ServiceKind,
    pub name: String,
    pub profile_url: String,
    pub feeds: Vec<SoundCloudFeedKind>,
}

/// The services that feeds can be made of.
#[derive(Debug, Clone, Copy, PartialEq, Eq, Hash, Structural)]
pub enum ServiceKind {
    Soundcloud,
}

/// The feeds of a SoundCloud account.
#[derive(Debug, Clone, Copy, PartialEq, Eq, Hash, Structural)]
pub enum SoundCloudFeedKind {
    Profile,
    Likes,
}

/// What a service is configured as.
#[verifier::ext_equal]
pub struct ServiceView {
    pub kind: ServiceKind,
    pub name: Seq<char>,
    pub profile_url: Seq<char>,
    pub feeds: Seq<SoundCloudFeedKind>,
}

impl View for ServiceConfig {
    type V = ServiceView;

    open spec fn view(&self) -> ServiceView {
        ServiceView {
            kind: self.kind,
            name: self.name@,
            profile_url: self.profile_url@,
            feeds: self.feeds@,
        }
    }
}

impl Clone for ServiceConfig {
    fn clone(&self) -> (copy: ServiceConfig)
        ensures
            copy@ == self@,
    {
        let feeds: Vec<SoundCloudFeedKind> = self.feeds.clone();
        assert(feeds@ =~= self.feeds@);
        ServiceConfig {
            kind: self.kind,
            name: self.name.clone(),
            profile_url: self.profile_url.clone(),
            feeds,
        }
    }
}

impl Default for Config {
    fn default() -> (config: Config)
        ensures
            is_default_server(config.server),
            is_default_cache(config.cache),
            is_default_metadata(config.metadata),
            is_default_downloads(config.downloads),
            is_default_pip_tool_updates(config.pip_tool_updates),
            is_default_auth(config.auth),
            config.users@.len() == 1,
            config.users@[0].name@ == "derek"@,
            config.users@[0].services@.len() == 2,
            config.users@[0].services@[0]@ == (ServiceView {
                kind: ServiceKind::Soundcloud,
                name: "dereknet"@,
                profile_url: "https://soundcloud.com/dereknet"@,
                feeds: seq![SoundCloudFeedKind::Profile, SoundCloudFeedKind::Likes],
            }),
            config.users@[0].services@[1]@ == (ServiceView {
                kind: ServiceKind::Soundcloud,
                name: "NTS"@,
                profile_url: "https://soundcloud.com/user-202286394-991268468"@,
                feeds: seq![SoundCloudFeedKind::Profile, SoundCloudFeedKind::Likes],
            }),
    {
        let first: ServiceConfig = ServiceConfig {
            kind: ServiceKind::Soundcloud,
            name: "dereknet".to_owned(),
            profile_url: "https://soundcloud.com/dereknet".to_owned(),
            feeds: default_soundcloud_feeds(),
        };
        let second: ServiceConfig = ServiceConfig {
            kind: ServiceKind::Soundcloud,
            name: "NTS".to_owned(),
            profile_url: "https://soundcloud.com/user-202286394-991268468".to_owned(),
            feeds: default_soundcloud_feeds(),
        };
        Config {
            server: ServerConfig::default(),
            cache: CacheConfig::default(),
            metadata: MetadataConfig::default(),
            downloads: DownloadsConfig::default(),
            pip_tool_updates: PipToolUpdatesConfig::default(),
            auth: AuthConfig::default(),
            users: vec![UserConfig { name: "derek".to_owned(), services: vec![first, second] }],
        }
    }
}

/// The server as it is configured by default.
pub open spec fn is_default_server(server: ServerConfig) -> bool {
    server.bind@ == "127.0.0.1:8080"@
}

impl Default for ServerConfig {
    fn default() -> (server: ServerConfig)
        ensures
            is_default_server(server),
    {
        ServerConfig { bind: "127.0.0.1:8080".to_owned() }
    }
}

/// The cache as it is configured by default.
pub open spec fn is_default_cache(cache: CacheConfig) -> bool {
    &&& cache.data_dir@ == "./data"@
    &&& cache.media_ttl_minutes == Some(360u64)
    &&& cache.media_max_megabytes == Some(10_240u64)
    &&& cache.disconnect_behavior == DisconnectBehavior::DelayCancel
    &&& cache.disconnect_grace_seconds == 15
}

impl Default for CacheConfig {
    fn default() -> (cache: CacheConfig)
        ensures
            is_default_cache(cache),
    {
        CacheConfig {
            data_dir: "./data".to_owned(),
            media_ttl_minutes: Some(360),
            media_max_megabytes: Some(10_240),
            disconnect_behavior: DisconnectBehavior::DelayCancel,
            disconnect_grace_seconds: 15,
        }
    }
}

/// The product of two numbers, or the largest `u64` where it is larger.
pub open spec fn capped_product(left: u64, right: u64) -> u64 {
    if left * right <= u64::MAX {
        (left * right) as u64
    } else {
        u64::MAX
    }
}

fn saturating_product(left: u64, right: u64) -> (product: u64)
    ensures
        product == capped_product(left, right),
{
    match left.checked_mul(right) {
        Some(product) => product,
        None => u64::MAX,
    }
}

/// How many seconds completed media is kept for, if that is limited.
pub open spec fn kept_seconds(cache: CacheConfig) -> Option<u64> {
    match cache.media_ttl_minutes {
        Some(minutes) => Some(capped_product(minutes, 60)),
        None => None,
    }
}

/// How many bytes of completed media are kept, if that is limited.
pub open spec fn kept_bytes(cache: CacheConfig) -> Option<u64> {
    match cache.media_max_megabytes {
        Some(megabytes) => Some(capped_product(megabytes, 1_048_576)),
        None => None,
    }
}

/// The seconds between two scheduled refreshes, if there are any.
pub open spec fn seconds_between_refreshes(metadata: MetadataConfig) -> Option<u64> {
    match metadata.refresh_interval_hours {
        Some(hours) => Some(capped_product(hours, 3600)),
        None => None,
    }
}

/// The seconds between two updates of yt-dlp, if there are any.
pub open spec fn seconds_between_updates(updates: PipToolUpdatesConfig) -> Option<u64> {
    match updates.interval_hours {
        Some(hours) => Some(capped_product(hours, 3600)),
        None => None,
    }
}

impl CacheConfig {
    /// How many seconds completed media is kept for, if that is limited.
    pub fn media_ttl(&self) -> (seconds: Option<u64>)
        ensures
            seconds == match self.media_ttl_minutes {
                Some(minutes) => Some(capped_product(minutes, 60)),
                None => None,
            },
            seconds == kept_seconds(*self),
    {
        match self.media_ttl_minutes {
            Some(minutes) => Some(saturating_product(minutes, 60)),
            None => None,
        }
    }

    /// How many bytes of completed media are kept, if that is limited.
    pub fn media_max_bytes(&self) -> (bytes: Option<u64>)
        ensures
            bytes == match self.media_max_megabytes {
                Some(megabytes) => Some(capped_product(megabytes, 1_048_576)),
                None => None,
            },
            bytes == kept_bytes(*self),
    {
        match self.media_max_megabytes {
            Some(megabytes) => Some(saturating_product(megabytes, 1_048_576)),
            None => None,
        }
    }
}

/// The credentials as they are configured by default: none.
pub open spec fn is_default_auth(auth: AuthConfig) -> bool {
    !auth.enabled && auth.username is None && auth.password is None
}

impl Default for AuthConfig {
    fn default() -> (auth: AuthConfig)
        ensures
            is_default_auth(auth),
    {
        AuthConfig { enabled: false, username: None, password: None }
    }
}

/// The refreshing of metadata as it is configured by default.
pub open spec fn is_default_metadata(metadata: MetadataConfig) -> bool {
    metadata.refresh_interval_hours == Some(24u64) && metadata.refresh_recent_grace_minutes == 60
}

impl Default for MetadataConfig {
    fn default() -> (metadata: MetadataConfig)
        ensures
            is_default_metadata(metadata),
    {
        MetadataConfig { refresh_interval_hours: Some(24), refresh_recent_grace_minutes: 60 }
    }
}

/// The most minutes, either way, that a grace period can have.
pub const GRACE_MINUTES_LIMIT: i64 = 153_722_867_280_912;

/// A number of minutes read as a signed number: one that is too large for that
/// wraps around.
pub open spec fn signed_minutes(minutes: u64) -> int {
    if minutes <= i64::MAX {
        minutes as int
    } else {
        minutes - u64::MAX - 1
    }
}

impl MetadataConfig {
    /// The seconds between two scheduled refreshes, if there are any.
    pub fn refresh_interval(&self) -> (seconds: Option<u64>)
        ensures
            seconds == match self.refresh_interval_hours {
                Some(hours) => Some(capped_product(hours, 3600)),
                None => None,
            },
            seconds == seconds_between_refreshes(*self),
    {
        match self.refresh_interval_hours {
            Some(hours) => Some(saturating_product(hours, 3600)),
            None => None,
        }
    }

    /// Whether the grace period can be told in seconds.
    pub fn has_valid_grace(&self) -> (yes: bool)
        ensures
            yes == (-GRACE_MINUTES_LIMIT <= signed_minutes(self.refresh_recent_grace_minutes)
                <= GRACE_MINUTES_LIMIT),
    {
        let minutes: u64 = self.refresh_recent_grace_minutes;
        minutes <= GRACE_MINUTES_LIMIT as u64 || u64::MAX - minutes < GRACE_MINUTES_LIMIT as u64
    }

    /// The seconds for which refreshed metadata is left alone by scheduled
    /// refreshes.
    pub fn refresh_recent_grace(&self) -> (seconds: i64)
        requires
            -GRACE_MINUTES_LIMIT <= signed_minutes(self.refresh_recent_grace_minutes)
                <= GRACE_MINUTES_LIMIT,
        ensures
            seconds == signed_minutes(self.refresh_recent_grace_minutes) * 60,
    {
        let minutes: u64 = self.refresh_recent_grace_minutes;
        if minutes <= i64::MAX as u64 {
            minutes as i64 * 60
        } else {
            (-((u64::MAX - minutes) as i64) - 1) * 60
        }
    }
}

/// The limits of downloads as they are configured by default.
pub open spec fn is_default_downloads(downloads: DownloadsConfig) -> bool {
    downloads.max_concurrent == 3 && downloads.probe_timeout_seconds == 300
}

impl Default for DownloadsConfig {
    fn default() -> (downloads: DownloadsConfig)
        ensures
            is_default_downloads(downloads),
    {
        DownloadsConfig { max_concurrent: 3, probe_timeout_seconds: 300 }
    }
}

impl DownloadsConfig {
    /// The seconds that a probe may take.
    pub fn probe_timeout(&self) -> (seconds: u64)
        ensures
            seconds == self.probe_timeout_seconds,
    {
        self.probe_timeout_seconds
    }
}

/// The updates of yt-dlp as they are configured by default.
pub open spec fn is_default_pip_tool_updates(updates: PipToolUpdatesConfig) -> bool {
    &&& !updates.enabled
    &&& updates.startup_check
    &&& updates.interval_hours == Some(168u64)
    &&& updates.pip_package@ == "yt-dlp"@
}

impl Default for PipToolUpdatesConfig {
    fn default() -> (updates: PipToolUpdatesConfig)
        ensures
            is_default_pip_tool_updates(updates),
    {
        PipToolUpdatesConfig {
            enabled: false,
            startup_check: true,
            interval_hours: Some(168),
            pip_package: "yt-dlp".to_owned(),
        }
    }
}

impl PipToolUpdatesConfig {
    /// The seconds between two updates, if there are any.
    pub fn interval(&self) -> (seconds: Option<u64>)
        ensures
            seconds == match self.interval_hours {
                Some(hours) => Some(capped_product(hours, 3600)),
                None => None,
            },
            seconds == seconds_between_updates(*self),
    {
        match self.interval_hours {
            Some(hours) => Some(saturating_product(hours, 3600)),
            None => None,
        }
    }
}

impl ServiceKind {
    /// The service as it is written in routes.
    pub open spec fn path(self) -> Seq<char> {
        match self {
            ServiceKind::Soundcloud => "soundcloud"@,
        }
    }

    /// The service as it is written in routes.
    pub fn as_path(self) -> (path: &'static str)
        ensures
            path@ == self.path(),
    {
        match self {
            ServiceKind::Soundcloud => "soundcloud",
        }
    }
}

impl SoundCloudFeedKind {
    /// The file name that the feed is served under.
    pub open spec fn path(self) -> Seq<char> {
        match self {
            SoundCloudFeedKind::Profile => "feed.xml"@,
            SoundCloudFeedKind::Likes => "likes.xml"@,
        }
    }

    /// The file name that the feed is served under.
    pub fn as_path(self) -> (path: &'static str)
        ensures
            path@ == self.path(),
    {
        match self {
            SoundCloudFeedKind::Profile => "feed.xml",
            SoundCloudFeedKind::Likes => "likes.xml",
        }
    }

    /// The feed's name for readers.
    pub open spec fn label_text(self) -> Seq<char> {
        match self {
            SoundCloudFeedKind::Profile => "Profile"@,
            SoundCloudFeedKind::Likes => "Likes"@,
        }
    }

    /// The feed's name for readers.
    pub fn label(self) -> (label: &'static str)
        ensures
            label@ == self.label_text(),
    {
        match self {
            SoundCloudFeedKind::Profile => "Profile",
            SoundCloudFeedKind::Likes => "Likes",
        }
    }

    /// The feed's name in identifiers.
    pub open spec fn slug_text(self) -> Seq<char> {
        match self {
            SoundCloudFeedKind::Profile => "profile"@,
            SoundCloudFeedKind::Likes => "likes"@,
        }
    }

    /// The feed's name in identifiers.
    pub fn slug(self) -> (slug: &'static str)
        ensures
            slug@ == self.slug_text(),
    {
        match self {
            SoundCloudFeedKind::Profile => "profile",
            SoundCloudFeedKind::Likes => "likes",
        }
    }

    /// The page that the feed's items are read from.
    pub open spec fn source(self, service: ServiceView) -> Seq<char> {
        match self {
            SoundCloudFeedKind::Profile => service.profile_url,
            SoundCloudFeedKind::Likes => text::without_trailing(service.profile_url, '/')
                + "/likes"@,
        }
    }

    /// The page that the feed's items are read from: the account's own page, or
    /// the page of its likes.
    pub fn source_url(self, service: &ServiceConfig) -> (url: String)
        ensures
            url@ == self.source(service@),
    {
        match self {
            SoundCloudFeedKind::Profile => service.profile_url.clone(),
            SoundCloudFeedKind::Likes => {
                let chars: Vec<char> = text::chars_of(service.profile_url.as_str());
                let kept: &[char] = text::strip_trailing(chars.as_slice(), '/');
                let mut url: String = text::text_of(kept);
                url.append("/likes");
                url
            },
        }
    }
}

/// The feeds of an account that names none: profile and likes.
pub fn default_soundcloud_feeds() -> (feeds: Vec<SoundCloudFeedKind>)
    ensures
        feeds@ == seq![SoundCloudFeedKind::Profile, SoundCloudFeedKind::Likes],
{
    let feeds: Vec<SoundCloudFeedKind> = vec![
        SoundCloudFeedKind::Profile,
        SoundCloudFeedKind::Likes,
    ];
    assert(feeds@ =~= seq![SoundCloudFeedKind::Profile, SoundCloudFeedKind::Likes]);
    feeds
}

/// The first user with a name.
pub open spec fn first_user(users: Seq<UserConfig>, name: Seq<char>) -> Option<UserConfig>
    decreases users.len(),
{
    if users.len() == 0 {
        None
    } else if users[0].name@ == name {
        Some(users[0])
    } else {
        first_user(users.skip(1), name)
    }
}

/// The first service of a kind with a name.
pub open spec fn first_service(
    services: Seq<ServiceConfig>,
    kind: ServiceKind,
    name: Seq<char>,
) -> Option<ServiceConfig>
    decreases services.len(),
{
    if services.len() == 0 {
        None
    } else if services[0].kind == kind && services[0].name@ == name {
        Some(services[0])
    } else {
        first_service(services.skip(1), kind, name)
    }
}

/// The service that a route names: it is looked for with the first user of the
/// name only.
pub open spec fn find_service(
    users: Seq<UserConfig>,
    user: Seq<char>,
    kind: ServiceKind,
    name: Seq<char>,
) -> Option<ServiceConfig> {
    match first_user(users, user) {
        Some(found) => first_service(found.services@, kind, name),
        None => None,
    }
}

fn find_in_services<'a>(services: &'a Vec<ServiceConfig>, kind: ServiceKind, name: &str) -> (found:
    Option<&'a ServiceConfig>)
    ensures
        match found {
            Some(service) => first_service(services@, kind, name@) == Some(*service),
            None => first_service(services@, kind, name@) is None,
        },
{
    let mut i: usize = 0;
    assert(services@.skip(0) == services@);
    while i < services.len()
        invariant
            i <= services@.len(),
            first_service(services@, kind, name@) == first_service(
                services@.skip(i as int),
                kind,
                name@,
            ),
        decreases services@.len() - i,
    {
        if services[i].kind == kind && text::same_text(services[i].name.as_str(), name) {
            return Some(&services[i]);
        }
        assert(services@.skip(i as int).skip(1) == services@.skip(i + 1));
        i = i + 1;
    }
    None
}

/// What is wrong with a configuration, or was before its repair.
#[derive(Debug, Clone, PartialEq, Eq)]
pub enum ConfigWarning {
    /// No download could run; the default limit is used.
    NoConcurrentDownloads,
    /// A probe would have no time; the default timeout is used.
    NoProbeTimeout,
    /// The refresh interval was no time at all; the default is used.
    NoRefreshInterval,
    /// The update interval was no time at all; the default is used.
    NoUpdateInterval,
    /// The package to update had no name; the default is used.
    EmptyPipPackage,
    /// Auth is on without a username or without a password.
    EmptyCredentials,
    /// Auth is off on all interfaces.
    OpenToAllInterfaces { bind: String },
    /// More downloads can run than yt-dlp handles well.
    ManyConcurrentDownloads { max_concurrent: usize },
    /// Media expires so early that it may be downloaded repeatedly.
    ShortMediaTtl { minutes: u64 },
    /// Metadata is not refreshed on a schedule.
    RefreshDisabled,
    /// A user has no name.
    EmptyUserName,
    /// A service has no name.
    EmptyServiceName { user: String },
    /// A service has no page.
    EmptyProfileUrl { user: String, name: String },
    /// A service's page is not on the web.
    UnknownUrlScheme { user: String, name: String, profile_url: String },
    /// An earlier service has the same route.
    DuplicateService { user: String, service: ServiceKind, name: String },
    /// The service lists a feed twice.
    DuplicateFeed { user: String, service: ServiceKind, name: String, feed: SoundCloudFeedKind },
}

/// The warning, where there is a reason for it.
pub open spec fn warned(reason: bool, warning: ConfigWarning) -> Seq<ConfigWarning> {
    if reason {
        seq![warning]
    } else {
        Seq::empty()
    }
}

/// Whether a text is empty or white space.
pub open spec fn is_blank(s: Seq<char>) -> bool {
    text::trimmed(s).len() == 0
}

/// Whether a credential is missing or empty.
pub open spec fn is_unset(credential: Option<String>) -> bool {
    match credential {
        Some(value) => value@.len() == 0,
        None => true,
    }
}

/// The warnings on values that are repaired.
pub open spec fn repair_warnings(config: Config) -> Seq<ConfigWarning> {
    warned(config.downloads.max_concurrent == 0, ConfigWarning::NoConcurrentDownloads) + warned(
        config.downloads.probe_timeout_seconds == 0,
        ConfigWarning::NoProbeTimeout,
    ) + warned(
        config.metadata.refresh_interval_hours == Some(0u64),
        ConfigWarning::NoRefreshInterval,
    ) + warned(
        config.pip_tool_updates.interval_hours == Some(0u64),
        ConfigWarning::NoUpdateInterval,
    ) + warned(is_blank(config.pip_tool_updates.pip_package@), ConfigWarning::EmptyPipPackage)
}

/// The warning on a media TTL under ten minutes.
pub open spec fn ttl_warnings(cache: CacheConfig) -> Seq<ConfigWarning> {
    match cache.media_ttl_minutes {
        Some(minutes) => warned(minutes < 10, ConfigWarning::ShortMediaTtl { minutes }),
        None => Seq::empty(),
    }
}

/// The warnings on values that are left as they are.
pub open spec fn setting_warnings(config: Config) -> Seq<ConfigWarning> {
    warned(
        config.auth.enabled && (is_unset(config.auth.username) || is_unset(config.auth.password)),
        ConfigWarning::EmptyCredentials,
    ) + warned(
        !config.auth.enabled && text::begins_with(config.server.bind@, "0.0.0.0"@),
        ConfigWarning::OpenToAllInterfaces { bind: config.server.bind },
    ) + warned(
        config.downloads.max_concurrent > 10,
        ConfigWarning::ManyConcurrentDownloads {
            max_concurrent: config.downloads.max_concurrent,
        },
    ) + ttl_warnings(config.cache) + warned(
        config.metadata.refresh_interval_hours is None,
        ConfigWarning::RefreshDisabled,
    )
}

/// Whether two services have the same route.
pub open spec fn same_route(
    users: Seq<UserConfig>,
    left: (int, int),
    right: (int, int),
) -> bool {
    &&& users[left.0].name@ == users[right.0].name@
    &&& users[left.0].services@[left.1].kind == users[right.0].services@[right.1].kind
    &&& users[left.0].services@[left.1].name@ == users[right.0].services@[right.1].name@
}

/// Whether an earlier service has the route of service `s` of user `u`.
pub open spec fn is_repeated_service(users: Seq<UserConfig>, u: int, s: int) -> bool {
    exists|v: int, t: int|
        {
            &&& 0 <= v <= u
            &&& 0 <= t < users[v].services@.len()
            &&& v < u || t < s
            &&& #[trigger] same_route(users, (v, t), (u, s))
        }
}

/// Whether an earlier feed is the same as feed `f`.
pub open spec fn is_repeated_feed(feeds: Seq<SoundCloudFeedKind>, f: int) -> bool {
    exists|g: int| 0 <= g < f && #[trigger] feeds[g] == feeds[f]
}

/// The warnings on the first `count` feeds of a service.
pub open spec fn feed_warnings(user: UserConfig, service: ServiceConfig, count: int) -> Seq<
    ConfigWarning,
>
    decreases count,
{
    if count <= 0 {
        Seq::empty()
    } else {
        feed_warnings(user, service, count - 1) + warned(
            is_repeated_feed(service.feeds@, count - 1),
            ConfigWarning::DuplicateFeed {
                user: user.name,
                service: service.kind,
                name: service.name,
                feed: service.feeds@[count - 1],
            },
        )
    }
}

/// Whether a page is on the web.
pub open spec fn has_web_scheme(url: Seq<char>) -> bool {
    text::begins_with(url, "http://"@) || text::begins_with(url, "https://"@)
}

/// The warning on a service's page.
pub open spec fn url_warnings(user: UserConfig, service: ServiceConfig) -> Seq<ConfigWarning> {
    if is_blank(service.profile_url@) {
        seq![ConfigWarning::EmptyProfileUrl { user: user.name, name: service.name }]
    } else {
        warned(
            !has_web_scheme(service.profile_url@),
            ConfigWarning::UnknownUrlScheme {
                user: user.name,
                name: service.name,
                profile_url: service.profile_url,
            },
        )
    }
}

/// The warnings on service `s` of user `u`.
pub open spec fn service_warnings(users: Seq<UserConfig>, u: int, s: int) -> Seq<ConfigWarning> {
    let user = users[u];
    let service = user.services@[s];
    warned(
        is_blank(service.name@),
        ConfigWarning::EmptyServiceName { user: user.name },
    ) + url_warnings(user, service) + warned(
        is_repeated_service(users, u, s),
        ConfigWarning::DuplicateService {
            user: user.name,
            service: service.kind,
            name: service.name,
        },
    ) + feed_warnings(user, service, service.feeds@.len() as int)
}

/// The warnings on the first `count` services of user `u`.
pub open spec fn services_warnings(users: Seq<UserConfig>, u: int, count: int) -> Seq<
    ConfigWarning,
>
    decreases count,
{
    if count <= 0 {
        Seq::empty()
    } else {
        services_warnings(users, u, count - 1) + service_warnings(users, u, count - 1)
    }
}

/// The warnings on the first `count` users.
pub open spec fn users_warnings(users: Seq<UserConfig>, count: int) -> Seq<ConfigWarning>
    decreases count,
{
    if count <= 0 {
        Seq::empty()
    } else {
        users_warnings(users, count - 1) + warned(
            is_blank(users[count - 1].name@),
            ConfigWarning::EmptyUserName,
        ) + services_warnings(users, count - 1, users[count - 1].services@.len() as int)
    }
}

fn blank(value: &str) -> (yes: bool)
    ensures
        yes == is_blank(value@),
{
    let chars: Vec<char> = text::chars_of(value);
    text::trim(chars.as_slice()).len() == 0
}

fn unset(credential: &Option<String>) -> (yes: bool)
    ensures
        yes == is_unset(*credential),
{
    match credential {
        Some(value) => value.as_str().is_empty(),
        None => true,
    }
}

fn repeated_service(users: &Vec<UserConfig>, u: usize, s: usize) -> (yes: bool)
    requires
        u < users@.len(),
        s < users@[u as int].services@.len(),
    ensures
        yes == is_repeated_service(users@, u as int, s as int),
{
    let total: usize = users.len();
    let mut v: usize = 0;
    while v <= u
        invariant
            u < total == users@.len(),
            s < users@[u as int].services@.len(),
            v <= u + 1,
            forall|i: int, t: int|
                0 <= i < v && 0 <= t < users@[i].services@.len() && (i < u || t < s)
                    ==> !#[trigger] same_route(users@, (i, t), (u as int, s as int)),
        decreases u + 1 - v,
    {
        let count: usize = if v < u {
            users[v].services.len()
        } else {
            s
        };
        let mut t: usize = 0;
        while t < count
            invariant
                v <= u < users@.len(),
                s < users@[u as int].services@.len(),
                count <= users@[v as int].services@.len(),
                count == if v < u {
                    users@[v as int].services@.len()
                } else {
                    s as nat
                },
                t <= count,
                forall|i: int|
                    0 <= i < t ==> !#[trigger] same_route(
                        users@,
                        (v as int, i),
                        (u as int, s as int),
                    ),
            decreases count - t,
        {
            if text::same_text(users[v].name.as_str(), users[u].name.as_str())
                && users[v].services[t].kind == users[u].services[s].kind && text::same_text(
                users[v].services[t].name.as_str(),
                users[u].services[s].name.as_str(),
            ) {
                assert(same_route(users@, (v as int, t as int), (u as int, s as int)));
                return true;
            }
            t = t + 1;
        }
        v = v + 1;
    }
    false
}

fn repeated_feed(feeds: &Vec<SoundCloudFeedKind>, f: usize) -> (yes: bool)
    requires
        f < feeds@.len(),
    ensures
        yes == is_repeated_feed(feeds@, f as int),
{
    let mut g: usize = 0;
    while g < f
        invariant
            g <= f < feeds@.len(),
            forall|i: int| 0 <= i < g ==> #[trigger] feeds@[i] != feeds@[f as int],
        decreases f - g,
    {
        if feeds[g] == feeds[f] {
            assert(feeds@[g as int] == feeds@[f as int]);
            return true;
        }
        g = g + 1;
    }
    false
}

fn lint_feeds(user: &UserConfig, service: &ServiceConfig, warnings: &mut Vec<ConfigWarning>)
    ensures
        final(warnings)@ == old(warnings)@ + feed_warnings(
            *user,
            *service,
            service.feeds@.len() as int,
        ),
{
    let ghost start = warnings@;
    let mut f: usize = 0;
    while f < service.feeds.len()
        invariant
            f <= service.feeds@.len(),
            warnings@ =~= start + feed_warnings(*user, *service, f as int),
        decreases service.feeds@.len() - f,
    {
        if repeated_feed(&service.feeds, f) {
            warnings.push(
                ConfigWarning::DuplicateFeed {
                    user: user.name.clone(),
                    service: service.kind,
                    name: service.name.clone(),
                    feed: service.feeds[f],
                },
            );
        }
        f = f + 1;
    }
}

fn lint_service(users: &Vec<UserConfig>, u: usize, s: usize, warnings: &mut Vec<ConfigWarning>)
    requires
        u < users@.len(),
        s < users@[u as int].services@.len(),
    ensures
        final(warnings)@ == old(warnings)@ + service_warnings(users@, u as int, s as int),
{
    let user: &UserConfig = &users[u];
    let service: &ServiceConfig = &user.services[s];
    if blank(service.name.as_str()) {
        warnings.push(ConfigWarning::EmptyServiceName { user: user.name.clone() });
    }
    if blank(service.profile_url.as_str()) {
        warnings.push(
            ConfigWarning::EmptyProfileUrl { user: user.name.clone(), name: service.name.clone() },
        );
    } else if !text::starts_with(service.profile_url.as_str(), "http://") && !text::starts_with(
        service.profile_url.as_str(),
        "https://",
    ) {
        warnings.push(
            ConfigWarning::UnknownUrlScheme {
                user: user.name.clone(),
                name: service.name.clone(),
                profile_url: service.profile_url.clone(),
            },
        );
    }
    if repeated_service(users, u, s) {
        warnings.push(
            ConfigWarning::DuplicateService {
                user: user.name.clone(),
                service: service.kind,
                name: service.name.clone(),
            },
        );
    }
    lint_feeds(user, service, warnings);
    assert(warnings@ =~= old(warnings)@ + service_warnings(users@, u as int, s as int));
}

fn lint_users(users: &Vec<UserConfig>, warnings: &mut Vec<ConfigWarning>)
    ensures
        final(warnings)@ == old(warnings)@ + users_warnings(users@, users@.len() as int),
{
    let ghost start = warnings@;
    let mut u: usize = 0;
    while u < users.len()
        invariant
            u <= users@.len(),
            warnings@ =~= start + users_warnings(users@, u as int),
        decreases users@.len() - u,
    {
        if blank(users[u].name.as_str()) {
            warnings.push(ConfigWarning::EmptyUserName);
        }
        let ghost before = warnings@;
        let mut s: usize = 0;
        while s < users[u].services.len()
            invariant
                u < users@.len(),
                s <= users@[u as int].services@.len(),
                warnings@ =~= before + services_warnings(users@, u as int, s as int),
            decreases users@[u as int].services@.len() - s,
        {
            lint_service(users, u, s, warnings);
            s = s + 1;
        }
        u = u + 1;
    }
}

/// The number of feeds of services.
pub open spec fn feeds_of_services(services: Seq<ServiceConfig>) -> nat
    decreases services.len(),
{
    if services.len() == 0 {
        0
    } else {
        feeds_of_services(services.drop_last()) + services.last().feeds@.len()
    }
}

/// The number of feeds of all services of all users.
pub open spec fn feeds_of_users(users: Seq<UserConfig>) -> nat
    decreases users.len(),
{
    if users.len() == 0 {
        0
    } else {
        feeds_of_users(users.drop_last()) + feeds_of_services(users.last().services@)
    }
}

/// What the server says of itself when it starts.
#[derive(Debug, Clone, PartialEq, Eq)]
pub struct StartupSummary {
    pub bind: String,
    pub data_dir: String,
    pub feed_metadata_dir: String,
    pub media_dir: String,
    pub auth_enabled: bool,
    pub users: usize,
    pub feeds: usize,
    pub metadata_refresh_interval_hours: Option<u64>,
    pub metadata_recent_grace_minutes: u64,
    pub max_concurrent_downloads: usize,
    pub pip_tool_updates_enabled: bool,
    pub pip_tool_updates_interval_hours: Option<u64>,
    pub probe_timeout_seconds: u64,
}

/// The value that a text stands for as a switch.
pub open spec fn switch_value(value: Seq<char>) -> Option<bool> {
    let word = text::trimmed(value).map_values(|ch: char| text::ascii_lower(ch));
    if word == "1"@ || word == "true"@ || word == "yes"@ || word == "on"@ {
        Some(true)
    } else if word == "0"@ || word == "false"@ || word == "no"@ || word == "off"@ {
        Some(false)
    } else {
        None
    }
}

/// Reads a switch: `1`, `true`, `yes` and `on` turn it on, `0`, `false`, `no` and
/// `off` turn it off, in any case and between any white space.
pub fn parse_bool(value: &str) -> (switch: Option<bool>)
    ensures
        switch == switch_value(value@),
{
    let chars: Vec<char> = text::chars_of(value);
    let lower: Vec<char> = text::ascii_lowercase(text::trim(chars.as_slice()));
    let word: String = text::text_of(lower.as_slice());
    let word: &str = word.as_str();
    if text::same_text(word, "1") || text::same_text(word, "true") || text::same_text(word, "yes")
        || text::same_text(word, "on") {
        Some(true)
    } else if text::same_text(word, "0") || text::same_text(word, "false") || text::same_text(
        word,
        "no",
    ) || text::same_text(word, "off") {
        Some(false)
    } else {
        None
    }
}

/// The number of feeds that are configured, if it can be counted.
fn count_feeds(users: &Vec<UserConfig>) -> (feeds: usize)
    requires
        feeds_of_users(users@) <= usize::MAX,
    ensures
        feeds == feeds_of_users(users@),
{
    let mut feeds: usize = 0;
    let mut u: usize = 0;
    while u < users.len()
        invariant
            u <= users@.len(),
            feeds == feeds_of_users(users@.take(u as int)),
            feeds_of_users(users@) <= usize::MAX,
        decreases users@.len() - u,
    {
        proof {
            lemma_feeds_of_users_grow(users@, u + 1);
            assert(users@.take(u + 1).drop_last() == users@.take(u as int));
        }
        let services: &Vec<ServiceConfig> = &users[u].services;
        let ghost before = feeds;
        let mut s: usize = 0;
        while s < services.len()
            invariant
                s <= services@.len(),
                feeds == before + feeds_of_services(services@.take(s as int)),
                before + feeds_of_services(services@) <= usize::MAX,
            decreases services@.len() - s,
        {
            proof {
                lemma_feeds_of_services_grow(services@, s + 1);
                assert(services@.take(s + 1).drop_last() == services@.take(s as int));
            }
            feeds = feeds + services[s].feeds.len();
            s = s + 1;
        }
        assert(services@.take(services@.len() as int) == services@);
        u = u + 1;
    }
    assert(users@.take(users@.len() as int) == users@);
    feeds
}

proof fn lemma_feeds_of_services_grow(services: Seq<ServiceConfig>, count: int)
    requires
        0 <= count <= services.len(),
    ensures
        feeds_of_services(services.take(count)) <= feeds_of_services(services),
    decreases services.len(),
{
    if count < services.len() {
        lemma_feeds_of_services_grow(services.drop_last(), count);
        assert(services.drop_last().take(count) == services.take(count));
    } else {
        assert(services.take(count) == services);
    }
}

proof fn lemma_feeds_of_users_grow(users: Seq<UserConfig>, count: int)
    requires
        0 <= count <= users.len(),
    ensures
        feeds_of_users(users.take(count)) <= feeds_of_users(users),
    decreases users.len(),
{
    if count < users.len() {
        lemma_feeds_of_users_grow(users.drop_last(), count);
        assert(users.drop_last().take(count) == users.take(count));
    } else {
        assert(users.take(count) == users);
    }
}

proof fn lemma_default_package_is_not_blank()
    ensures
        !is_blank("yt-dlp"@),
{
    reveal_strlit("yt-dlp");
    let package = "yt-dlp"@;
    assert(text::trimmed_start(package) == package);
    assert(text::trimmed_end(package) == package);
}

impl Config {
    /// Takes over what the environment says of yt-dlp updates, if it says
    /// anything. Returns whether what it says was ignored.
    pub fn apply_env_overrides(&mut self, value: Option<&str>) -> (ignored: bool)
        ensures
            *final(self) == (Config {
                pip_tool_updates: PipToolUpdatesConfig {
                    enabled: match value {
                        Some(given) => match switch_value(given@) {
                            Some(enabled) => enabled,
                            None => old(self).pip_tool_updates.enabled,
                        },
                        None => old(self).pip_tool_updates.enabled,
                    },
                    ..old(self).pip_tool_updates
                },
                ..*old(self)
            }),
            ignored == (value is Some && switch_value(value->0@) is None),
    {
        match value {
            Some(given) => match parse_bool(given) {
                Some(enabled) => {
                    self.pip_tool_updates.enabled = enabled;
                    false
                },
                None => true,
            },
            None => false,
        }
    }

    /// Where the downloader keeps its own cache.
    pub fn metadata_dir(&self) -> (directory: String)
        ensures
            directory@ == paths::joined(self.cache.data_dir@, "metadata"@),
    {
        paths::join(self.cache.data_dir.as_str(), "metadata")
    }

    /// Where feed metadata is kept.
    pub fn feed_metadata_dir(&self) -> (directory: String)
        ensures
            directory@ == paths::joined(self.cache.data_dir@, "feed-metadata"@),
    {
        paths::join(self.cache.data_dir.as_str(), "feed-metadata")
    }

    /// Where media is kept.
    pub fn media_dir(&self) -> (directory: String)
        ensures
            directory@ == paths::joined(self.cache.data_dir@, "media"@),
    {
        paths::join(self.cache.data_dir.as_str(), "media")
    }

    /// Where tools are looked for first.
    pub fn libs_dir(&self) -> (directory: String)
        ensures
            directory@ == paths::joined(self.cache.data_dir@, "libs"@),
    {
        paths::join(self.cache.data_dir.as_str(), "libs")
    }

    /// The service that a route names, if it is configured.
    pub fn service(&self, user: &str, service: ServiceKind, name: &str) -> (found: Option<
        &ServiceConfig,
    >)
        ensures
            match found {
                Some(at) => find_service(self.users@, user@, service, name@) == Some(*at),
                None => find_service(self.users@, user@, service, name@) is None,
            },
    {
        let mut i: usize = 0;
        assert(self.users@.skip(0) == self.users@);
        while i < self.users.len()
            invariant
                i <= self.users@.len(),
                first_user(self.users@, user@) == first_user(self.users@.skip(i as int), user@),
            decreases self.users@.len() - i,
        {
            if text::same_text(self.users[i].name.as_str(), user) {
                return find_in_services(&self.users[i].services, service, name);
            }
            assert(self.users@.skip(i as int).skip(1) == self.users@.skip(i + 1));
            i = i + 1;
        }
        None
    }

    /// Puts the default in the place of each value that nothing can be done
    /// with, and returns what is wrong with the configuration, in order.
    pub fn lint_and_repair(&mut self) -> (warnings: Vec<ConfigWarning>)
        ensures
            final(self).server == old(self).server,
            final(self).cache == old(self).cache,
            final(self).auth == old(self).auth,
            final(self).users == old(self).users,
            final(self).downloads.max_concurrent == if old(self).downloads.max_concurrent == 0 {
                3
            } else {
                old(self).downloads.max_concurrent
            },
            final(self).downloads.probe_timeout_seconds == if old(
                self,
            ).downloads.probe_timeout_seconds == 0 {
                300
            } else {
                old(self).downloads.probe_timeout_seconds
            },
            final(self).metadata.refresh_interval_hours == if old(
                self,
            ).metadata.refresh_interval_hours == Some(0u64) {
                Some(24u64)
            } else {
                old(self).metadata.refresh_interval_hours
            },
            final(self).metadata.refresh_recent_grace_minutes == old(
                self,
            ).metadata.refresh_recent_grace_minutes,
            final(self).pip_tool_updates.enabled == old(self).pip_tool_updates.enabled,
            final(self).pip_tool_updates.startup_check == old(self).pip_tool_updates.startup_check,
            final(self).pip_tool_updates.interval_hours == if old(
                self,
            ).pip_tool_updates.interval_hours == Some(0u64) {
                Some(168u64)
            } else {
                old(self).pip_tool_updates.interval_hours
            },
            final(self).pip_tool_updates.pip_package@ == if is_blank(
                old(self).pip_tool_updates.pip_package@,
            ) {
                "yt-dlp"@
            } else {
                old(self).pip_tool_updates.pip_package@
            },
            warnings@ == repair_warnings(*old(self)) + setting_warnings(*final(self))
                + users_warnings(old(self).users@, old(self).users@.len() as int),
            repair_warnings(*final(self)).len() == 0,
            final(self).downloads.max_concurrent > 0,
            final(self).downloads.probe_timeout_seconds > 0,
            final(self).metadata.refresh_interval_hours != Some(0u64),
            final(self).pip_tool_updates.interval_hours != Some(0u64),
            text::trimmed(final(self).pip_tool_updates.pip_package@).len() > 0,
            old(self).downloads.max_concurrent > 0 ==> final(self).downloads.max_concurrent == old(
                self,
            ).downloads.max_concurrent,
            old(self).downloads.probe_timeout_seconds > 0
                ==> final(self).downloads.probe_timeout_seconds == old(
                self,
            ).downloads.probe_timeout_seconds,
    {
        let mut warnings: Vec<ConfigWarning> = Vec::new();
        if self.downloads.max_concurrent == 0 {
            warnings.push(ConfigWarning::NoConcurrentDownloads);
            self.downloads.max_concurrent = DownloadsConfig::default().max_concurrent;
        }
        if self.downloads.probe_timeout_seconds == 0 {
            warnings.push(ConfigWarning::NoProbeTimeout);
            self.downloads.probe_timeout_seconds = DownloadsConfig::default().probe_timeout_seconds;
        }
        if self.metadata.refresh_interval_hours == Some(0u64) {
            warnings.push(ConfigWarning::NoRefreshInterval);
            self.metadata.refresh_interval_hours = MetadataConfig::default().refresh_interval_hours;
        }
        if self.pip_tool_updates.interval_hours == Some(0u64) {
            warnings.push(ConfigWarning::NoUpdateInterval);
            self.pip_tool_updates.interval_hours = PipToolUpdatesConfig::default().interval_hours;
        }
        if blank(self.pip_tool_updates.pip_package.as_str()) {
            warnings.push(ConfigWarning::EmptyPipPackage);
            self.pip_tool_updates.pip_package = PipToolUpdatesConfig::default().pip_package;
        }
        assert(warnings@ =~= repair_warnings(*old(self)));
        proof {
            lemma_default_package_is_not_blank();
        }
        self.lint_settings(&mut warnings);
        lint_users(&self.users, &mut warnings);
        warnings
    }

    fn lint_settings(&self, warnings: &mut Vec<ConfigWarning>)
        ensures
            final(warnings)@ == old(warnings)@ + setting_warnings(*self),
    {
        if self.auth.enabled && (unset(&self.auth.username) || unset(&self.auth.password)) {
            warnings.push(ConfigWarning::EmptyCredentials);
        }
        if !self.auth.enabled && text::starts_with(self.server.bind.as_str(), "0.0.0.0") {
            warnings.push(ConfigWarning::OpenToAllInterfaces { bind: self.server.bind.clone() });
        }
        if self.downloads.max_concurrent > 10 {
            warnings.push(
                ConfigWarning::ManyConcurrentDownloads {
                    max_concurrent: self.downloads.max_concurrent,
                },
            );
        }
        match self.cache.media_ttl_minutes {
            Some(minutes) => {
                if minutes < 10 {
                    warnings.push(ConfigWarning::ShortMediaTtl { minutes });
                }
            },
            None => {},
        }
        if self.metadata.refresh_interval_hours.is_none() {
            warnings.push(ConfigWarning::RefreshDisabled);
        }
        assert(warnings@ =~= old(warnings)@ + setting_warnings(*self));
    }

    /// What the server says of itself when it starts.
    pub fn log_startup_summary(&self) -> (summary: StartupSummary)
        requires
            feeds_of_users(self.users@) <= usize::MAX,
        ensures
            summary.bind@ == self.server.bind@,
            summary.data_dir@ == self.cache.data_dir@,
            summary.feed_metadata_dir@ == paths::joined(self.cache.data_dir@, "feed-metadata"@),
            summary.media_dir@ == paths::joined(self.cache.data_dir@, "media"@),
            summary.auth_enabled == self.auth.enabled,
            summary.users == self.users@.len(),
            summary.feeds == feeds_of_users(self.users@),
            summary.metadata_refresh_interval_hours == self.metadata.refresh_interval_hours,
            summary.metadata_recent_grace_minutes == self.metadata.refresh_recent_grace_minutes,
            summary.max_concurrent_downloads == self.downloads.max_concurrent,
            summary.pip_tool_updates_enabled == self.pip_tool_updates.enabled,
            summary.pip_tool_updates_interval_hours == self.pip_tool_updates.interval_hours,
            summary.probe_timeout_seconds == self.downloads.probe_timeout_seconds,
    {
        StartupSummary {
            bind: self.server.bind.clone(),
            data_dir: self.cache.data_dir.clone(),
            feed_metadata_dir: self.feed_metadata_dir(),
            media_dir: self.media_dir(),
            auth_enabled: self.auth.enabled,
            users: self.users.len(),
            feeds: count_feeds(&self.users),
            metadata_refresh_interval_hours: self.metadata.refresh_interval_hours,
            metadata_recent_grace_minutes: self.metadata.refresh_recent_grace_minutes,
            max_concurrent_downloads: self.downloads.max_concurrent,
            pip_tool_updates_enabled: self.pip_tool_updates.enabled,
            pip_tool_updates_interval_hours: self.pip_tool_updates.interval_hours,
            probe_timeout_seconds: self.downloads.probe_timeout_seconds,
        }
    }
}

/// The feed of an account's own page is read from that page. That of its likes is
/// read from the page `likes` under it, with or without slashes behind the page.
pub proof fn lemma_sources_of_feeds(service: ServiceView)
    ensures
        SoundCloudFeedKind::Profile.source(service) == service.profile_url,
        text::ends_with(SoundCloudFeedKind::Likes.source(service), "/likes"@),
        service.profile_url.len() > 0 && service.profile_url.last() != '/'
            ==> SoundCloudFeedKind::Likes.source(service) == service.profile_url + "/likes"@,
        SoundCloudFeedKind::Likes.source(
            ServiceView { profile_url: service.profile_url.push('/'), ..service },
        ) == SoundCloudFeedKind::Likes.source(service),
{
    let source = SoundCloudFeedKind::Likes.source(service);
    assert(source.skip(source.len() - "/likes"@.len()) =~= "/likes"@);
    assert(service.profile_url.push('/').drop_last() =~= service.profile_url);
}

/// The two feeds of an account have different file names, labels and slugs.
pub proof fn lemma_feeds_have_names()
    ensures
        SoundCloudFeedKind::Profile.path() == "feed.xml"@,
        SoundCloudFeedKind::Likes.path() == "likes.xml"@,
        SoundCloudFeedKind::Profile.path() != SoundCloudFeedKind::Likes.path(),
        SoundCloudFeedKind::Profile.label_text() == "Profile"@,
        SoundCloudFeedKind::Likes.label_text() == "Likes"@,
        SoundCloudFeedKind::Profile.label_text() != SoundCloudFeedKind::Likes.label_text(),
        SoundCloudFeedKind::Profile.slug_text() == "profile"@,
        SoundCloudFeedKind::Likes.slug_text() == "likes"@,
        SoundCloudFeedKind::Profile.slug_text() != SoundCloudFeedKind::Likes.slug_text(),
        ServiceKind::Soundcloud.path() == "soundcloud"@,
{
    reveal_strlit("feed.xml");
    reveal_strlit("likes.xml");
    reveal_strlit("Profile");
    reveal_strlit("Likes");
    reveal_strlit("profile");
    reveal_strlit("likes");
    assert("feed.xml"@.len() == 8 && "likes.xml"@.len() == 9);
    assert("Profile"@.len() == 7 && "Likes"@.len() == 5);
    assert("profile"@.len() == 7 && "likes"@.len() == 5);
}

proof fn lemma_first_user_is_first(users: Seq<UserConfig>, name: Seq<char>) -> (at: int)
    ensures
        match first_user(users, name) {
            Some(found) => {
                &&& 0 <= at < users.len()
                &&& users[at] == found
                &&& found.name@ == name
                &&& forall|j: int| 0 <= j < at ==> (#[trigger] users[j]).name@ != name
            },
            None => forall|j: int| 0 <= j < users.len() ==> (#[trigger] users[j]).name@ != name,
        },
    decreases users.len(),
{
    if users.len() == 0 || users[0].name@ == name {
        0
    } else {
        let rest = users.skip(1);
        let at = lemma_first_user_is_first(rest, name);
        let end = if first_user(users, name) is Some {
            at + 1
        } else {
            users.len() as int
        };
        assert forall|j: int| 0 <= j < end implies (#[trigger] users[j]).name@ != name by {
            if j > 0 {
                assert(users[j] == rest[j - 1]);
            }
        }
        at + 1
    }
}

proof fn lemma_first_service_is_first(
    services: Seq<ServiceConfig>,
    kind: ServiceKind,
    name: Seq<char>,
) -> (at: int)
    ensures
        match first_service(services, kind, name) {
            Some(found) => {
                &&& 0 <= at < services.len()
                &&& services[at] == found
                &&& found.kind == kind
                &&& found.name@ == name
                &&& forall|j: int|
                    0 <= j < at ==> (#[trigger] services[j]).kind != kind || services[j].name@
                        != name
            },
            None => forall|j: int|
                0 <= j < services.len() ==> (#[trigger] services[j]).kind != kind
                    || services[j].name@ != name,
        },
    decreases services.len(),
{
    if services.len() == 0 || services[0].kind == kind && services[0].name@ == name {
        0
    } else {
        let rest = services.skip(1);
        let at = lemma_first_service_is_first(rest, kind, name);
        let end = if first_service(services, kind, name) is Some {
            at + 1
        } else {
            services.len() as int
        };
        assert forall|j: int| 0 <= j < end implies (#[trigger] services[j]).kind != kind
            || services[j].name@ != name by {
            if j > 0 {
                assert(services[j] == rest[j - 1]);
            }
        }
        at + 1
    }
}

/// The service that a route names is the first with its kind and name of the first
/// user with the route's name. Where there is none, that user has no such service,
/// or nobody has the name.
pub proof fn lemma_found_service_is_named(
    users: Seq<UserConfig>,
    user: Seq<char>,
    kind: ServiceKind,
    name: Seq<char>,
) -> (at: (int, int))
    ensures
        match find_service(users, user, kind, name) {
            Some(found) => {
                &&& 0 <= at.0 < users.len()
                &&& users[at.0].name@ == user
                &&& forall|j: int| 0 <= j < at.0 ==> (#[trigger] users[j]).name@ != user
                &&& 0 <= at.1 < users[at.0].services@.len()
                &&& users[at.0].services@[at.1] == found
                &&& found.kind == kind && found.name@ == name
                &&& forall|j: int|
                    0 <= j < at.1 ==> (#[trigger] users[at.0].services@[j]).kind != kind
                        || users[at.0].services@[j].name@ != name
            },
            None => {
                ||| forall|j: int| 0 <= j < users.len() ==> (#[trigger] users[j]).name@ != user
                ||| {
                    &&& 0 <= at.0 < users.len()
                    &&& users[at.0].name@ == user
                    &&& forall|j: int| 0 <= j < at.0 ==> (#[trigger] users[j]).name@ != user
                    &&& forall|j: int|
                        0 <= j < users[at.0].services@.len() ==> (
                        #[trigger] users[at.0].services@[j]).kind != kind
                            || users[at.0].services@[j].name@ != name
                }
            },
        },
{
    let u = lemma_first_user_is_first(users, user);
    if first_user(users, user) is Some {
        let s = lemma_first_service_is_first(users[u].services@, kind, name);
        (u, s)
    } else {
        (u, 0)
    }
}

proof fn lemma_contained_in_sum(
    left: Seq<ConfigWarning>,
    right: Seq<ConfigWarning>,
    warning: ConfigWarning,
)
    ensures
        (left + right).contains(warning) <==> left.contains(warning) || right.contains(warning),
{
    let sum = left + right;
    if left.contains(warning) {
        let k = choose|k: int| 0 <= k < left.len() && left[k] == warning;
        assert(sum[k] == warning);
    }
    if right.contains(warning) {
        let k = choose|k: int| 0 <= k < right.len() && right[k] == warning;
        assert(sum[left.len() + k] == warning);
    }
    if sum.contains(warning) {
        let k = choose|k: int| 0 <= k < sum.len() && sum[k] == warning;
        if k < left.len() {
            assert(left[k] == warning);
        } else {
            assert(right[k - left.len()] == warning);
        }
    }
}

proof fn lemma_warned_holds(reason: bool, given: ConfigWarning, warning: ConfigWarning)
    ensures
        warned(reason, given).contains(warning) <==> reason && given == warning,
{
    if reason {
        assert(warned(reason, given)[0] == given);
    }
}

/// Each value that nothing can be done with is warned of, and no other: no
/// concurrent download, no time for a probe, intervals of no time, and a package
/// without a name.
pub proof fn lemma_useless_values_are_warned_of(config: Config)
    ensures
        ({
            let warnings = repair_warnings(config);
            &&& warnings.contains(ConfigWarning::NoConcurrentDownloads)
                <==> config.downloads.max_concurrent == 0
            &&& warnings.contains(ConfigWarning::NoProbeTimeout)
                <==> config.downloads.probe_timeout_seconds == 0
            &&& warnings.contains(ConfigWarning::NoRefreshInterval)
                <==> config.metadata.refresh_interval_hours == Some(0u64)
            &&& warnings.contains(ConfigWarning::NoUpdateInterval)
                <==> config.pip_tool_updates.interval_hours == Some(0u64)
            &&& warnings.contains(ConfigWarning::EmptyPipPackage)
                <==> text::trimmed(config.pip_tool_updates.pip_package@).len() == 0
            &&& warnings.len() <= 5
        }),
{
    let a = warned(config.downloads.max_concurrent == 0, ConfigWarning::NoConcurrentDownloads);
    let b = warned(config.downloads.probe_timeout_seconds == 0, ConfigWarning::NoProbeTimeout);
    let c = warned(
        config.metadata.refresh_interval_hours == Some(0u64),
        ConfigWarning::NoRefreshInterval,
    );
    let d = warned(
        config.pip_tool_updates.interval_hours == Some(0u64),
        ConfigWarning::NoUpdateInterval,
    );
    let e = warned(
        is_blank(config.pip_tool_updates.pip_package@),
        ConfigWarning::EmptyPipPackage,
    );
    assert(repair_warnings(config) == a + b + c + d + e);
    assert forall|warning: ConfigWarning| #[trigger]
        repair_warnings(config).contains(warning) <==> a.contains(warning) || b.contains(warning)
            || c.contains(warning) || d.contains(warning) || e.contains(warning) by {
        lemma_contained_in_sum(a + b + c + d, e, warning);
        lemma_contained_in_sum(a + b + c, d, warning);
        lemma_contained_in_sum(a + b, c, warning);
        lemma_contained_in_sum(a, b, warning);
    }
    assert(config.downloads.max_concurrent == 0 ==> a[0] == ConfigWarning::NoConcurrentDownloads);
    assert(config.downloads.probe_timeout_seconds == 0 ==> b[0] == ConfigWarning::NoProbeTimeout);
    assert(config.metadata.refresh_interval_hours == Some(0u64) ==> c[0]
        == ConfigWarning::NoRefreshInterval);
    assert(config.pip_tool_updates.interval_hours == Some(0u64) ==> d[0]
        == ConfigWarning::NoUpdateInterval);
    assert(is_blank(config.pip_tool_updates.pip_package@) ==> e[0]
        == ConfigWarning::EmptyPipPackage);
}

/// Each setting that is taken as it is but may be a mistake is warned of, and no
/// other: auth without credentials, no auth on all interfaces, more than ten
/// downloads at once, media that expires within ten minutes, and no refreshes.
pub proof fn lemma_doubtful_settings_are_warned_of(config: Config)
    ensures
        ({
            let warnings = setting_warnings(config);
            &&& warnings.contains(ConfigWarning::EmptyCredentials) <==> config.auth.enabled && (
            config.auth.username is None || config.auth.username->0@.len() == 0
                || config.auth.password is None || config.auth.password->0@.len() == 0)
            &&& warnings.contains(ConfigWarning::OpenToAllInterfaces { bind: config.server.bind })
                <==> !config.auth.enabled && text::begins_with(config.server.bind@, "0.0.0.0"@)
            &&& warnings.contains(
                ConfigWarning::ManyConcurrentDownloads {
                    max_concurrent: config.downloads.max_concurrent,
                },
            ) <==> config.downloads.max_concurrent > 10
            &&& forall|minutes: u64|
                #[trigger] warnings.contains(ConfigWarning::ShortMediaTtl { minutes })
                    <==> config.cache.media_ttl_minutes == Some(minutes) && minutes < 10
            &&& warnings.contains(ConfigWarning::RefreshDisabled)
                <==> config.metadata.refresh_interval_hours is None
            &&& warnings.len() <= 5
        }),
{
    let a = warned(
        config.auth.enabled && (is_unset(config.auth.username) || is_unset(config.auth.password)),
        ConfigWarning::EmptyCredentials,
    );
    let b = warned(
        !config.auth.enabled && text::begins_with(config.server.bind@, "0.0.0.0"@),
        ConfigWarning::OpenToAllInterfaces { bind: config.server.bind },
    );
    let c = warned(
        config.downloads.max_concurrent > 10,
        ConfigWarning::ManyConcurrentDownloads {
            max_concurrent: config.downloads.max_concurrent,
        },
    );
    let d = ttl_warnings(config.cache);
    let e = warned(
        config.metadata.refresh_interval_hours is None,
        ConfigWarning::RefreshDisabled,
    );
    assert(setting_warnings(config) == a + b + c + d + e);
    assert forall|warning: ConfigWarning| #[trigger]
        setting_warnings(config).contains(warning) <==> a.contains(warning) || b.contains(warning)
            || c.contains(warning) || d.contains(warning) || e.contains(warning) by {
        lemma_contained_in_sum(a + b + c + d, e, warning);
        lemma_contained_in_sum(a + b + c, d, warning);
        lemma_contained_in_sum(a + b, c, warning);
        lemma_contained_in_sum(a, b, warning);
    }
    assert(a.len() == 0 || a[0] == ConfigWarning::EmptyCredentials);
    assert(b.len() == 0 || b[0] == ConfigWarning::OpenToAllInterfaces {
        bind: config.server.bind,
    });
    assert(c.len() == 0 || c[0] == ConfigWarning::ManyConcurrentDownloads {
        max_concurrent: config.downloads.max_concurrent,
    });
    if config.cache.media_ttl_minutes is Some {
        let minutes = config.cache.media_ttl_minutes->0;
        assert(minutes < 10 ==> d[0] == ConfigWarning::ShortMediaTtl { minutes });
    }
    assert(e.len() == 0 || e[0] == ConfigWarning::RefreshDisabled);
    assert forall|minutes: u64|
        #[trigger] setting_warnings(config).contains(ConfigWarning::ShortMediaTtl { minutes })
            <==> config.cache.media_ttl_minutes == Some(minutes) && minutes < 10 by {
        if config.cache.media_ttl_minutes == Some(minutes) && minutes < 10 {
            assert(d[0] == ConfigWarning::ShortMediaTtl { minutes });
            assert(d.contains(ConfigWarning::ShortMediaTtl { minutes }));
        }
    }
}

proof fn lemma_feed_warnings_hold(
    user: UserConfig,
    service: ServiceConfig,
    count: int,
    warning: ConfigWarning,
)
    requires
        0 <= count <= service.feeds@.len(),
    ensures
        feed_warnings(user, service, count).contains(warning) <==> exists|f: int|
            0 <= f < count && is_repeated_feed(service.feeds@, f) && warning == (
            ConfigWarning::DuplicateFeed {
                user: user.name,
                service: service.kind,
                name: service.name,
                feed: #[trigger] service.feeds@[f],
            }),
    decreases count,
{
    if count > 0 {
        lemma_feed_warnings_hold(user, service, count - 1, warning);
        let given = ConfigWarning::DuplicateFeed {
            user: user.name,
            service: service.kind,
            name: service.name,
            feed: service.feeds@[count - 1],
        };
        let repeated = is_repeated_feed(service.feeds@, count - 1);
        lemma_contained_in_sum(
            feed_warnings(user, service, count - 1),
            warned(repeated, given),
            warning,
        );
        lemma_warned_holds(repeated, given, warning);
    }
}

/// What a service is warned of: that it has no name, that its page is missing or
/// not on the web, that an earlier service has its route, and that one of its feeds
/// was listed before; each exactly where it is so.
pub proof fn lemma_services_are_warned_of(users: Seq<UserConfig>, u: int, s: int)
    requires
        0 <= u < users.len(),
        0 <= s < users[u].services@.len(),
    ensures
        ({
            let user = users[u];
            let service = user.services@[s];
            let warnings = service_warnings(users, u, s);
            &&& warnings.contains(ConfigWarning::EmptyServiceName { user: user.name })
                <==> text::trimmed(service.name@).len() == 0
            &&& warnings.contains(
                ConfigWarning::EmptyProfileUrl { user: user.name, name: service.name },
            ) <==> text::trimmed(service.profile_url@).len() == 0
            &&& warnings.contains(
                ConfigWarning::UnknownUrlScheme {
                    user: user.name,
                    name: service.name,
                    profile_url: service.profile_url,
                },
            ) <==> text::trimmed(service.profile_url@).len() > 0 && !text::begins_with(
                service.profile_url@,
                "http://"@,
            ) && !text::begins_with(service.profile_url@, "https://"@)
            &&& warnings.contains(
                ConfigWarning::DuplicateService {
                    user: user.name,
                    service: service.kind,
                    name: service.name,
                },
            ) <==> exists|v: int, t: int|
                {
                    &&& 0 <= v <= u
                    &&& 0 <= t < users[v].services@.len()
                    &&& v < u || t < s
                    &&& users[v].name@ == user.name@
                    &&& (#[trigger] users[v].services@[t]).kind == service.kind
                    &&& users[v].services@[t].name@ == service.name@
                }
            &&& forall|f: int|
                0 <= f < service.feeds@.len() && service.feeds@.take(f).contains(
                    #[trigger] service.feeds@[f],
                ) ==> warnings.contains(
                    ConfigWarning::DuplicateFeed {
                        user: user.name,
                        service: service.kind,
                        name: service.name,
                        feed: service.feeds@[f],
                    },
                )
            &&& service.feeds@.no_duplicates() ==> forall|feed: SoundCloudFeedKind|
                !#[trigger] warnings.contains(
                    ConfigWarning::DuplicateFeed {
                        user: user.name,
                        service: service.kind,
                        name: service.name,
                        feed,
                    },
                )
        }),
{
    let user = users[u];
    let service = user.services@[s];
    let unnamed = warned(
        is_blank(service.name@),
        ConfigWarning::EmptyServiceName { user: user.name },
    );
    let page = url_warnings(user, service);
    let given = ConfigWarning::DuplicateService {
        user: user.name,
        service: service.kind,
        name: service.name,
    };
    let route = warned(is_repeated_service(users, u, s), given);
    let count = service.feeds@.len() as int;
    let feeds = feed_warnings(user, service, count);
    let warnings = service_warnings(users, u, s);
    assert(warnings == unnamed + page + route + feeds);
    assert forall|warning: ConfigWarning| #[trigger]
        warnings.contains(warning) <==> unnamed.contains(warning) || page.contains(warning)
            || route.contains(warning) || feeds.contains(warning) by {
        lemma_contained_in_sum(unnamed + page + route, feeds, warning);
        lemma_contained_in_sum(unnamed + page, route, warning);
        lemma_contained_in_sum(unnamed, page, warning);
    }
    assert forall|warning: ConfigWarning| #[trigger] feeds.contains(warning) implies warning is DuplicateFeed by {
        lemma_feed_warnings_hold(user, service, count, warning);
    }
    assert(unnamed.len() == 0 || unnamed[0] == ConfigWarning::EmptyServiceName {
        user: user.name,
    });
    let missing = ConfigWarning::EmptyProfileUrl { user: user.name, name: service.name };
    let unknown = ConfigWarning::UnknownUrlScheme {
        user: user.name,
        name: service.name,
        profile_url: service.profile_url,
    };
    assert(is_blank(service.profile_url@) ==> page[0] == missing);
    assert(!is_blank(service.profile_url@) && !has_web_scheme(service.profile_url@) ==> page[0]
        == unknown);
    lemma_warned_holds(is_repeated_service(users, u, s), given, given);
    lemma_repeated_service_is_seen(users, u, s);
    assert forall|f: int|
        0 <= f < service.feeds@.len() && service.feeds@.take(f).contains(
            #[trigger] service.feeds@[f],
        ) implies warnings.contains(
        ConfigWarning::DuplicateFeed {
            user: user.name,
            service: service.kind,
            name: service.name,
            feed: service.feeds@[f],
        },
    ) by {
        let g = choose|g: int|
            0 <= g < service.feeds@.take(f).len() && service.feeds@.take(f)[g] == service.feeds@[f];
        assert(service.feeds@[g] == service.feeds@[f]);
        assert(is_repeated_feed(service.feeds@, f));
        lemma_feed_warnings_hold(
            user,
            service,
            count,
            ConfigWarning::DuplicateFeed {
                user: user.name,
                service: service.kind,
                name: service.name,
                feed: service.feeds@[f],
            },
        );
    }
    if service.feeds@.no_duplicates() {
        assert forall|feed: SoundCloudFeedKind|
            !#[trigger] warnings.contains(
                ConfigWarning::DuplicateFeed {
                    user: user.name,
                    service: service.kind,
                    name: service.name,
                    feed,
                },
            ) by {
            lemma_feed_warnings_hold(
                user,
                service,
                count,
                ConfigWarning::DuplicateFeed {
                    user: user.name,
                    service: service.kind,
                    name: service.name,
                    feed,
                },
            );
        }
    }
}

proof fn lemma_repeated_service_is_seen(users: Seq<UserConfig>, u: int, s: int)
    requires
        0 <= u < users.len(),
        0 <= s < users[u].services@.len(),
    ensures
        is_repeated_service(users, u, s) <==> exists|v: int, t: int|
            {
                &&& 0 <= v <= u
                &&& 0 <= t < users[v].services@.len()
                &&& v < u || t < s
                &&& users[v].name@ == users[u].name@
                &&& (#[trigger] users[v].services@[t]).kind == users[u].services@[s].kind
                &&& users[v].services@[t].name@ == users[u].services@[s].name@
            },
{
    if is_repeated_service(users, u, s) {
        let (v, t) = choose|v: int, t: int|
            {
                &&& 0 <= v <= u
                &&& 0 <= t < users[v].services@.len()
                &&& v < u || t < s
                &&& #[trigger] same_route(users, (v, t), (u, s))
            };
        assert(users[v].services@[t].kind == users[u].services@[s].kind);
    }
    if exists|v: int, t: int|
        {
            &&& 0 <= v <= u
            &&& 0 <= t < users[v].services@.len()
            &&& v < u || t < s
            &&& users[v].name@ == users[u].name@
            &&& (#[trigger] users[v].services@[t]).kind == users[u].services@[s].kind
            &&& users[v].services@[t].name@ == users[u].services@[s].name@
        } {
        let (v, t) = choose|v: int, t: int|
            {
                &&& 0 <= v <= u
                &&& 0 <= t < users[v].services@.len()
                &&& v < u || t < s
                &&& users[v].name@ == users[u].name@
                &&& (#[trigger] users[v].services@[t]).kind == users[u].services@[s].kind
                &&& users[v].services@[t].name@ == users[u].services@[s].name@
            };
        assert(same_route(users, (v, t), (u, s)));
    }
}

proof fn lemma_services_warnings_hold(
    users: Seq<UserConfig>,
    u: int,
    count: int,
    warning: ConfigWarning,
)
    ensures
        services_warnings(users, u, count).contains(warning) <==> exists|s: int|
            0 <= s < count && (#[trigger] service_warnings(users, u, s)).contains(warning),
    decreases count,
{
    if count > 0 {
        lemma_services_warnings_hold(users, u, count - 1, warning);
        lemma_contained_in_sum(
            services_warnings(users, u, count - 1),
            service_warnings(users, u, count - 1),
            warning,
        );
    }
}

/// What the users are warned of together: that one has no name, and all that the
/// services of each are warned of.
pub proof fn lemma_users_are_warned_of(
    users: Seq<UserConfig>,
    count: int,
    warning: ConfigWarning,
)
    requires
        0 <= count <= users.len(),
    ensures
        users_warnings(users, count).contains(warning) <==> {
            ||| exists|u: int|
                0 <= u < count && text::trimmed((#[trigger] users[u]).name@).len() == 0 && warning
                    == ConfigWarning::EmptyUserName
            ||| exists|u: int, s: int|
                0 <= u < count && 0 <= s < users[u].services@.len() && (
                #[trigger] service_warnings(users, u, s)).contains(warning)
        },
    decreases count,
{
    if count > 0 {
        let last = count - 1;
        let unnamed = warned(is_blank(users[last].name@), ConfigWarning::EmptyUserName);
        let before = users_warnings(users, last);
        let services = services_warnings(users, last, users[last].services@.len() as int);
        lemma_users_are_warned_of(users, last, warning);
        lemma_contained_in_sum(before + unnamed, services, warning);
        lemma_contained_in_sum(before, unnamed, warning);
        lemma_warned_holds(
            is_blank(users[last].name@),
            ConfigWarning::EmptyUserName,
            warning,
        );
        lemma_services_warnings_hold(
            users,
            last,
            users[last].services@.len() as int,
            warning,
        );
    }
}

/// Which words turn a switch on and which turn it off, in any case and between any
/// white space.
pub proof fn lemma_switch_words(
    before: Seq<char>,
    word: Seq<char>,
    behind: Seq<char>,
    value: Seq<char>,
)
    requires
        value == before + word + behind,
        forall|i: int| 0 <= i < before.len() ==> text::is_white_space(#[trigger] before[i]),
        forall|i: int| 0 <= i < behind.len() ==> text::is_white_space(#[trigger] behind[i]),
        word.len() > 0,
        !text::is_white_space(word[0]),
        !text::is_white_space(word.last()),
    ensures
        ({
            let lower = word.map_values(|ch: char| text::ascii_lower(ch));
            &&& switch_value(value) == Some(true) <==> lower == "1"@ || lower == "true"@ || lower
                == "yes"@ || lower == "on"@
            &&& switch_value(value) == Some(false) <==> lower == "0"@ || lower == "false"@ || lower
                == "no"@ || lower == "off"@
        }),
{
    text::lemma_padding_is_trimmed(before, word, behind);
    reveal_strlit("1");
    reveal_strlit("true");
    reveal_strlit("yes");
    reveal_strlit("on");
    reveal_strlit("0");
    reveal_strlit("false");
    reveal_strlit("no");
    reveal_strlit("off");
    assert("1"@[0] == '1' && "true"@[0] == 't' && "yes"@[0] == 'y' && "on"@.len() == 2);
    assert("0"@[0] == '0' && "false"@[0] == 'f' && "no"@[0] == 'n' && "off"@.len() == 3);
    assert("on"@[0] == 'o' && "off"@[0] == 'o');
}

/// A limit in a larger unit is as many of the smaller ones as go into it, for as
/// long as that can be counted: sixty seconds to a minute, 3600 to an hour, and
/// 1048576 bytes to a megabyte. More than can be counted is the largest number.
pub proof fn lemma_limits_are_converted(
    cache: CacheConfig,
    metadata: MetadataConfig,
    updates: PipToolUpdatesConfig,
)
    ensures
        cache.media_ttl_minutes is None <==> kept_seconds(cache) is None,
        cache.media_ttl_minutes matches Some(minutes) ==> kept_seconds(cache)->0 == if minutes * 60
            <= u64::MAX {
            minutes * 60
        } else {
            u64::MAX as int
        },
        cache.media_max_megabytes is None <==> kept_bytes(cache) is None,
        cache.media_max_megabytes matches Some(megabytes) ==> kept_bytes(cache)->0 == if megabytes
            * 1024 * 1024 <= u64::MAX {
            megabytes * 1024 * 1024
        } else {
            u64::MAX as int
        },
        metadata.refresh_interval_hours is None <==> seconds_between_refreshes(metadata) is None,
        metadata.refresh_interval_hours matches Some(hours) ==> seconds_between_refreshes(
            metadata,
        )->0 == if hours * 60 * 60 <= u64::MAX {
            hours * 60 * 60
        } else {
            u64::MAX as int
        },
        updates.interval_hours is None <==> seconds_between_updates(updates) is None,
        updates.interval_hours matches Some(hours) ==> seconds_between_updates(updates)->0
            == if hours * 60 * 60 <= u64::MAX {
            hours * 60 * 60
        } else {
            u64::MAX as int
        },
{
}

/// Minutes that are read as a signed number are the number of 64 bits with the
/// same remainder, so that those beyond half of the range are negative.
pub proof fn lemma_signed_minutes_wrap(minutes: u64)
    ensures
        i64::MIN <= signed_minutes(minutes) <= i64::MAX,
        signed_minutes(minutes) == minutes || signed_minutes(minutes) == minutes
            - 0x1_0000_0000_0000_0000,
{
}

} // verus!
