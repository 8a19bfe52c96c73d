//! The metadata of feeds: what is cached of it, what is being refreshed, and
//! what is told of both.
use vstd::prelude::*;

use crate::config::ServiceConfig;
use crate::config::ServiceKind;
use crate::config::ServiceView;
use crate::config::SoundCloudFeedKind;
use crate::config::UserConfig;
use crate::identity;
use crate::identity::FeedIdentity;
use crate::identity::IdentityView;
use crate::media;
use crate::media::FeedItem;
use crate::media::ItemView;
use crate::text;
use crate::timestamp::TimeView;
use crate::timestamp::Timestamp;

verus! {

/// The version of the form in which metadata is written to files.
pub const SCHEMA_VERSION: u32 = 1;

/// How many characters of an error are kept.
pub const LAST_ERROR_LIMIT: usize = 500;

/// The metadata of a feed as it was last fetched.
#[derive(Debug, PartialEq, Eq)]
pub struct CachedFeedMetadata {
    pub schema_version: u32,
    pub user: String,
    pub service: ServiceKind,
    pub name: String,
    pub feed: SoundCloudFeedKind,
    pub source_url: String,
    pub last_successful_refresh: Timestamp,
    pub items: Vec<FeedItem>,
}

/// What the metadata of a feed is.
#[verifier::ext_equal]
pub struct CachedView {
    pub schema_version: u32,
    pub identity: IdentityView,
    pub source_url: Seq<char>,
    pub last_successful_refresh: TimeView,
    pub items: Seq<ItemView>,
}

impl View for CachedFeedMetadata {
    type V = CachedView;

    open spec fn view(&self) -> CachedView {
        CachedView {
            schema_version: self.schema_version,
            identity: IdentityView {
                user: self.user@,
                service: self.service,
                name: self.name@,
                feed: self.feed,
            },
            source_url: self.source_url@,
            last_successful_refresh: self.last_successful_refresh@,
            items: media::items_view(self.items@),
        }
    }
}

impl Clone for CachedFeedMetadata {
    fn clone(&self) -> (copy: CachedFeedMetadata)
        ensures
            copy@ == self@,
    {
        CachedFeedMetadata {
            schema_version: self.schema_version,
            user: self.user.clone(),
            service: self.service,
            name: self.name.clone(),
            feed: self.feed,
            source_url: self.source_url.clone(),
            last_successful_refresh: self.last_successful_refresh,
            items: media::copy_items(&self.items),
        }
    }
}

/// What is told of a feed's metadata.
#[derive(Debug, Clone, Copy, PartialEq, Eq, Structural)]
pub enum MetadataCacheState {
    Missing,
    Warming,
    Ready,
    Refreshing,
    Stale,
    Error,
}

impl MetadataCacheState {
    /// The state as it is written in headers.
    pub open spec fn header_text(self) -> Seq<char> {
        match self {
            MetadataCacheState::Missing => "missing"@,
            MetadataCacheState::Warming => "warming"@,
            MetadataCacheState::Ready => "ready"@,
            MetadataCacheState::Refreshing => "refreshing"@,
            MetadataCacheState::Stale => "stale"@,
            MetadataCacheState::Error => "error"@,
        }
    }

    /// The state as it is written in headers.
    pub fn as_header_value(self) -> (value: &'static str)
        ensures
            value@ == self.header_text(),
    {
        match self {
            MetadataCacheState::Missing => "missing",
            MetadataCacheState::Warming => "warming",
            MetadataCacheState::Ready => "ready",
            MetadataCacheState::Refreshing => "refreshing",
            MetadataCacheState::Stale => "stale",
            MetadataCacheState::Error => "error",
        }
    }
}

/// The state of metadata: whether it is cached, whether it is being refreshed,
/// whether the last refresh failed.
pub open spec fn cache_state(cached: bool, refreshing: bool, failed: bool) -> MetadataCacheState {
    if cached {
        if refreshing {
            MetadataCacheState::Refreshing
        } else if failed {
            MetadataCacheState::Stale
        } else {
            MetadataCacheState::Ready
        }
    } else {
        if refreshing {
            MetadataCacheState::Warming
        } else if failed {
            MetadataCacheState::Error
        } else {
            MetadataCacheState::Missing
        }
    }
}

/// Whether metadata in a state can be served.
pub open spec fn can_be_served(state: MetadataCacheState) -> bool {
    state is Ready || state is Refreshing || state is Stale
}

/// What is told of a feed's metadata, and since when.
#[derive(Debug, PartialEq, Eq)]
pub struct MetadataCacheStatus {
    pub state: MetadataCacheState,
    pub last_successful_refresh: Option<Timestamp>,
    pub refresh_in_progress: bool,
    pub last_error: Option<String>,
}

/// What is told of a feed's metadata.
#[verifier::ext_equal]
pub struct CacheStatusView {
    pub state: MetadataCacheState,
    pub last_successful_refresh: Option<TimeView>,
    pub refresh_in_progress: bool,
    pub last_error: Option<Seq<char>>,
}

/// The point in time that a timestamp is, if there is one.
pub open spec fn optional_time(at: Option<Timestamp>) -> Option<TimeView> {
    match at {
        Some(timestamp) => Some(timestamp@),
        None => None,
    }
}

impl View for MetadataCacheStatus {
    type V = CacheStatusView;

    open spec fn view(&self) -> CacheStatusView {
        CacheStatusView {
            state: self.state,
            last_successful_refresh: optional_time(self.last_successful_refresh),
            refresh_in_progress: self.refresh_in_progress,
            last_error: text::optional(self.last_error),
        }
    }
}

/// What is told of a feed.
#[derive(Debug, PartialEq, Eq)]
pub struct FeedStatus {
    pub user: String,
    pub service: String,
    pub name: String,
    pub feed: String,
    pub title: String,
    pub source_url: String,
    pub item_count: Option<usize>,
    pub metadata_cache: MetadataCacheStatus,
}

/// What is told of a feed.
#[verifier::ext_equal]
pub struct FeedStatusView {
    pub user: Seq<char>,
    pub service: Seq<char>,
    pub name: Seq<char>,
    pub feed: Seq<char>,
    pub title: Seq<char>,
    pub source_url: Seq<char>,
    pub item_count: Option<usize>,
    pub metadata_cache: CacheStatusView,
}

impl View for FeedStatus {
    type V = FeedStatusView;

    open spec fn view(&self) -> FeedStatusView {
        FeedStatusView {
            user: self.user@,
            service: self.service@,
            name: self.name@,
            feed: self.feed@,
            title: self.title@,
            source_url: self.source_url@,
            item_count: self.item_count,
            metadata_cache: self.metadata_cache@,
        }
    }
}

/// What is told of feeds, one by one.
pub open spec fn feeds_view(feeds: Seq<FeedStatus>) -> Seq<FeedStatusView> {
    feeds.map_values(|feed: FeedStatus| feed@)
}

/// What is told of all feeds.
#[derive(Debug, PartialEq, Eq)]
pub struct IndexJson {
    pub generated_at: Timestamp,
    pub summary: IndexSummary,
    pub feeds: Vec<FeedStatus>,
}

/// How many feeds there are, and how their metadata is.
#[derive(Debug, Clone, Copy, PartialEq, Eq, Structural)]
pub struct IndexSummary {
    pub feeds_total: usize,
    pub feeds_ready: usize,
    pub feeds_missing: usize,
    pub refreshes_in_progress: usize,
}

/// Which refreshes go first.
#[derive(Debug, Clone, Copy, PartialEq, Eq, Structural)]
pub enum RefreshPriority {
    Manual,
    Scheduled,
}

/// How a refresh ended, or why none began.
#[derive(Debug, Clone, Copy, PartialEq, Eq, Structural)]
pub enum RefreshOutcome {
    Refreshed,
    AlreadyRunning(MetadataCacheState),
    Failed(MetadataCacheState),
}

/// What was asked for when a refresh was queued.
#[derive(Debug, Clone, Copy, PartialEq, Eq, Structural)]
pub struct RefreshHandle {
    already_running: Option<MetadataCacheState>,
}

impl RefreshHandle {
    /// The state of the refresh that runs already, if one does.
    pub closed spec fn running(self) -> Option<MetadataCacheState> {
        self.already_running
    }

    /// The handle of a refresh that runs already.
    pub fn of_running(state: MetadataCacheState) -> (handle: RefreshHandle)
        ensures
            handle.running() == Some(state),
    {
        RefreshHandle { already_running: Some(state) }
    }

    /// The handle of a refresh that was queued.
    pub fn of_queued() -> (handle: RefreshHandle)
        ensures
            handle.running() is None,
    {
        RefreshHandle { already_running: None }
    }

    /// The state of the refresh that runs already, if one does.
    pub fn already_running(&self) -> (state: Option<MetadataCacheState>)
        ensures
            state == self.running(),
    {
        self.already_running
    }

    /// What the wait for a refresh comes to: nobody waits for one that runs
    /// already, and one of which nothing is heard has failed.
    pub fn wait(self, heard: Option<RefreshOutcome>) -> (outcome: RefreshOutcome)
        ensures
            outcome == match self.running() {
                Some(state) => RefreshOutcome::AlreadyRunning(state),
                None => match heard {
                    Some(outcome) => outcome,
                    None => RefreshOutcome::Failed(MetadataCacheState::Error),
                },
            },
    {
        match self.already_running {
            Some(state) => RefreshOutcome::AlreadyRunning(state),
            None => match heard {
                Some(outcome) => outcome,
                None => RefreshOutcome::Failed(MetadataCacheState::Error),
            },
        }
    }
}

/// A refresh that is to be made.
#[derive(Debug)]
pub struct RefreshJob {
    pub identity: FeedIdentity,
    pub source_url: String,
}

/// A refresh that is to be made.
#[verifier::ext_equal]
pub struct JobView {
    pub identity: IdentityView,
    pub source_url: Seq<char>,
}

impl View for RefreshJob {
    type V = JobView;

    open spec fn view(&self) -> JobView {
        JobView { identity: self.identity@, source_url: self.source_url@ }
    }
}

/// Refreshes that are to be made.
pub open spec fn jobs_view(jobs: Seq<RefreshJob>) -> Seq<JobView> {
    jobs.map_values(|job: RefreshJob| job@)
}

/// What is known of a feed's refreshes while the server runs.
pub struct RuntimeStatus {
    pub refreshing: bool,
    pub last_error: Option<String>,
    pub waiters: Vec<u64>,
}

/// What is known of a feed's refreshes while the server runs.
#[verifier::ext_equal]
pub struct RuntimeView {
    pub refreshing: bool,
    pub last_error: Option<Seq<char>>,
    /// Those who wait for the refresh that runs.
    pub waiters: Seq<u64>,
}

impl View for RuntimeStatus {
    type V = RuntimeView;

    open spec fn view(&self) -> RuntimeView {
        RuntimeView {
            refreshing: self.refreshing,
            last_error: text::optional(self.last_error),
            waiters: self.waiters@,
        }
    }
}

/// A feed that is configured, and the service it is of.
#[verifier::ext_equal]
pub struct FeedEntry {
    pub identity: IdentityView,
    pub service: ServiceView,
}

/// A feed of a service of a user.
pub open spec fn entry_of(user: Seq<char>, service: ServiceConfig, feed: SoundCloudFeedKind) -> FeedEntry {
    FeedEntry {
        identity: IdentityView { user, service: service.kind, name: service.name@, feed },
        service: service@,
    }
}

/// The feeds of a service of a user.
pub open spec fn service_entries(user: Seq<char>, service: ServiceConfig) -> Seq<FeedEntry> {
    service.feeds@.map_values(|feed: SoundCloudFeedKind| entry_of(user, service, feed))
}

/// The feeds of services of a user.
pub open spec fn services_entries(user: Seq<char>, services: Seq<ServiceConfig>) -> Seq<FeedEntry>
    decreases services.len(),
{
    if services.len() == 0 {
        Seq::empty()
    } else {
        services_entries(user, services.drop_last()) + service_entries(user, services.last())
    }
}

/// The feeds that are configured for users, in their order.
pub open spec fn configured(users: Seq<UserConfig>) -> Seq<FeedEntry>
    decreases users.len(),
{
    if users.len() == 0 {
        Seq::empty()
    } else {
        configured(users.drop_last()) + services_entries(
            users.last().name@,
            users.last().services@,
        )
    }
}

/// What feeds and their services are.
pub open spec fn entries_view(entries: Seq<(FeedIdentity, ServiceConfig)>) -> Seq<FeedEntry> {
    entries.map_values(
        |entry: (FeedIdentity, ServiceConfig)|
            FeedEntry { identity: entry.0@, service: entry.1@ },
    )
}

fn list_service(
    user: &UserConfig,
    service: &ServiceConfig,
    feeds: &mut Vec<(FeedIdentity, ServiceConfig)>,
)
    ensures
        entries_view(final(feeds)@) == entries_view(old(feeds)@) + service_entries(
            user.name@,
            *service,
        ),
{
    let ghost start = entries_view(feeds@);
    let ghost all = service_entries(user.name@, *service);
    let mut f: usize = 0;
    assert(start + all.take(0) =~= start);
    while f < service.feeds.len()
        invariant
            f <= service.feeds@.len(),
            all == service_entries(user.name@, *service),
            entries_view(feeds@) == start + all.take(f as int),
        decreases service.feeds@.len() - f,
    {
        let ghost before = feeds@;
        let feed: SoundCloudFeedKind = service.feeds[f];
        feeds.push(
            (identity::identity_for(user.name.as_str(), service, feed), service.clone()),
        );
        assert(entries_view(feeds@) =~= entries_view(before).push(all[f as int]));
        assert(start + all.take(f + 1) =~= (start + all.take(f as int)).push(all[f as int]));
        f = f + 1;
    }
    assert(all.take(all.len() as int) == all);
}

/// The feeds that are configured for users, in their order, each with its
/// service.
pub fn configured_feeds(users: &Vec<UserConfig>) -> (feeds: Vec<(FeedIdentity, ServiceConfig)>)
    ensures
        entries_view(feeds@) == configured(users@),
{
    let mut feeds: Vec<(FeedIdentity, ServiceConfig)> = Vec::new();
    let mut u: usize = 0;
    assert(entries_view(feeds@) =~= configured(users@.take(0)));
    while u < users.len()
        invariant
            u <= users@.len(),
            entries_view(feeds@) == configured(users@.take(u as int)),
        decreases users@.len() - u,
    {
        assert(users@.take(u + 1).drop_last() == users@.take(u as int));
        let user: &UserConfig = &users[u];
        let ghost before = entries_view(feeds@);
        let mut s: usize = 0;
        assert(before + services_entries(user.name@, user.services@.take(0)) =~= before);
        while s < user.services.len()
            invariant
                s <= user.services@.len(),
                entries_view(feeds@) == before + services_entries(
                    user.name@,
                    user.services@.take(s as int),
                ),
            decreases user.services@.len() - s,
        {
            assert(user.services@.take(s + 1).drop_last() == user.services@.take(s as int));
            list_service(user, &user.services[s], &mut feeds);
            assert(entries_view(feeds@) =~= before + services_entries(
                user.name@,
                user.services@.take(s + 1),
            ));
            s = s + 1;
        }
        assert(user.services@.take(user.services@.len() as int) == user.services@);
        u = u + 1;
    }
    assert(users@.take(users@.len() as int) == users@);
    feeds
}

/// The name of a service for readers.
pub open spec fn display_name(service: Seq<char>) -> Seq<char> {
    if service == "soundcloud"@ {
        "SoundCloud"@
    } else {
        service
    }
}

/// The name of a service for readers.
pub fn service_display_name(service: &str) -> (name: &str)
    ensures
        name@ == display_name(service@),
{
    if text::same_text(service, "soundcloud") {
        "SoundCloud"
    } else {
        service
    }
}

/// The title of a feed.
pub open spec fn title_of(service: ServiceView, feed: SoundCloudFeedKind) -> Seq<char> {
    display_name(service.kind.path()) + ": "@ + service.name + " / "@ + feed.label_text()
}

/// The title of a feed: the service, the account and which of its feeds it is.
pub fn feed_title(service: &ServiceConfig, feed: SoundCloudFeedKind) -> (title: String)
    ensures
        title@ == title_of(service@, feed),
{
    let mut title: String = service_display_name(service.kind.as_path()).to_owned();
    title.append(": ");
    title.append(service.name.as_str());
    title.append(" / ");
    title.append(feed.label());
    title
}

/// The start of an error: as much of it as is kept.
pub open spec fn kept_error(error: Seq<char>) -> Seq<char> {
    if error.len() <= LAST_ERROR_LIMIT {
        error
    } else {
        error.take(LAST_ERROR_LIMIT as int)
    }
}

/// The start of an error: as much of it as is kept.
pub fn truncate_error(input: &str) -> (kept: String)
    ensures
        kept@ == kept_error(input@),
{
    let chars: Vec<char> = text::chars_of(input);
    if chars.len() <= LAST_ERROR_LIMIT {
        return input.to_owned();
    }
    let start: &[char] = vstd::slice::slice_subrange(chars.as_slice(), 0, LAST_ERROR_LIMIT);
    assert(start@ == chars@.take(LAST_ERROR_LIMIT as int));
    text::text_of(start)
}

/// The namespaces of feeds: their prefixes, in order, and what they stand for.
pub fn namespace_map() -> (namespaces: Vec<(String, String)>)
    ensures
        namespaces@.len() == 3,
        namespaces@[0].0@ == "atom"@,
        namespaces@[0].1@ == "http://www.w3.org/2005/Atom"@,
        namespaces@[1].0@ == "itunes"@,
        namespaces@[1].1@ == "http://www.itunes.com/dtds/podcast-1.0.dtd"@,
        namespaces@[2].0@ == "media"@,
        namespaces@[2].1@ == "http://search.yahoo.com/mrss/"@,
{
    vec![
        ("atom".to_owned(), "http://www.w3.org/2005/Atom".to_owned()),
        ("itunes".to_owned(), "http://www.itunes.com/dtds/podcast-1.0.dtd".to_owned()),
        ("media".to_owned(), "http://search.yahoo.com/mrss/".to_owned()),
    ]
}

/// The metadata that items make when they are fetched at a time.
pub open spec fn fetched_view(
    identity: IdentityView,
    source_url: Seq<char>,
    items: Seq<ItemView>,
    now: TimeView,
) -> CachedView {
    CachedView {
        schema_version: SCHEMA_VERSION,
        identity,
        source_url,
        last_successful_refresh: now,
        items,
    }
}

impl RefreshJob {
    /// The metadata that fetched items make: they stay in the order in which
    /// they came.
    pub fn refreshed(&self, items: Vec<FeedItem>, now: Timestamp) -> (cached: CachedFeedMetadata)
        ensures
            cached@ == fetched_view(
                self@.identity,
                self@.source_url,
                media::items_view(items@),
                now@,
            ),
    {
        CachedFeedMetadata {
            schema_version: SCHEMA_VERSION,
            user: self.identity.user.clone(),
            service: self.identity.service,
            name: self.identity.name.clone(),
            feed: self.identity.feed,
            source_url: self.source_url.clone(),
            last_successful_refresh: now,
            items,
        }
    }
}

/// The title of a feed names the service, then the account, then which of its
/// feeds it is.
pub proof fn lemma_title_tells_account_and_feed(service: ServiceView, feed: SoundCloudFeedKind)
    ensures
        title_of(service, feed) == "SoundCloud: "@ + service.name + " / "@ + feed.label_text(),
        title_of(service, SoundCloudFeedKind::Profile) == "SoundCloud: "@ + service.name
            + " / Profile"@,
        title_of(service, SoundCloudFeedKind::Likes) == "SoundCloud: "@ + service.name
            + " / Likes"@,
{
    reveal_strlit("SoundCloud: ");
    reveal_strlit("SoundCloud");
    reveal_strlit(": ");
    reveal_strlit(" / ");
    reveal_strlit("Profile");
    reveal_strlit("Likes");
    reveal_strlit(" / Profile");
    reveal_strlit(" / Likes");
    assert(title_of(service, feed) =~= "SoundCloud: "@ + service.name + " / "@
        + feed.label_text());
    assert(title_of(service, SoundCloudFeedKind::Profile) =~= "SoundCloud: "@ + service.name
        + " / Profile"@);
    assert(title_of(service, SoundCloudFeedKind::Likes) =~= "SoundCloud: "@ + service.name
        + " / Likes"@);
}

/// What is told of metadata: it can be served exactly where it is cached; it is
/// being refreshed or warmed exactly while a refresh runs; and it is stale or in
/// error exactly where none runs and the last one failed.
pub proof fn lemma_states_tell_what_holds(cached: bool, refreshing: bool, failed: bool)
    ensures
        ({
            let state = cache_state(cached, refreshing, failed);
            &&& can_be_served(state) <==> cached
            &&& state == MetadataCacheState::Refreshing || state == MetadataCacheState::Warming
                <==> refreshing
            &&& state == MetadataCacheState::Stale || state == MetadataCacheState::Error
                <==> !refreshing && failed
            &&& state == MetadataCacheState::Ready <==> cached && !refreshing && !failed
            &&& state == MetadataCacheState::Missing <==> !cached && !refreshing && !failed
        }),
{
}

/// Different states are told by different words, and one that can be served by
/// `ready`, `refreshing` or `stale`.
pub proof fn lemma_states_have_words(state: MetadataCacheState, other: MetadataCacheState)
    ensures
        state.header_text() == other.header_text() ==> state == other,
        can_be_served(state) <==> state.header_text() == "ready"@ || state.header_text()
            == "refreshing"@ || state.header_text() == "stale"@,
{
    reveal_strlit("missing");
    reveal_strlit("warming");
    reveal_strlit("ready");
    reveal_strlit("refreshing");
    reveal_strlit("stale");
    reveal_strlit("error");
    assert("missing"@[0] == 'm' && "warming"@[0] == 'w' && "error"@[0] == 'e' && "stale"@[0]
        == 's');
    assert("ready"@.len() == 5 && "refreshing"@.len() == 10);
    assert("ready"@[0] == 'r' && "refreshing"@[0] == 'r');
}

/// The start of an error is kept, all of it up to its first 500 characters.
pub proof fn lemma_error_start_is_kept(error: Seq<char>)
    ensures
        text::begins_with(error, kept_error(error)),
        error.len() <= 500 ==> kept_error(error) == error,
        error.len() > 500 ==> kept_error(error).len() == 500,
{
    assert(error.take(error.len() as int) =~= error);
}

proof fn lemma_service_feed_is_listed(
    user: Seq<char>,
    services: Seq<ServiceConfig>,
    s: int,
    f: int,
)
    requires
        0 <= s < services.len(),
        0 <= f < services[s].feeds@.len(),
    ensures
        services_entries(user, services).contains(
            FeedEntry {
                identity: IdentityView {
                    user,
                    service: services[s].kind,
                    name: services[s].name@,
                    feed: services[s].feeds@[f],
                },
                service: services[s]@,
            },
        ),
    decreases services.len(),
{
    let before = services_entries(user, services.drop_last());
    let last = service_entries(user, services.last());
    let all = services_entries(user, services);
    if s == services.len() - 1 {
        assert(last[f] == entry_of(user, services[s], services[s].feeds@[f]));
        assert(all[before.len() + f] == last[f]);
    } else {
        lemma_service_feed_is_listed(user, services.drop_last(), s, f);
        let entry = entry_of(user, services[s], services[s].feeds@[f]);
        let k = choose|k: int| 0 <= k < before.len() && before[k] == entry;
        assert(all[k] == entry);
    }
}

/// Every feed that a service of a user lists is configured, under the user's
/// name and the service's name and kind.
pub proof fn lemma_every_feed_is_configured(users: Seq<UserConfig>, u: int, s: int, f: int)
    requires
        0 <= u < users.len(),
        0 <= s < users[u].services@.len(),
        0 <= f < users[u].services@[s].feeds@.len(),
    ensures
        configured(users).contains(
            FeedEntry {
                identity: IdentityView {
                    user: users[u].name@,
                    service: users[u].services@[s].kind,
                    name: users[u].services@[s].name@,
                    feed: users[u].services@[s].feeds@[f],
                },
                service: users[u].services@[s]@,
            },
        ),
    decreases users.len(),
{
    let entry = entry_of(
        users[u].name@,
        users[u].services@[s],
        users[u].services@[s].feeds@[f],
    );
    let before = configured(users.drop_last());
    let last = services_entries(users.last().name@, users.last().services@);
    let all = configured(users);
    if u == users.len() - 1 {
        lemma_service_feed_is_listed(users[u].name@, users[u].services@, s, f);
        let k = choose|k: int| 0 <= k < last.len() && last[k] == entry;
        assert(all[before.len() + k] == entry);
    } else {
        lemma_every_feed_is_configured(users.drop_last(), u, s, f);
        let k = choose|k: int| 0 <= k < before.len() && before[k] == entry;
        assert(all[k] == entry);
    }
}

proof fn lemma_listed_feed_is_of_a_service(user: Seq<char>, services: Seq<ServiceConfig>, i: int) -> (
    at: (int, int))
    requires
        0 <= i < services_entries(user, services).len(),
    ensures
        0 <= at.0 < services.len(),
        0 <= at.1 < services[at.0].feeds@.len(),
        services_entries(user, services)[i] == entry_of(
            user,
            services[at.0],
            services[at.0].feeds@[at.1],
        ),
    decreases services.len(),
{
    let before = services_entries(user, services.drop_last());
    if i < before.len() {
        let at = lemma_listed_feed_is_of_a_service(user, services.drop_last(), i);
        assert(services.drop_last()[at.0] == services[at.0]);
        at
    } else {
        let f = i - before.len();
        assert(services_entries(user, services)[i] == service_entries(user, services.last())[f]);
        (services.len() - 1, f)
    }
}

/// Every configured feed is one that a service of a user lists: nothing is
/// configured that no user has.
pub proof fn lemma_configured_feeds_are_listed(users: Seq<UserConfig>, i: int) -> (at: (
    int,
    int,
    int,
))
    requires
        0 <= i < configured(users).len(),
    ensures
        0 <= at.0 < users.len(),
        0 <= at.1 < users[at.0].services@.len(),
        0 <= at.2 < users[at.0].services@[at.1].feeds@.len(),
        configured(users)[i].identity.user == users[at.0].name@,
        configured(users)[i].identity.service == users[at.0].services@[at.1].kind,
        configured(users)[i].identity.name == users[at.0].services@[at.1].name@,
        configured(users)[i].identity.feed == users[at.0].services@[at.1].feeds@[at.2],
        configured(users)[i].service == users[at.0].services@[at.1]@,
    decreases users.len(),
{
    let before = configured(users.drop_last());
    if i < before.len() {
        let at = lemma_configured_feeds_are_listed(users.drop_last(), i);
        assert(users.drop_last()[at.0] == users[at.0]);
        at
    } else {
        let last = users.len() - 1;
        let k = i - before.len();
        let at = lemma_listed_feed_is_of_a_service(users[last].name@, users[last].services@, k);
        (last, at.0, at.1)
    }
}

proof fn lemma_service_feeds_are_counted(user: Seq<char>, services: Seq<ServiceConfig>)
    ensures
        services_entries(user, services).len() == crate::config::feeds_of_services(services),
    decreases services.len(),
{
    if services.len() > 0 {
        lemma_service_feeds_are_counted(user, services.drop_last());
    }
}

/// There are as many configured feeds as the services of all users list.
pub proof fn lemma_configured_feeds_are_counted(users: Seq<UserConfig>)
    ensures
        configured(users).len() == crate::config::feeds_of_users(users),
    decreases users.len(),
{
    if users.len() > 0 {
        lemma_configured_feeds_are_counted(users.drop_last());
        lemma_service_feeds_are_counted(users.last().name@, users.last().services@);
    }
}

/// What a refresh leaves behind: the items that were fetched, all of them in the
/// order in which they came, for the feed that was asked for, from its source, at
/// the time of the refresh.
pub proof fn lemma_refresh_keeps_what_was_fetched(
    identity: IdentityView,
    source_url: Seq<char>,
    items: Seq<ItemView>,
    now: TimeView,
)
    ensures
        fetched_view(identity, source_url, items, now).items == items,
        fetched_view(identity, source_url, items, now).identity == identity,
        fetched_view(identity, source_url, items, now).source_url == source_url,
        fetched_view(identity, source_url, items, now).last_successful_refresh == now,
        fetched_view(identity, source_url, items, now).schema_version == 1,
{
}

} // verus!
