//! The cache of feed metadata: one refresh at a time for each feed, manual
//! ones first, and the old metadata in service until new metadata is there.
use std::collections::VecDeque;

use vstd::prelude::*;

use crate::config;
use crate::config::Config;
use crate::config::ServiceConfig;
use crate::config::UserConfig;
use crate::identity;
use crate::identity::FeedIdentity;
use crate::identity::FeedTable;
use crate::identity::IdentityView;
use crate::media;
use crate::media::FeedItem;
use crate::metadata;
use crate::metadata::CacheStatusView;
use crate::metadata::CachedFeedMetadata;
use crate::metadata::CachedView;
use crate::metadata::FeedEntry;
use crate::metadata::FeedStatus;
use crate::metadata::FeedStatusView;
use crate::metadata::IndexJson;
use crate::metadata::IndexSummary;
use crate::metadata::JobView;
use crate::metadata::MetadataCacheState;
use crate::metadata::MetadataCacheStatus;
use crate::metadata::RefreshHandle;
use crate::metadata::RefreshJob;
use crate::metadata::RefreshOutcome;
use crate::metadata::RefreshPriority;
use crate::metadata::RuntimeStatus;
use crate::metadata::RuntimeView;
use crate::paths;
use crate::text;
use crate::timestamp;
use crate::timestamp::TimeView;
use crate::timestamp::Timestamp;

verus! {

/// The metadata that is in memory, and the refreshes that run or are to be
/// made.
pub struct MetadataCache {
    config: Config,
    memory: FeedTable<CachedFeedMetadata>,
    statuses: FeedTable<RuntimeStatus>,
    manual_queue: VecDeque<RefreshJob>,
    scheduled_queue: VecDeque<RefreshJob>,
    worker_started: bool,
}

/// The state of a cache.
#[verifier::ext_equal]
pub struct CacheView {
    pub memory: Map<IdentityView, CachedView>,
    pub statuses: Map<IdentityView, RuntimeView>,
    pub manual: Seq<JobView>,
    pub scheduled: Seq<JobView>,
    pub worker_started: bool,
}

/// What is cached for feeds.
pub open spec fn memory_view(memory: Map<IdentityView, CachedFeedMetadata>) -> Map<
    IdentityView,
    CachedView,
> {
    memory.map_values(|cached: CachedFeedMetadata| cached@)
}

/// What is known of the refreshes of feeds.
pub open spec fn statuses_view(statuses: Map<IdentityView, RuntimeStatus>) -> Map<
    IdentityView,
    RuntimeView,
> {
    statuses.map_values(|status: RuntimeStatus| status@)
}

impl View for MetadataCache {
    type V = CacheView;

    closed spec fn view(&self) -> CacheView {
        CacheView {
            memory: memory_view(self.memory@),
            statuses: statuses_view(self.statuses@),
            manual: metadata::jobs_view(self.manual_queue@),
            scheduled: metadata::jobs_view(self.scheduled_queue@),
            worker_started: self.worker_started,
        }
    }
}

/// What is known of the refreshes of a feed of which nothing is known.
pub open spec fn idle() -> RuntimeView {
    RuntimeView { refreshing: false, last_error: None, waiters: Seq::empty() }
}

/// What is known of the refreshes of a feed.
pub open spec fn runtime_of(state: CacheView, feed: IdentityView) -> RuntimeView {
    if state.statuses.contains_key(feed) {
        state.statuses[feed]
    } else {
        idle()
    }
}

/// What is told of the metadata of a feed.
pub open spec fn status_of(state: CacheView, feed: IdentityView) -> CacheStatusView {
    let runtime = runtime_of(state, feed);
    let cached = state.memory.contains_key(feed);
    CacheStatusView {
        state: metadata::cache_state(cached, runtime.refreshing, runtime.last_error is Some),
        last_successful_refresh: if cached {
            Some(state.memory[feed].last_successful_refresh)
        } else {
            None
        },
        refresh_in_progress: runtime.refreshing,
        last_error: runtime.last_error,
    }
}

/// What is told of a feed.
pub open spec fn feed_status(state: CacheView, entry: FeedEntry) -> FeedStatusView {
    let feed = entry.identity;
    FeedStatusView {
        user: feed.user,
        service: feed.service.path(),
        name: feed.name,
        feed: feed.feed.slug_text(),
        title: metadata::title_of(entry.service, feed.feed),
        source_url: feed.feed.source(entry.service),
        item_count: if state.memory.contains_key(feed) && state.memory[feed].items.len() > 0 {
            Some(state.memory[feed].items.len() as usize)
        } else {
            None
        },
        metadata_cache: status_of(state, feed),
    }
}

/// Whether a feed is listed for the user that the list is for.
pub open spec fn is_listed(feed: IdentityView, only_user: Option<Seq<char>>) -> bool {
    match only_user {
        Some(user) => feed.user == user,
        None => true,
    }
}

/// What is told of feeds, one by one.
pub open spec fn listed(
    state: CacheView,
    entries: Seq<FeedEntry>,
    only_user: Option<Seq<char>>,
) -> Seq<FeedStatusView>
    decreases entries.len(),
{
    if entries.len() == 0 {
        Seq::empty()
    } else if is_listed(entries.last().identity, only_user) {
        listed(state, entries.drop_last(), only_user).push(feed_status(state, entries.last()))
    } else {
        listed(state, entries.drop_last(), only_user)
    }
}

/// How many feeds can be served.
pub open spec fn served(feeds: Seq<FeedStatusView>) -> nat
    decreases feeds.len(),
{
    if feeds.len() == 0 {
        0
    } else {
        served(feeds.drop_last()) + if metadata::can_be_served(feeds.last().metadata_cache.state) {
            1nat
        } else {
            0nat
        }
    }
}

/// How many feeds are being refreshed.
pub open spec fn in_progress(feeds: Seq<FeedStatusView>) -> nat
    decreases feeds.len(),
{
    if feeds.len() == 0 {
        0
    } else {
        in_progress(feeds.drop_last()) + if feeds.last().metadata_cache.refresh_in_progress {
            1nat
        } else {
            0nat
        }
    }
}

/// How many feeds have no metadata.
pub open spec fn missing(state: CacheView, entries: Seq<FeedEntry>) -> nat
    decreases entries.len(),
{
    if entries.len() == 0 {
        0
    } else {
        missing(state, entries.drop_last()) + if state.memory.contains_key(
            entries.last().identity,
        ) {
            0nat
        } else {
            1nat
        }
    }
}

/// The state with metadata for a feed.
pub open spec fn remembered(state: CacheView, feed: IdentityView, cached: CachedView) -> CacheView {
    CacheView { memory: state.memory.insert(feed, cached), ..state }
}

/// The state when a feed's file was looked for: what was read of it is in memory,
/// unless the feed has metadata there, or the file is of another schema.
pub open spec fn recalled(
    state: CacheView,
    feed: IdentityView,
    read: Option<CachedView>,
) -> CacheView {
    match read {
        Some(file) => if !state.memory.contains_key(feed) && file.schema_version
            == metadata::SCHEMA_VERSION {
            remembered(state, feed, file)
        } else {
            state
        },
        None => state,
    }
}

/// What is in memory of a feed.
pub open spec fn memory_of(state: CacheView, feed: IdentityView) -> Option<CachedView> {
    if state.memory.contains_key(feed) {
        Some(state.memory[feed])
    } else {
        None
    }
}

/// Whether what was read from a file is taken over: it is there, and of the schema
/// that refreshes write.
pub open spec fn is_kept(read: Option<CachedView>) -> bool {
    read matches Some(file) && file.schema_version == metadata::SCHEMA_VERSION
}

/// What was read for the feed at a place; nothing where nothing was.
pub open spec fn read_at(reads: Seq<Option<CachedView>>, i: int) -> Option<CachedView> {
    if 0 <= i < reads.len() {
        reads[i]
    } else {
        None
    }
}

/// The first of what was read for a feed that is taken over, where `reads` are
/// what was read for `entries`, in their order.
pub open spec fn first_kept(
    entries: Seq<FeedEntry>,
    reads: Seq<Option<CachedView>>,
    feed: IdentityView,
) -> Option<CachedView>
    decreases entries.len(),
{
    if entries.len() == 0 {
        None
    } else {
        let before = first_kept(entries.drop_last(), reads, feed);
        let read = read_at(reads, entries.len() - 1);
        if before is Some {
            before
        } else if entries.last().identity == feed && is_kept(read) {
            read
        } else {
            None
        }
    }
}

/// The metadata of a feed: what is in memory, else what was read from its file.
pub open spec fn known_of(
    state: CacheView,
    entries: Seq<FeedEntry>,
    reads: Seq<Option<CachedView>>,
    feed: IdentityView,
) -> Option<CachedView> {
    if state.memory.contains_key(feed) {
        Some(state.memory[feed])
    } else {
        first_kept(entries, reads, feed)
    }
}

/// The state when the files of all feeds were looked for: each feed has in memory
/// what it had there, else what was read from its file.
pub open spec fn all_recalled(
    state: CacheView,
    entries: Seq<FeedEntry>,
    reads: Seq<Option<CachedView>>,
) -> CacheView {
    CacheView {
        memory: Map::new(
            |feed: IdentityView| known_of(state, entries, reads, feed) is Some,
            |feed: IdentityView| known_of(state, entries, reads, feed)->0,
        ),
        ..state
    }
}

/// What was read for feeds, one by one.
pub open spec fn reads_view(reads: Seq<Option<CachedFeedMetadata>>) -> Seq<Option<CachedView>> {
    reads.map_values(|read: Option<CachedFeedMetadata>| optional_cached(read))
}

/// What a feed with or without metadata is told as while a refresh of it runs.
pub open spec fn running_state(cached: bool) -> MetadataCacheState {
    if cached {
        MetadataCacheState::Refreshing
    } else {
        MetadataCacheState::Warming
    }
}

/// What a feed with or without metadata is told as when a refresh of it failed.
pub open spec fn failed_state(cached: bool) -> MetadataCacheState {
    if cached {
        MetadataCacheState::Stale
    } else {
        MetadataCacheState::Error
    }
}

/// Those who wait, with one more where there is one.
pub open spec fn with_waiter(waiters: Seq<u64>, waiter: Option<u64>) -> Seq<u64> {
    match waiter {
        Some(id) => waiters.push(id),
        None => waiters,
    }
}

/// The state after a refresh was asked for: where one runs already it is as
/// before, else the refresh is the last in its queue.
pub open spec fn enqueued(
    state: CacheView,
    job: JobView,
    priority: RefreshPriority,
    waiter: Option<u64>,
) -> CacheView {
    let runtime = runtime_of(state, job.identity);
    if runtime.refreshing {
        state
    } else {
        CacheView {
            statuses: state.statuses.insert(
                job.identity,
                RuntimeView {
                    refreshing: true,
                    last_error: runtime.last_error,
                    waiters: with_waiter(runtime.waiters, waiter),
                },
            ),
            manual: if priority == RefreshPriority::Manual {
                state.manual.push(job)
            } else {
                state.manual
            },
            scheduled: if priority == RefreshPriority::Manual {
                state.scheduled
            } else {
                state.scheduled.push(job)
            },
            ..state
        }
    }
}

/// The refresh of a feed.
pub open spec fn job_of(entry: FeedEntry) -> JobView {
    JobView {
        identity: entry.identity,
        source_url: entry.identity.feed.source(entry.service),
    }
}

/// The state after a scheduled refresh was asked for of each feed without
/// metadata.
pub open spec fn missing_enqueued(state: CacheView, entries: Seq<FeedEntry>) -> CacheView
    decreases entries.len(),
{
    if entries.len() == 0 {
        state
    } else {
        let before = missing_enqueued(state, entries.drop_last());
        if before.memory.contains_key(entries.last().identity) {
            before
        } else {
            enqueued(before, job_of(entries.last()), RefreshPriority::Scheduled, None)
        }
    }
}

/// Whether the metadata of a feed was refreshed less than `grace` seconds
/// before `now`.
pub open spec fn is_recent(state: CacheView, feed: IdentityView, now: TimeView, grace: int) -> bool {
    state.memory.contains_key(feed) && timestamp::elapsed(
        now,
        state.memory[feed].last_successful_refresh,
    ) < grace * 1_000_000_000
}

/// The state after a scheduled refresh was asked for of each feed that was not
/// refreshed recently.
pub open spec fn due_enqueued(
    state: CacheView,
    entries: Seq<FeedEntry>,
    now: TimeView,
    grace: int,
) -> CacheView
    decreases entries.len(),
{
    if entries.len() == 0 {
        state
    } else {
        let before = due_enqueued(state, entries.drop_last(), now, grace);
        if is_recent(before, entries.last().identity, now, grace) {
            before
        } else {
            enqueued(before, job_of(entries.last()), RefreshPriority::Scheduled, None)
        }
    }
}

/// The refresh that is made next: the first manual one, else the first
/// scheduled one.
pub open spec fn next_of(state: CacheView) -> Option<JobView> {
    if state.manual.len() > 0 {
        Some(state.manual[0])
    } else if state.scheduled.len() > 0 {
        Some(state.scheduled[0])
    } else {
        None
    }
}

/// The state without the refresh that is made next.
pub open spec fn dequeued(state: CacheView) -> CacheView {
    if state.manual.len() > 0 {
        CacheView { manual: state.manual.skip(1), ..state }
    } else if state.scheduled.len() > 0 {
        CacheView { scheduled: state.scheduled.skip(1), ..state }
    } else {
        state
    }
}

/// The state after a refresh: it no longer runs, nobody waits, and what became
/// of it is known. Metadata is replaced only by new metadata.
pub open spec fn finished(
    state: CacheView,
    feed: IdentityView,
    cached: Option<CachedView>,
    error: Option<Seq<char>>,
) -> CacheView {
    let kept = match cached {
        Some(fresh) => remembered(state, feed, fresh),
        None => state,
    };
    CacheView {
        statuses: kept.statuses.insert(
            feed,
            RuntimeView {
                refreshing: false,
                last_error: match error {
                    Some(message) => Some(metadata::kept_error(message)),
                    None => None,
                },
                waiters: Seq::empty(),
            },
        ),
        ..kept
    }
}

/// How a refresh of a feed has failed: with metadata from before, or with none.
pub open spec fn failure_of(state: CacheView, feed: IdentityView) -> RefreshOutcome {
    RefreshOutcome::Failed(failed_state(state.memory.contains_key(feed)))
}

impl MetadataCache {
    /// The users that feeds are configured for.
    pub closed spec fn users(self) -> Seq<UserConfig> {
        self.config.users@
    }

    /// The directory that all files are kept under.
    pub closed spec fn data_dir(self) -> Seq<char> {
        self.config.cache.data_dir@
    }

    /// For how many minutes refreshed metadata is left alone.
    pub closed spec fn grace_minutes(self) -> u64 {
        self.config.metadata.refresh_recent_grace_minutes
    }

    /// A cache with nothing in it.
    pub fn new(config: Config) -> (cache: MetadataCache)
        ensures
            cache@ == (CacheView {
                memory: Map::empty(),
                statuses: Map::empty(),
                manual: Seq::empty(),
                scheduled: Seq::empty(),
                worker_started: false,
            }),
            cache.users() == config.users@,
            cache.data_dir() == config.cache.data_dir@,
            cache.grace_minutes() == config.metadata.refresh_recent_grace_minutes,
    {
        let cache: MetadataCache = MetadataCache {
            config,
            memory: FeedTable::new(),
            statuses: FeedTable::new(),
            manual_queue: VecDeque::new(),
            scheduled_queue: VecDeque::new(),
            worker_started: false,
        };
        assert(cache@ =~= CacheView {
            memory: Map::empty(),
            statuses: Map::empty(),
            manual: Seq::empty(),
            scheduled: Seq::empty(),
            worker_started: false,
        });
        cache
    }

    /// The configured feeds, each with its service.
    pub fn configured_feeds(&self) -> (feeds: Vec<(FeedIdentity, ServiceConfig)>)
        ensures
            metadata::entries_view(feeds@) == metadata::configured(self.users()),
    {
        metadata::configured_feeds(&self.config.users)
    }

    /// The file that a feed's metadata is kept in.
    pub fn cache_path(&self, identity: &FeedIdentity) -> (path: String)
        ensures
            path@ == paths::joined(
                paths::joined(self.data_dir(), "feed-metadata"@),
                identity::file_stem(identity@) + ".json"@,
            ),
            paths::file_name_of(path@) == Some(identity::file_stem(identity@) + ".json"@),
    {
        let directory: String = self.config.feed_metadata_dir();
        identity::cache_path(directory.as_str(), identity)
    }

    /// The file that a feed's metadata is written into before it takes the place
    /// of the one in service.
    pub fn temp_cache_path(&self, identity: &FeedIdentity) -> (path: String)
        ensures
            path@ == paths::joined(
                paths::joined(self.data_dir(), "feed-metadata"@),
                identity::file_stem(identity@) + ".json.tmp"@,
            ),
            paths::file_name_of(path@) == Some(identity::file_stem(identity@) + ".json.tmp"@),
    {
        let directory: String = self.config.feed_metadata_dir();
        identity::temp_cache_path(directory.as_str(), identity)
    }

    /// The metadata of a feed that is in memory.
    pub fn cached(&self, identity: &FeedIdentity) -> (cached: Option<&CachedFeedMetadata>)
        ensures
            match cached {
                Some(kept) => self@.memory.contains_key(identity@) && self@.memory[identity@]
                    == kept@,
                None => !self@.memory.contains_key(identity@),
            },
    {
        self.memory.get(identity)
    }

    /// The metadata of a feed: what is in memory, else what was read from its
    /// file, which is in memory from then on. A file of another schema is
    /// ignored.
    pub fn get(&mut self, identity: &FeedIdentity, read: Option<CachedFeedMetadata>) -> (cached:
        Option<CachedFeedMetadata>)
        ensures
            final(self).users() == old(self).users(),
            final(self).data_dir() == old(self).data_dir(),
            final(self).grace_minutes() == old(self).grace_minutes(),
            final(self)@ == recalled(old(self)@, identity@, optional_cached(read)),
            optional_cached(cached) == memory_of(final(self)@, identity@),
    {
        match self.memory.get(identity) {
            Some(kept) => {
                return Some(kept.clone());
            },
            None => {},
        }
        match read {
            Some(file) => {
                if file.schema_version != metadata::SCHEMA_VERSION {
                    return None;
                }
                let copy: CachedFeedMetadata = file.clone();
                self.remember(identity.clone(), file);
                Some(copy)
            },
            None => None,
        }
    }

    fn remember(&mut self, identity: FeedIdentity, cached: CachedFeedMetadata)
        ensures
            final(self)@ == remembered(old(self)@, identity@, cached@),
            final(self).users() == old(self).users(),
            final(self).data_dir() == old(self).data_dir(),
            final(self).grace_minutes() == old(self).grace_minutes(),
    {
        let ghost before = self.memory@;
        self.memory.insert(identity, cached);
        assert(memory_view(self.memory@) =~= memory_view(before).insert(identity@, cached@));
    }

    /// Takes over what was read from the files of the configured feeds, in their
    /// order: for each feed that has nothing in memory what was read for it, where
    /// it is of the schema that refreshes write.
    pub fn recall_all(&mut self, reads: Vec<Option<CachedFeedMetadata>>)
        ensures
            final(self)@ == all_recalled(
                old(self)@,
                metadata::configured(old(self).users()),
                reads_view(reads@),
            ),
            final(self).users() == old(self).users(),
            final(self).data_dir() == old(self).data_dir(),
            final(self).grace_minutes() == old(self).grace_minutes(),
    {
        let entries: Vec<(FeedIdentity, ServiceConfig)> = self.configured_feeds();
        let ghost all = metadata::configured(self.users());
        let ghost start = *self;
        let mut i: usize = 0;
        assert(self@ =~= all_recalled(start@, all.take(0), reads_view(reads@)));
        while i < entries.len()
            invariant
                i <= entries@.len(),
                metadata::entries_view(entries@) == all,
                self@ == all_recalled(start@, all.take(i as int), reads_view(reads@)),
                self.users() == start.users(),
                self.data_dir() == start.data_dir(),
                self.grace_minutes() == start.grace_minutes(),
            decreases entries@.len() - i,
        {
            assert(all[i as int].identity == entries@[i as int].0@);
            let read: Option<CachedFeedMetadata> = if i < reads.len() {
                match &reads[i] {
                    Some(file) => Some(file.clone()),
                    None => None,
                }
            } else {
                None
            };
            assert(optional_cached(read) == read_at(reads_view(reads@), i as int));
            proof {
                lemma_recall_one_more(start@, all, reads_view(reads@), i as int);
            }
            self.get(&entries[i].0, read);
            i = i + 1;
        }
        assert(all.take(all.len() as int) == all);
    }

    /// Takes over items that were fetched, as if by a refresh.
    pub fn store_success_for_test(
        &mut self,
        identity: FeedIdentity,
        service: &ServiceConfig,
        items: Vec<FeedItem>,
        now: Timestamp,
    )
        ensures
            final(self)@ == remembered(
                old(self)@,
                identity@,
                metadata::fetched_view(
                    identity@,
                    identity@.feed.source(service@),
                    media::items_view(items@),
                    now@,
                ),
            ),
            final(self).users() == old(self).users(),
            final(self).data_dir() == old(self).data_dir(),
            final(self).grace_minutes() == old(self).grace_minutes(),
    {
        let source_url: String = identity.feed.source_url(service);
        let job: RefreshJob = RefreshJob { identity: identity.clone(), source_url };
        let cached: CachedFeedMetadata = job.refreshed(items, now);
        self.remember(identity, cached);
    }

    /// What is told of the metadata of a feed.
    pub fn status(&self, identity: &FeedIdentity) -> (status: MetadataCacheStatus)
        ensures
            status@ == status_of(self@, identity@),
    {
        let (refreshing, last_error): (bool, Option<String>) = match self.statuses.get(identity) {
            Some(runtime) => (runtime.refreshing, text::copy_optional(&runtime.last_error)),
            None => (false, None),
        };
        let last_successful_refresh: Option<Timestamp> = match self.memory.get(identity) {
            Some(cached) => Some(cached.last_successful_refresh),
            None => None,
        };
        let state: MetadataCacheState = match (
            last_successful_refresh.is_some(),
            refreshing,
            last_error.is_some(),
        ) {
            (false, true, _) => MetadataCacheState::Warming,
            (false, false, true) => MetadataCacheState::Error,
            (false, false, false) => MetadataCacheState::Missing,
            (true, true, _) => MetadataCacheState::Refreshing,
            (true, false, true) => MetadataCacheState::Stale,
            (true, false, false) => MetadataCacheState::Ready,
        };
        MetadataCacheStatus {
            state,
            last_successful_refresh,
            refresh_in_progress: refreshing,
            last_error,
        }
    }

    fn feed_status(&self, identity: &FeedIdentity, service: &ServiceConfig) -> (status: FeedStatus)
        ensures
            status@ == feed_status(
                self@,
                FeedEntry { identity: identity@, service: service@ },
            ),
    {
        let item_count: Option<usize> = match self.memory.get(identity) {
            Some(cached) => {
                if cached.items.len() > 0 {
                    Some(cached.items.len())
                } else {
                    None
                }
            },
            None => None,
        };
        FeedStatus {
            user: identity.user.clone(),
            service: identity.service.as_path().to_owned(),
            name: identity.name.clone(),
            feed: identity.feed.slug().to_owned(),
            title: metadata::feed_title(service, identity.feed),
            source_url: identity.feed.source_url(service),
            item_count,
            metadata_cache: self.status(identity),
        }
    }

    /// What is told of all configured feeds.
    pub fn index_json(&self, generated_at: Timestamp) -> (index: IndexJson)
        ensures
            index.generated_at == generated_at,
            metadata::feeds_view(index.feeds@) == listed(
                self@,
                metadata::configured(self.users()),
                None,
            ),
            is_summary(index.summary, metadata::feeds_view(index.feeds@)),
    {
        self.index_json_for_user(None, generated_at)
    }

    /// What is told of the feeds that are configured for one user, or for all.
    pub fn index_json_for_user(&self, only_user: Option<&str>, generated_at: Timestamp) -> (index:
        IndexJson)
        ensures
            index.generated_at == generated_at,
            metadata::feeds_view(index.feeds@) == listed(
                self@,
                metadata::configured(self.users()),
                optional_str(only_user),
            ),
            is_summary(index.summary, metadata::feeds_view(index.feeds@)),
    {
        let entries: Vec<(FeedIdentity, ServiceConfig)> = self.configured_feeds();
        let ghost all = metadata::configured(self.users());
        let mut feeds: Vec<FeedStatus> = Vec::new();
        let mut feeds_ready: usize = 0;
        let mut refreshes_in_progress: usize = 0;
        let mut i: usize = 0;
        assert(metadata::feeds_view(feeds@) =~= listed(
            self@,
            all.take(0),
            optional_str(only_user),
        ));
        while i < entries.len()
            invariant
                i <= entries@.len(),
                metadata::entries_view(entries@) == all,
                metadata::feeds_view(feeds@) == listed(
                    self@,
                    all.take(i as int),
                    optional_str(only_user),
                ),
                feeds@.len() <= i,
                feeds_ready <= feeds@.len(),
                refreshes_in_progress <= feeds@.len(),
                feeds_ready == served(metadata::feeds_view(feeds@)),
                refreshes_in_progress == in_progress(metadata::feeds_view(feeds@)),
            decreases entries@.len() - i,
        {
            assert(all.take(i + 1).drop_last() == all.take(i as int));
            assert(all[i as int] == FeedEntry {
                identity: entries@[i as int].0@,
                service: entries@[i as int].1@,
            });
            let wanted: bool = match only_user {
                Some(user) => text::same_text(entries[i].0.user.as_str(), user),
                None => true,
            };
            if wanted {
                let status: FeedStatus = self.feed_status(&entries[i].0, &entries[i].1);
                match status.metadata_cache.state {
                    MetadataCacheState::Ready => {
                        feeds_ready = feeds_ready + 1;
                    },
                    MetadataCacheState::Refreshing => {
                        feeds_ready = feeds_ready + 1;
                    },
                    MetadataCacheState::Stale => {
                        feeds_ready = feeds_ready + 1;
                    },
                    _ => {},
                }
                if status.metadata_cache.refresh_in_progress {
                    refreshes_in_progress = refreshes_in_progress + 1;
                }
                let ghost before = metadata::feeds_view(feeds@);
                feeds.push(status);
                assert(metadata::feeds_view(feeds@) =~= before.push(status@));
                assert(before.push(status@).drop_last() =~= before);
            }
            i = i + 1;
        }
        assert(all.take(all.len() as int) == all);
        let feeds_total: usize = feeds.len();
        IndexJson {
            generated_at,
            summary: IndexSummary {
                feeds_total,
                feeds_ready,
                feeds_missing: feeds_total - feeds_ready,
                refreshes_in_progress,
            },
            feeds,
        }
    }

    /// How many configured feeds have no metadata.
    pub fn ready_missing_count(&self) -> (count: usize)
        ensures
            count == missing(self@, metadata::configured(self.users())),
    {
        let entries: Vec<(FeedIdentity, ServiceConfig)> = self.configured_feeds();
        let ghost all = metadata::configured(self.users());
        let mut count: usize = 0;
        let mut i: usize = 0;
        while i < entries.len()
            invariant
                i <= entries@.len(),
                metadata::entries_view(entries@) == all,
                count <= i,
                count == missing(self@, all.take(i as int)),
            decreases entries@.len() - i,
        {
            assert(all.take(i + 1).drop_last() == all.take(i as int));
            assert(all[i as int].identity == entries@[i as int].0@);
            if self.cached(&entries[i].0).is_none() {
                count = count + 1;
            }
            i = i + 1;
        }
        assert(all.take(all.len() as int) == all);
        count
    }

    /// Asks for a refresh of a feed, with what was read from its file. Where one
    /// runs or is to be made already, nothing is queued, and the feed is told as
    /// refreshing, or as warming where it has metadata neither in memory nor in
    /// its file.
    pub fn enqueue_refresh(
        &mut self,
        identity: FeedIdentity,
        service: &ServiceConfig,
        priority: RefreshPriority,
        waiter: Option<u64>,
        read: Option<CachedFeedMetadata>,
    ) -> (handle: RefreshHandle)
        ensures
            final(self)@ == enqueued(
                recalled(old(self)@, identity@, optional_cached(read)),
                job_of(FeedEntry { identity: identity@, service: service@ }),
                priority,
                waiter,
            ),
            handle.running() == if runtime_of(old(self)@, identity@).refreshing {
                Some(
                    running_state(
                        old(self)@.memory.contains_key(identity@) || read is Some
                            && read->0.schema_version == metadata::SCHEMA_VERSION,
                    ),
                )
            } else {
                None
            },
            final(self).users() == old(self).users(),
            final(self).data_dir() == old(self).data_dir(),
            final(self).grace_minutes() == old(self).grace_minutes(),
    {
        let cached: Option<CachedFeedMetadata> = self.get(&identity, read);
        let (refreshing, last_error, mut waiters): (bool, Option<String>, Vec<u64>) =
            match self.statuses.get(&identity) {
            Some(runtime) => (
                runtime.refreshing,
                text::copy_optional(&runtime.last_error),
                copy_ids(&runtime.waiters),
            ),
            None => (false, None, Vec::new()),
        };
        if refreshing {
            return RefreshHandle::of_running(
                if cached.is_some() {
                    MetadataCacheState::Refreshing
                } else {
                    MetadataCacheState::Warming
                },
            );
        }
        match waiter {
            Some(id) => {
                waiters.push(id);
            },
            None => {},
        }
        let source_url: String = identity.feed.source_url(service);
        let job: RefreshJob = RefreshJob { identity: identity.clone(), source_url };
        let ghost before = *self;
        let status: RuntimeStatus = RuntimeStatus { refreshing: true, last_error, waiters };
        self.statuses.insert(identity, status);
        assert(statuses_view(self.statuses@) =~= statuses_view(before.statuses@).insert(
            identity@,
            status@,
        ));
        match priority {
            RefreshPriority::Manual => {
                self.manual_queue.push_back(job);
                assert(metadata::jobs_view(self.manual_queue@) =~= metadata::jobs_view(
                    before.manual_queue@,
                ).push(job@));
            },
            RefreshPriority::Scheduled => {
                self.scheduled_queue.push_back(job);
                assert(metadata::jobs_view(self.scheduled_queue@) =~= metadata::jobs_view(
                    before.scheduled_queue@,
                ).push(job@));
            },
        }
        RefreshHandle::of_queued()
    }

    /// Asks for a scheduled refresh of each feed without metadata.
    pub fn enqueue_missing(&mut self)
        ensures
            final(self)@ == missing_enqueued(
                old(self)@,
                metadata::configured(old(self).users()),
            ),
            final(self).users() == old(self).users(),
            final(self).data_dir() == old(self).data_dir(),
            final(self).grace_minutes() == old(self).grace_minutes(),
    {
        let entries: Vec<(FeedIdentity, ServiceConfig)> = self.configured_feeds();
        let ghost all = metadata::configured(self.users());
        let ghost start = *self;
        let mut i: usize = 0;
        while i < entries.len()
            invariant
                i <= entries@.len(),
                metadata::entries_view(entries@) == all,
                self@ == missing_enqueued(start@, all.take(i as int)),
                self.users() == start.users(),
                self.data_dir() == start.data_dir(),
                self.grace_minutes() == start.grace_minutes(),
            decreases entries@.len() - i,
        {
            assert(all.take(i + 1).drop_last() == all.take(i as int));
            assert(all[i as int] == FeedEntry {
                identity: entries@[i as int].0@,
                service: entries@[i as int].1@,
            });
            if self.cached(&entries[i].0).is_none() {
                self.enqueue_refresh(
                    entries[i].0.clone(),
                    &entries[i].1,
                    RefreshPriority::Scheduled,
                    None,
                    None,
                );
            }
            i = i + 1;
        }
        assert(all.take(all.len() as int) == all);
    }

    /// Asks for a scheduled refresh of each feed that was not refreshed
    /// recently.
    pub fn enqueue_due_scheduled(&mut self, now: Timestamp)
        requires
            -config::GRACE_MINUTES_LIMIT <= config::signed_minutes(old(self).grace_minutes())
                <= config::GRACE_MINUTES_LIMIT,
        ensures
            final(self)@ == due_enqueued(
                old(self)@,
                metadata::configured(old(self).users()),
                now@,
                config::signed_minutes(old(self).grace_minutes()) * 60,
            ),
            final(self).users() == old(self).users(),
            final(self).data_dir() == old(self).data_dir(),
            final(self).grace_minutes() == old(self).grace_minutes(),
    {
        let grace: i64 = self.config.metadata.refresh_recent_grace();
        let entries: Vec<(FeedIdentity, ServiceConfig)> = self.configured_feeds();
        let ghost all = metadata::configured(self.users());
        let ghost start = *self;
        let mut i: usize = 0;
        while i < entries.len()
            invariant
                i <= entries@.len(),
                metadata::entries_view(entries@) == all,
                self@ == due_enqueued(start@, all.take(i as int), now@, grace as int),
                self.users() == start.users(),
                self.data_dir() == start.data_dir(),
                self.grace_minutes() == start.grace_minutes(),
            decreases entries@.len() - i,
        {
            assert(all.take(i + 1).drop_last() == all.take(i as int));
            assert(all[i as int] == FeedEntry {
                identity: entries@[i as int].0@,
                service: entries@[i as int].1@,
            });
            let recent: bool = match self.cached(&entries[i].0) {
                Some(cached) => now.is_within(grace, &cached.last_successful_refresh),
                None => false,
            };
            if !recent {
                self.enqueue_refresh(
                    entries[i].0.clone(),
                    &entries[i].1,
                    RefreshPriority::Scheduled,
                    None,
                    None,
                );
            }
            i = i + 1;
        }
        assert(all.take(all.len() as int) == all);
    }

    /// Claims the work of making refreshes: only the first claim is granted.
    pub fn claim_worker(&mut self) -> (granted: bool)
        ensures
            granted == !old(self)@.worker_started,
            final(self)@ == (CacheView { worker_started: true, ..old(self)@ }),
            final(self).users() == old(self).users(),
            final(self).data_dir() == old(self).data_dir(),
            final(self).grace_minutes() == old(self).grace_minutes(),
    {
        let granted: bool = !self.worker_started;
        self.worker_started = true;
        granted
    }

    /// How many refreshes are to be made.
    pub fn queue_size(&self) -> (size: usize)
        requires
            self@.manual.len() + self@.scheduled.len() <= usize::MAX,
        ensures
            size == self@.manual.len() + self@.scheduled.len(),
    {
        self.manual_queue.len() + self.scheduled_queue.len()
    }

    /// Takes the refresh that is made next: manual ones go first.
    pub fn next_job(&mut self) -> (job: Option<RefreshJob>)
        ensures
            match job {
                Some(next) => next_of(old(self)@) == Some(next@),
                None => next_of(old(self)@) is None,
            },
            final(self)@ == dequeued(old(self)@),
            final(self).users() == old(self).users(),
            final(self).data_dir() == old(self).data_dir(),
            final(self).grace_minutes() == old(self).grace_minutes(),
    {
        let ghost before = *self;
        match self.manual_queue.pop_front() {
            Some(job) => {
                assert(metadata::jobs_view(self.manual_queue@) =~= metadata::jobs_view(
                    before.manual_queue@,
                ).skip(1));
                return Some(job);
            },
            None => {},
        }
        match self.scheduled_queue.pop_front() {
            Some(job) => {
                assert(metadata::jobs_view(self.scheduled_queue@) =~= metadata::jobs_view(
                    before.scheduled_queue@,
                ).skip(1));
                Some(job)
            },
            None => None,
        }
    }

    /// Ends a refresh. Returns those who wait for it.
    pub fn finish_refresh(
        &mut self,
        identity: &FeedIdentity,
        cached: Option<CachedFeedMetadata>,
        error: Option<String>,
    ) -> (waiters: Vec<u64>)
        ensures
            final(self)@ == finished(
                old(self)@,
                identity@,
                optional_cached(cached),
                text::optional(error),
            ),
            waiters@ == runtime_of(old(self)@, identity@).waiters,
            final(self).users() == old(self).users(),
            final(self).data_dir() == old(self).data_dir(),
            final(self).grace_minutes() == old(self).grace_minutes(),
    {
        let waiters: Vec<u64> = match self.statuses.get(identity) {
            Some(runtime) => copy_ids(&runtime.waiters),
            None => Vec::new(),
        };
        match cached {
            Some(fresh) => {
                self.remember(identity.clone(), fresh);
            },
            None => {},
        }
        let last_error: Option<String> = match error {
            Some(message) => Some(metadata::truncate_error(message.as_str())),
            None => None,
        };
        let ghost before = self.statuses@;
        let status: RuntimeStatus = RuntimeStatus {
            refreshing: false,
            last_error,
            waiters: Vec::new(),
        };
        assert(status.waiters@ =~= Seq::<u64>::empty());
        self.statuses.insert(identity.clone(), status);
        assert(statuses_view(self.statuses@) =~= statuses_view(before).insert(identity@, status@));
        waiters
    }

    /// Ends a refresh whose metadata was fetched and written, or that failed on
    /// the way. Returns how it ended, and those who wait for it.
    pub fn complete_refresh(
        &mut self,
        identity: &FeedIdentity,
        result: Result<CachedFeedMetadata, String>,
    ) -> (ended: (RefreshOutcome, Vec<u64>))
        ensures
            match result {
                Ok(cached) => {
                    &&& ended.0 == RefreshOutcome::Refreshed
                    &&& final(self)@ == finished(old(self)@, identity@, Some(cached@), None)
                },
                Err(message) => {
                    &&& ended.0 == failure_of(old(self)@, identity@)
                    &&& final(self)@ == finished(old(self)@, identity@, None, Some(message@))
                },
            },
            ended.1@ == runtime_of(old(self)@, identity@).waiters,
            final(self).users() == old(self).users(),
            final(self).data_dir() == old(self).data_dir(),
            final(self).grace_minutes() == old(self).grace_minutes(),
    {
        match result {
            Ok(cached) => {
                let waiters: Vec<u64> = self.finish_refresh(identity, Some(cached), None);
                (RefreshOutcome::Refreshed, waiters)
            },
            Err(message) => {
                let state: MetadataCacheState = if self.memory.get(identity).is_some() {
                    MetadataCacheState::Stale
                } else {
                    MetadataCacheState::Error
                };
                let waiters: Vec<u64> = self.finish_refresh(identity, None, Some(message));
                (RefreshOutcome::Failed(state), waiters)
            },
        }
    }
}

/// What the worker does with a refresh when its items were fetched.
#[derive(Debug)]
pub enum WorkerAction {
    /// Write metadata to the feed's file.
    Write { cached: CachedFeedMetadata },
    /// Tell those who wait how the refresh ended.
    Tell { outcome: RefreshOutcome, waiters: Vec<u64> },
}

impl MetadataCache {
    /// Decides on a refresh when its items were fetched, or could not be: items
    /// are written first, and nothing is replaced until they are. Where they could
    /// not, what was read from the feed's file counts.
    pub fn on_fetched(
        &mut self,
        job: &RefreshJob,
        fetched: Result<Vec<FeedItem>, String>,
        now: Timestamp,
        read: Option<CachedFeedMetadata>,
    ) -> (action: WorkerAction)
        ensures
            match fetched {
                Ok(items) => {
                    &&& action matches WorkerAction::Write { cached }
                    &&& cached@ == metadata::fetched_view(
                        job@.identity,
                        job@.source_url,
                        media::items_view(items@),
                        now@,
                    )
                    &&& final(self)@ == old(self)@
                },
                Err(message) => {
                    &&& action matches WorkerAction::Tell { outcome, waiters }
                    &&& outcome == failure_of(
                        recalled(old(self)@, job@.identity, optional_cached(read)),
                        job@.identity,
                    )
                    &&& waiters@ == runtime_of(old(self)@, job@.identity).waiters
                    &&& final(self)@ == finished(
                        recalled(old(self)@, job@.identity, optional_cached(read)),
                        job@.identity,
                        None,
                        Some(message@),
                    )
                },
            },
            final(self).users() == old(self).users(),
            final(self).data_dir() == old(self).data_dir(),
            final(self).grace_minutes() == old(self).grace_minutes(),
    {
        match fetched {
            Ok(items) => WorkerAction::Write { cached: job.refreshed(items, now) },
            Err(message) => {
                self.get(&job.identity, read);
                let (outcome, waiters): (RefreshOutcome, Vec<u64>) = self.complete_refresh(
                    &job.identity,
                    Err(message),
                );
                WorkerAction::Tell { outcome, waiters }
            },
        }
    }

    /// Decides on a refresh when its metadata was written, or could not be: only
    /// written metadata is put in service. Where it could not, what was read from
    /// the feed's file counts.
    pub fn on_written(
        &mut self,
        job: &RefreshJob,
        cached: CachedFeedMetadata,
        written: Result<(), String>,
        read: Option<CachedFeedMetadata>,
    ) -> (ended: (RefreshOutcome, Vec<u64>))
        ensures
            match written {
                Ok(_) => {
                    &&& ended.0 == RefreshOutcome::Refreshed
                    &&& final(self)@ == finished(
                        old(self)@,
                        job@.identity,
                        Some(cached@),
                        None,
                    )
                },
                Err(message) => {
                    &&& ended.0 == failure_of(
                        recalled(old(self)@, job@.identity, optional_cached(read)),
                        job@.identity,
                    )
                    &&& final(self)@ == finished(
                        recalled(old(self)@, job@.identity, optional_cached(read)),
                        job@.identity,
                        None,
                        Some(message@),
                    )
                },
            },
            ended.1@ == runtime_of(old(self)@, job@.identity).waiters,
            final(self).users() == old(self).users(),
            final(self).data_dir() == old(self).data_dir(),
            final(self).grace_minutes() == old(self).grace_minutes(),
    {
        match written {
            Ok(_) => self.complete_refresh(&job.identity, Ok(cached)),
            Err(message) => {
                self.get(&job.identity, read);
                self.complete_refresh(&job.identity, Err(message))
            },
        }
    }
}

/// What optional metadata is.
pub open spec fn optional_cached(cached: Option<CachedFeedMetadata>) -> Option<CachedView> {
    match cached {
        Some(kept) => Some(kept@),
        None => None,
    }
}

proof fn lemma_recall_one_more(
    state: CacheView,
    entries: Seq<FeedEntry>,
    reads: Seq<Option<CachedView>>,
    i: int,
)
    requires
        0 <= i < entries.len(),
    ensures
        all_recalled(state, entries.take(i + 1), reads) == recalled(
            all_recalled(state, entries.take(i), reads),
            entries[i].identity,
            read_at(reads, i),
        ),
{
    let before = all_recalled(state, entries.take(i), reads);
    let after = recalled(before, entries[i].identity, read_at(reads, i));
    assert(entries.take(i + 1).drop_last() == entries.take(i));
    assert(all_recalled(state, entries.take(i + 1), reads).memory =~= after.memory);
}

/// What an optional text holds.
pub open spec fn optional_str(value: Option<&str>) -> Option<Seq<char>> {
    match value {
        Some(text) => Some(text@),
        None => None,
    }
}

/// Whether a summary is that of feeds.
pub open spec fn is_summary(summary: IndexSummary, feeds: Seq<FeedStatusView>) -> bool {
    &&& summary.feeds_total == feeds.len()
    &&& summary.feeds_ready == served(feeds)
    &&& summary.feeds_ready + summary.feeds_missing == summary.feeds_total
    &&& summary.refreshes_in_progress == in_progress(feeds)
}

fn copy_ids(ids: &Vec<u64>) -> (copy: Vec<u64>)
    ensures
        copy@ == ids@,
{
    let copy: Vec<u64> = ids.clone();
    assert(copy@ =~= ids@);
    copy
}

/// The refreshes that are to be made, in no order between manual and scheduled
/// ones.
pub open spec fn queued(state: CacheView) -> Seq<JobView> {
    state.manual + state.scheduled
}

/// Whether a refresh of a feed is to be made.
pub open spec fn is_queued(state: CacheView, feed: IdentityView) -> bool {
    exists|i: int| 0 <= i < queued(state).len() && (#[trigger] queued(state)[i]).identity == feed
}

/// Whether each refresh that is to be made is marked as running, and no feed
/// is to be refreshed twice.
pub open spec fn is_orderly(state: CacheView) -> bool {
    &&& forall|i: int|
        0 <= i < queued(state).len() ==> runtime_of(
            state,
            (#[trigger] queued(state)[i]).identity,
        ).refreshing
    &&& forall|i: int, j: int|
        0 <= i < j < queued(state).len() ==> (#[trigger] queued(state)[i]).identity != (
        #[trigger] queued(state)[j]).identity
}

/// To ask for refreshes, however often, never queues a feed twice.
pub proof fn lemma_enqueue_keeps_order(
    state: CacheView,
    job: JobView,
    priority: RefreshPriority,
    waiter: Option<u64>,
)
    requires
        is_orderly(state),
    ensures
        is_orderly(enqueued(state, job, priority, waiter)),
        runtime_of(enqueued(state, job, priority, waiter), job.identity).refreshing,
{
    let after = enqueued(state, job, priority, waiter);
    if !runtime_of(state, job.identity).refreshing {
        let before = queued(state);
        let more = queued(after);
        let at = if priority == RefreshPriority::Manual {
            state.manual.len() as int
        } else {
            before.len() as int
        };
        assert(more =~= before.insert(at, job));
        assert forall|i: int| 0 <= i < more.len() implies runtime_of(
            after,
            (#[trigger] more[i]).identity,
        ).refreshing by {
            if i != at {
                let from = if i < at {
                    i
                } else {
                    i - 1
                };
                assert(more[i] == before[from]);
                assert(runtime_of(state, before[from].identity).refreshing);
            }
        }
        assert forall|i: int, j: int| 0 <= i < j < more.len() implies (#[trigger] more[i]).identity
            != (#[trigger] more[j]).identity by {
            let from_i = if i < at {
                i
            } else {
                i - 1
            };
            let from_j = if j < at {
                j
            } else {
                j - 1
            };
            if i != at {
                assert(more[i] == before[from_i]);
                assert(runtime_of(state, before[from_i].identity).refreshing);
            }
            if j != at {
                assert(more[j] == before[from_j]);
                assert(runtime_of(state, before[from_j].identity).refreshing);
            }
        }
    }
}

/// The refresh that is taken next is not to be made a second time, and its feed
/// stays marked until it ends.
pub proof fn lemma_dequeue_keeps_order(state: CacheView)
    requires
        is_orderly(state),
        next_of(state) is Some,
    ensures
        is_orderly(dequeued(state)),
        !is_queued(dequeued(state), next_of(state)->0.identity),
        runtime_of(dequeued(state), next_of(state)->0.identity).refreshing,
{
    let before = queued(state);
    let after = dequeued(state);
    let less = queued(after);
    let next = next_of(state)->0;
    assert(before[0] == next);
    assert(less =~= before.skip(1));
    assert forall|i: int| 0 <= i < less.len() implies runtime_of(
        after,
        (#[trigger] less[i]).identity,
    ).refreshing && less[i].identity != next.identity by {
        assert(less[i] == before[i + 1]);
        assert(runtime_of(state, before[i + 1].identity).refreshing);
        assert(before[0].identity != before[i + 1].identity);
    }
    assert forall|i: int, j: int| 0 <= i < j < less.len() implies (#[trigger] less[i]).identity != (
    #[trigger] less[j]).identity by {
        assert(before[i + 1].identity != before[j + 1].identity);
    }
}

/// To end the refresh of a feed that is not to be refreshed again leaves the
/// queues in order.
pub proof fn lemma_finish_keeps_order(
    state: CacheView,
    feed: IdentityView,
    cached: Option<CachedView>,
    error: Option<Seq<char>>,
)
    requires
        is_orderly(state),
        !is_queued(state, feed),
    ensures
        is_orderly(finished(state, feed, cached, error)),
        !runtime_of(finished(state, feed, cached, error), feed).refreshing,
{
    let after = finished(state, feed, cached, error);
    assert(queued(after) =~= queued(state));
    assert forall|i: int| 0 <= i < queued(after).len() implies runtime_of(
        after,
        (#[trigger] queued(after)[i]).identity,
    ).refreshing by {
        assert(queued(state)[i].identity != feed);
        assert(runtime_of(state, queued(state)[i].identity).refreshing);
    }
    assert forall|i: int, j: int| 0 <= i < j < queued(after).len() implies (
    #[trigger] queued(after)[i]).identity != (#[trigger] queued(after)[j]).identity by {
        assert(queued(state)[i].identity != queued(state)[j].identity);
    }
}

/// A refresh that fails leaves all metadata in service, and is told of as stale
/// metadata, or as an error where there is none.
pub proof fn lemma_failed_refresh_keeps_metadata(
    state: CacheView,
    feed: IdentityView,
    error: Seq<char>,
)
    ensures
        finished(state, feed, None, Some(error)).memory == state.memory,
        RefreshOutcome::Failed(
            status_of(finished(state, feed, None, Some(error)), feed).state,
        ) == failure_of(state, feed),
{
}

/// A refresh that succeeds puts its metadata in service for its feed, and for no
/// other one.
pub proof fn lemma_successful_refresh_is_ready(
    state: CacheView,
    feed: IdentityView,
    cached: CachedView,
    other: IdentityView,
)
    ensures
        finished(state, feed, Some(cached), None).memory[feed] == cached,
        status_of(finished(state, feed, Some(cached), None), feed).state
            == MetadataCacheState::Ready,
        other != feed ==> status_of(finished(state, feed, Some(cached), None), other) == status_of(
            state,
            other,
        ),
{
}

/// A feed for which a refresh was asked is told of as refreshing, or as warming
/// where it has no metadata.
pub proof fn lemma_enqueued_refresh_is_told(
    state: CacheView,
    job: JobView,
    priority: RefreshPriority,
    waiter: Option<u64>,
)
    ensures
        status_of(enqueued(state, job, priority, waiter), job.identity).state
            == if state.memory.contains_key(job.identity) {
            MetadataCacheState::Refreshing
        } else {
            MetadataCacheState::Warming
        },
        enqueued(state, job, priority, waiter).memory == state.memory,
{
}

/// A feed whose refresh runs is not queued a second time, whatever the priority
/// and whatever its file holds.
pub proof fn lemma_running_refresh_is_joined(
    state: CacheView,
    job: JobView,
    priority: RefreshPriority,
    waiter: Option<u64>,
    read: Option<CachedView>,
)
    requires
        runtime_of(state, job.identity).refreshing,
    ensures
        enqueued(recalled(state, job.identity, read), job, priority, waiter) == recalled(
            state,
            job.identity,
            read,
        ),
        queued(recalled(state, job.identity, read)) == queued(state),
        status_of(recalled(state, job.identity, read), job.identity).state == running_state(
            recalled(state, job.identity, read).memory.contains_key(job.identity),
        ),
{
}

/// What was read from a feed's file is in service as it was read, with its items
/// in their order, where it is of the schema that refreshes write. A file of
/// another schema, and no file, leave everything as it is.
pub proof fn lemma_read_metadata_is_kept(
    state: CacheView,
    feed: IdentityView,
    file: CachedView,
)
    requires
        !state.memory.contains_key(feed),
    ensures
        file.schema_version == metadata::SCHEMA_VERSION ==> memory_of(
            recalled(state, feed, Some(file)),
            feed,
        ) == Some(file),
        file.schema_version != metadata::SCHEMA_VERSION ==> recalled(state, feed, Some(file))
            == state,
        recalled(state, feed, None) == state,
        forall|source_url: Seq<char>, items: Seq<media::ItemView>, now: TimeView| #[trigger]
            metadata::fetched_view(feed, source_url, items, now).schema_version
                == metadata::SCHEMA_VERSION,
{
}

/// A manual refresh is made before every scheduled one, whenever that was asked
/// for.
pub proof fn lemma_manual_refresh_goes_first(state: CacheView, job: JobView, waiter: Option<u64>)
    requires
        !runtime_of(state, job.identity).refreshing,
        state.manual.len() == 0,
    ensures
        next_of(enqueued(state, job, RefreshPriority::Manual, waiter)) == Some(job),
{
}

/// No feed is missing if and only if every configured feed has metadata.
pub proof fn lemma_none_missing(state: CacheView, entries: Seq<FeedEntry>)
    ensures
        missing(state, entries) == 0 <==> forall|i: int|
            0 <= i < entries.len() ==> state.memory.contains_key(
                (#[trigger] entries[i]).identity,
            ),
    decreases entries.len(),
{
    if entries.len() > 0 {
        let shorter = entries.drop_last();
        lemma_none_missing(state, shorter);
        if missing(state, entries) == 0 {
            assert forall|i: int| 0 <= i < entries.len() implies state.memory.contains_key(
                (#[trigger] entries[i]).identity,
            ) by {
                if i < shorter.len() {
                    assert(state.memory.contains_key(shorter[i].identity));
                }
            }
        } else if forall|i: int|
            0 <= i < entries.len() ==> state.memory.contains_key((#[trigger] entries[i]).identity) {
            assert(state.memory.contains_key(entries[entries.len() - 1].identity));
            assert forall|i: int| 0 <= i < shorter.len() implies state.memory.contains_key(
                (#[trigger] shorter[i]).identity,
            ) by {
                assert(state.memory.contains_key(entries[i].identity));
            }
        }
    }
}

proof fn lemma_missing_are_counted(state: CacheView, entries: Seq<FeedEntry>)
    ensures
        missing(state, entries) == entries.filter(
            |entry: FeedEntry| !state.memory.contains_key(entry.identity),
        ).len(),
    decreases entries.len(),
{
    reveal(Seq::filter);
    if entries.len() > 0 {
        lemma_missing_are_counted(state, entries.drop_last());
    }
}

/// The feeds that are missing when the files of all feeds were looked for are
/// those with metadata neither in memory nor in their file.
pub proof fn lemma_missing_are_in_no_file(
    state: CacheView,
    entries: Seq<FeedEntry>,
    reads: Seq<Option<CachedView>>,
)
    ensures
        missing(all_recalled(state, entries, reads), entries) == entries.filter(
            |entry: FeedEntry| known_of(state, entries, reads, entry.identity) is None,
        ).len(),
{
    let after = all_recalled(state, entries, reads);
    lemma_missing_are_counted(after, entries);
    let absent = |entry: FeedEntry| !after.memory.contains_key(entry.identity);
    let unknown = |entry: FeedEntry| known_of(state, entries, reads, entry.identity) is None;
    assert(absent =~= unknown);
}

/// What is known of a feed is what is in memory when the files of all feeds were
/// looked for: what was in memory before stays, and of a feed without it some file
/// that is taken over is there if and only if the feed has metadata then.
pub proof fn lemma_files_are_recalled(
    state: CacheView,
    entries: Seq<FeedEntry>,
    reads: Seq<Option<CachedView>>,
    feed: IdentityView,
)
    ensures
        memory_of(all_recalled(state, entries, reads), feed) == known_of(
            state,
            entries,
            reads,
            feed,
        ),
        state.memory.contains_key(feed) ==> known_of(state, entries, reads, feed) == Some(
            state.memory[feed],
        ),
        !state.memory.contains_key(feed) ==> (known_of(state, entries, reads, feed) is Some
            <==> exists|i: int|
            0 <= i < entries.len() && (#[trigger] entries[i]).identity == feed && is_kept(
                read_at(reads, i),
            )),
{
    lemma_first_kept_is_found(entries, reads, feed);
}

proof fn lemma_first_kept_is_found(
    entries: Seq<FeedEntry>,
    reads: Seq<Option<CachedView>>,
    feed: IdentityView,
)
    ensures
        first_kept(entries, reads, feed) is Some <==> exists|i: int|
            0 <= i < entries.len() && (#[trigger] entries[i]).identity == feed && is_kept(
                read_at(reads, i),
            ),
    decreases entries.len(),
{
    if entries.len() > 0 {
        let shorter = entries.drop_last();
        lemma_first_kept_is_found(shorter, reads, feed);
        if first_kept(shorter, reads, feed) is Some {
            let i = choose|i: int|
                0 <= i < shorter.len() && (#[trigger] shorter[i]).identity == feed && is_kept(
                    read_at(reads, i),
                );
            assert(entries[i] == shorter[i]);
        }
        if exists|i: int|
            0 <= i < entries.len() && (#[trigger] entries[i]).identity == feed && is_kept(
                read_at(reads, i),
            ) {
            let i = choose|i: int|
                0 <= i < entries.len() && (#[trigger] entries[i]).identity == feed && is_kept(
                    read_at(reads, i),
                );
            if i < shorter.len() {
                assert(shorter[i] == entries[i]);
            }
        }
        assert(entries[entries.len() - 1] == entries.last());
    }
}

/// To warm the feeds that are missing asks for a refresh of each configured feed
/// without metadata, and leaves the others as they are.
pub proof fn lemma_missing_feeds_are_warmed(state: CacheView, entries: Seq<FeedEntry>, i: int)
    requires
        0 <= i < entries.len(),
    ensures
        missing_enqueued(state, entries).memory == state.memory,
        missing_enqueued(state, entries).manual == state.manual,
        state.memory.contains_key(entries[i].identity) ==> runtime_of(
            missing_enqueued(state, entries),
            entries[i].identity,
        ) == runtime_of(state, entries[i].identity),
        !state.memory.contains_key(entries[i].identity) ==> runtime_of(
            missing_enqueued(state, entries),
            entries[i].identity,
        ).refreshing,
{
    lemma_warming_spares_others(state, entries, entries[i].identity);
    assert(exists|j: int|
        0 <= j < entries.len() && (#[trigger] entries[j]).identity == entries[i].identity);
}

proof fn lemma_warming_spares_others(state: CacheView, entries: Seq<FeedEntry>, feed: IdentityView)
    ensures
        missing_enqueued(state, entries).memory == state.memory,
        missing_enqueued(state, entries).manual == state.manual,
        state.memory.contains_key(feed) ==> runtime_of(missing_enqueued(state, entries), feed)
            == runtime_of(state, feed),
        !state.memory.contains_key(feed) && (exists|j: int|
            0 <= j < entries.len() && (#[trigger] entries[j]).identity == feed) ==> runtime_of(
            missing_enqueued(state, entries),
            feed,
        ).refreshing,
    decreases entries.len(),
{
    if entries.len() > 0 {
        let shorter = entries.drop_last();
        lemma_warming_spares_others(state, shorter, feed);
        if exists|j: int| 0 <= j < entries.len() && (#[trigger] entries[j]).identity == feed {
            let j = choose|j: int|
                0 <= j < entries.len() && (#[trigger] entries[j]).identity == feed;
            if j < shorter.len() {
                assert(shorter[j] == entries[j]);
            }
        }
    }
}

/// The feeds that the index tells of as ready are those that have metadata.
pub proof fn lemma_index_agrees_with_readiness(state: CacheView, entries: Seq<FeedEntry>)
    ensures
        listed(state, entries, None).len() == entries.len(),
        served(listed(state, entries, None)) + missing(state, entries) == entries.len(),
    decreases entries.len(),
{
    if entries.len() > 0 {
        lemma_index_agrees_with_readiness(state, entries.drop_last());
        let before = listed(state, entries.drop_last(), None);
        let all = listed(state, entries, None);
        assert(all.drop_last() =~= before);
    }
}

/// The index for a user tells of no feed of another user.
pub proof fn lemma_index_shows_own_feeds_only(
    state: CacheView,
    entries: Seq<FeedEntry>,
    user: Seq<char>,
)
    ensures
        forall|i: int|
            0 <= i < listed(state, entries, Some(user)).len() ==> (#[trigger] listed(
                state,
                entries,
                Some(user),
            )[i]).user == user,
    decreases entries.len(),
{
    if entries.len() > 0 {
        lemma_index_shows_own_feeds_only(state, entries.drop_last(), user);
    }
}

/// The index tells of every configured feed, in the configured order: by whom and
/// what it is, its title and source, how many items it has where it has some, when
/// it was last refreshed where it was, whether a refresh runs, and what last went
/// wrong.
pub proof fn lemma_index_tells_of_each_feed(state: CacheView, entries: Seq<FeedEntry>, i: int)
    requires
        0 <= i < entries.len(),
    ensures
        listed(state, entries, None).len() == entries.len(),
        ({
            let told = listed(state, entries, None)[i];
            let feed = entries[i].identity;
            let runs = state.statuses.contains_key(feed) && state.statuses[feed].refreshing;
            &&& told.user == feed.user
            &&& told.service == "soundcloud"@
            &&& told.name == feed.name
            &&& told.feed == feed.feed.slug_text()
            &&& told.title == metadata::title_of(entries[i].service, feed.feed)
            &&& told.source_url == feed.feed.source(entries[i].service)
            &&& state.memory.contains_key(feed) && 0 < state.memory[feed].items.len()
                <= usize::MAX ==> told.item_count is Some && told.item_count->0
                == state.memory[feed].items.len()
            &&& !state.memory.contains_key(feed) ==> told.item_count is None
                && told.metadata_cache.last_successful_refresh is None
            &&& state.memory.contains_key(feed) ==> told.metadata_cache.last_successful_refresh
                == Some(state.memory[feed].last_successful_refresh)
            &&& told.metadata_cache.refresh_in_progress == runs
            &&& metadata::can_be_served(told.metadata_cache.state)
                <==> state.memory.contains_key(feed)
            &&& told.metadata_cache.state == MetadataCacheState::Refreshing
                || told.metadata_cache.state == MetadataCacheState::Warming <==> runs
            &&& !state.statuses.contains_key(feed) ==> told.metadata_cache.last_error is None
            &&& state.statuses.contains_key(feed) ==> told.metadata_cache.last_error
                == state.statuses[feed].last_error
        }),
    decreases entries.len(),
{
    lemma_index_agrees_with_readiness(state, entries);
    lemma_index_agrees_with_readiness(state, entries.drop_last());
    if i < entries.len() - 1 {
        lemma_index_tells_of_each_feed(state, entries.drop_last(), i);
    }
}

/// The index for a user tells of each feed of that user.
pub proof fn lemma_index_shows_all_own_feeds(
    state: CacheView,
    entries: Seq<FeedEntry>,
    user: Seq<char>,
    i: int,
)
    requires
        0 <= i < entries.len(),
        entries[i].identity.user == user,
    ensures
        exists|k: int|
            0 <= k < listed(state, entries, Some(user)).len() && #[trigger] listed(
                state,
                entries,
                Some(user),
            )[k] == listed(state, entries, None)[i],
    decreases entries.len(),
{
    let all = listed(state, entries, Some(user));
    lemma_index_agrees_with_readiness(state, entries);
    lemma_index_agrees_with_readiness(state, entries.drop_last());
    if i == entries.len() - 1 {
        assert(all[all.len() - 1] == listed(state, entries, None)[i]);
    } else {
        let shorter = entries.drop_last();
        lemma_index_shows_all_own_feeds(state, shorter, user, i);
        let k = choose|k: int|
            0 <= k < listed(state, shorter, Some(user)).len() && #[trigger] listed(
                state,
                shorter,
                Some(user),
            )[k] == listed(state, shorter, None)[i];
        assert(all[k] == listed(state, shorter, Some(user))[k]);
    }
}

/// A refresh that is asked for while none of the feed runs is the last in the queue
/// of its priority, counts as running from then on, and has the one who waits for
/// it among those who do. Nothing else changes: neither metadata, nor the other
/// queue, nor what is known of other feeds.
pub proof fn lemma_asked_refresh_is_queued(
    state: CacheView,
    job: JobView,
    priority: RefreshPriority,
    waiter: u64,
    other: IdentityView,
)
    requires
        !runtime_of(state, job.identity).refreshing,
    ensures
        ({
            let after = enqueued(state, job, priority, Some(waiter));
            &&& runtime_of(after, job.identity).refreshing
            &&& runtime_of(after, job.identity).waiters == runtime_of(
                state,
                job.identity,
            ).waiters.push(waiter)
            &&& runtime_of(after, job.identity).last_error == runtime_of(
                state,
                job.identity,
            ).last_error
            &&& priority == RefreshPriority::Manual ==> after.manual == state.manual.push(job)
                && after.scheduled == state.scheduled
            &&& priority == RefreshPriority::Scheduled ==> after.scheduled == state.scheduled.push(
                job,
            ) && after.manual == state.manual
            &&& after.memory == state.memory
            &&& other != job.identity ==> runtime_of(after, other) == runtime_of(state, other)
        }),
{
}

/// Refreshes are made one after the other: all manual ones in the order in which
/// they were asked for, then the scheduled ones in theirs. None is left out and
/// none is made twice.
pub proof fn lemma_refreshes_are_made_in_order(state: CacheView)
    ensures
        next_of(state) is None <==> queued(state).len() == 0,
        queued(state).len() > 0 ==> next_of(state) == Some(queued(state)[0]) && queued(
            dequeued(state),
        ) == queued(state).skip(1),
        dequeued(state).memory == state.memory,
        dequeued(state).statuses == state.statuses,
{
    if queued(state).len() > 0 {
        assert(queued(dequeued(state)) =~= queued(state).skip(1));
    }
}

/// The refresh of a feed is of that feed, from the source of the feed.
pub proof fn lemma_job_is_of_its_feed(entry: FeedEntry)
    ensures
        job_of(entry).identity == entry.identity,
        job_of(entry).source_url == entry.identity.feed.source(entry.service),
{
}

/// A refresh that has ended no longer runs, and nobody waits for it; the next one
/// can be asked for. What went wrong is kept where something did, and forgotten
/// where nothing did. Other feeds are as they were.
pub proof fn lemma_ended_refresh_is_over(
    state: CacheView,
    feed: IdentityView,
    cached: Option<CachedView>,
    error: Option<Seq<char>>,
    other: IdentityView,
)
    ensures
        ({
            let after = finished(state, feed, cached, error);
            &&& !runtime_of(after, feed).refreshing
            &&& runtime_of(after, feed).waiters.len() == 0
            &&& error is None ==> runtime_of(after, feed).last_error is None
            &&& error matches Some(message) ==> runtime_of(after, feed).last_error is Some
                && text::begins_with(message, runtime_of(after, feed).last_error->0)
            &&& error matches Some(message) ==> (message.len() <= 500 ==> runtime_of(
                after,
                feed,
            ).last_error == error)
            &&& cached is Some ==> memory_of(after, feed) == cached
            &&& cached is None ==> memory_of(after, feed) == memory_of(state, feed)
            &&& other != feed ==> memory_of(after, other) == memory_of(state, other)
                && runtime_of(after, other) == runtime_of(state, other)
            &&& queued(after) == queued(state)
        }),
{
    if error is Some {
        metadata::lemma_error_start_is_kept(error->0);
    }
}

/// Metadata was refreshed recently exactly where, by the times outside of leap
/// seconds, less than the grace period has passed since.
pub proof fn lemma_recent_by_the_times(
    state: CacheView,
    feed: IdentityView,
    now: TimeView,
    grace: int,
)
    requires
        state.memory.contains_key(feed),
        0 <= now.nanos < 1_000_000_000,
        0 <= state.memory[feed].last_successful_refresh.nanos < 1_000_000_000,
    ensures
        is_recent(state, feed, now, grace) <==> {
            let then = state.memory[feed].last_successful_refresh;
            (now.second - then.second) * 1_000_000_000 + now.nanos - then.nanos < grace
                * 1_000_000_000
        },
{
    timestamp::lemma_ordinary_times_are_apart(
        now,
        state.memory[feed].last_successful_refresh,
        0,
    );
}

proof fn lemma_schedule_spares_recent(
    state: CacheView,
    entries: Seq<FeedEntry>,
    now: TimeView,
    grace: int,
    feed: IdentityView,
)
    ensures
        due_enqueued(state, entries, now, grace).memory == state.memory,
        due_enqueued(state, entries, now, grace).manual == state.manual,
        is_recent(state, feed, now, grace) ==> runtime_of(
            due_enqueued(state, entries, now, grace),
            feed,
        ) == runtime_of(state, feed),
        !is_recent(state, feed, now, grace) && (exists|j: int|
            0 <= j < entries.len() && (#[trigger] entries[j]).identity == feed) ==> runtime_of(
            due_enqueued(state, entries, now, grace),
            feed,
        ).refreshing,
    decreases entries.len(),
{
    if entries.len() > 0 {
        let shorter = entries.drop_last();
        lemma_schedule_spares_recent(state, shorter, now, grace, feed);
        if exists|j: int| 0 <= j < entries.len() && (#[trigger] entries[j]).identity == feed {
            let j = choose|j: int|
                0 <= j < entries.len() && (#[trigger] entries[j]).identity == feed;
            if j < shorter.len() {
                assert(shorter[j] == entries[j]);
            }
        }
    }
}

/// A scheduled round asks for a refresh of each configured feed that has no
/// metadata or was not refreshed recently, leaves those that were as they are, and
/// changes neither metadata nor the manual refreshes.
pub proof fn lemma_due_feeds_are_refreshed(
    state: CacheView,
    entries: Seq<FeedEntry>,
    now: TimeView,
    grace: int,
    i: int,
)
    requires
        0 <= i < entries.len(),
    ensures
        !is_recent(state, entries[i].identity, now, grace) ==> runtime_of(
            due_enqueued(state, entries, now, grace),
            entries[i].identity,
        ).refreshing,
        is_recent(state, entries[i].identity, now, grace) ==> runtime_of(
            due_enqueued(state, entries, now, grace),
            entries[i].identity,
        ) == runtime_of(state, entries[i].identity),
        !state.memory.contains_key(entries[i].identity) ==> runtime_of(
            due_enqueued(state, entries, now, grace),
            entries[i].identity,
        ).refreshing,
        due_enqueued(state, entries, now, grace).memory == state.memory,
        due_enqueued(state, entries, now, grace).manual == state.manual,
{
    lemma_schedule_spares_recent(state, entries, now, grace, entries[i].identity);
    assert(exists|j: int|
        0 <= j < entries.len() && (#[trigger] entries[j]).identity == entries[i].identity);
}

/// The counts of the index add up over parts of it, and count one feed at a time.
pub proof fn lemma_counts_add_up(left: Seq<FeedStatusView>, right: Seq<FeedStatusView>)
    ensures
        served(left + right) == served(left) + served(right),
        in_progress(left + right) == in_progress(left) + in_progress(right),
        left.len() == 1 ==> served(left) == if metadata::can_be_served(
            left[0].metadata_cache.state,
        ) {
            1nat
        } else {
            0nat
        },
        left.len() == 1 ==> in_progress(left) == if left[0].metadata_cache.refresh_in_progress {
            1nat
        } else {
            0nat
        },
        served(left) <= left.len(),
        in_progress(left) <= left.len(),
    decreases left.len() + right.len(),
{
    let whole = left + right;
    if right.len() > 0 {
        lemma_counts_add_up(left, right.drop_last());
        assert(whole.drop_last() =~= left + right.drop_last());
    } else {
        assert(whole =~= left);
        if left.len() > 0 {
            lemma_counts_add_up(left.drop_last(), Seq::empty());
            if left.len() == 1 {
                assert(left.drop_last() =~= Seq::<FeedStatusView>::empty());
                assert(served(left.drop_last()) == 0);
                assert(in_progress(left.drop_last()) == 0);
            }
        }
    }
}

} // verus!
