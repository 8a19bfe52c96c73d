//! The answers of the server's routes.
use vstd::prelude::*;

use crate::cache;
use crate::cache::CacheView;
use crate::cache::MetadataCache;
use crate::config;
use crate::config::Config;
use crate::config::ServiceConfig;
use crate::config::ServiceKind;
use crate::config::ServiceView;
use crate::config::SoundCloudFeedKind;
use crate::exchange;
use crate::exchange::Headers;
use crate::exchange::Method;
use crate::exchange::Response;
use crate::exchange::ResponseView;
use crate::identity;
use crate::identity::FeedIdentity;
use crate::identity::IdentityView;
use crate::media;
use crate::media::FeedItem;
use crate::media::ItemView;
use crate::metadata;
use crate::metadata::CachedFeedMetadata;
use crate::metadata::CachedView;
use crate::metadata::MetadataCacheState;
use crate::metadata::RefreshHandle;
use crate::metadata::RefreshOutcome;
use crate::metadata::RefreshPriority;
use crate::rss_feed;
use crate::text;
use crate::timestamp;
use crate::timestamp::TimeView;
use crate::timestamp::Timestamp;

verus! {

/// The answer of the check that the process is alive.
pub fn healthz() -> (response: Response)
    ensures
        response@ == exchange::plain_text(200, "ok"@),
{
    Response::of_text(200, "ok".to_owned())
}

/// The answer of the check that all feeds have metadata.
pub open spec fn readiness(missing: usize) -> ResponseView {
    if missing == 0 {
        exchange::plain_text(200, "ready"@)
    } else {
        exchange::plain_text(
            503,
            "metadata cache warming: "@ + text::decimal_text(missing as nat)
                + " feed(s) missing"@,
        )
    }
}

/// The answer of the check that all feeds have metadata, by how many have
/// none.
pub fn readyz(missing: usize) -> (response: Response)
    ensures
        response@ == readiness(missing),
{
    if missing == 0 {
        return Response::of_text(200, "ready".to_owned());
    }
    let mut body: String = "metadata cache warming: ".to_owned();
    let digits: String = text::decimal(missing as u64);
    body.append(digits.as_str());
    body.append(" feed(s) missing");
    Response::of_text(503, body)
}

/// The answer with the index page.
pub fn index_page(page: String) -> (response: Response)
    ensures
        response@ == exchange::with_content(200, "text/html; charset=utf-8"@, page@),
{
    Response::of_content(200, "text/html; charset=utf-8", page)
}

/// The answer with the index in JSON, or with what kept it from being written.
pub fn index_json(written: Result<String, String>) -> (response: Response)
    ensures
        match written {
            Ok(json) => response@ == exchange::with_content(
                200,
                "application/json; charset=utf-8"@,
                json@,
            ),
            Err(reason) => response@ == exchange::plain_text(500, reason@),
        },
{
    match written {
        Ok(json) => Response::of_content(200, "application/json; charset=utf-8", json),
        Err(reason) => Response::of_text(500, reason),
    }
}

/// The user whose feeds are shown: the authenticated one where auth is on, and
/// everyone where it is off.
pub fn authenticated_config_user<'a>(config: &Config, auth_user: Option<&'a str>) -> (user: Option<
    &'a str,
>)
    ensures
        cache::optional_str(user) == if config.auth.enabled {
            cache::optional_str(auth_user)
        } else {
            None
        },
{
    if config.auth.enabled {
        auth_user
    } else {
        None
    }
}

/// What refuses a request the feeds of a user, if anything does: nothing where
/// auth is off or the user is the authenticated one.
pub open spec fn refusal(
    enabled: bool,
    auth_user: Option<Seq<char>>,
    requested_user: Seq<char>,
) -> Option<ResponseView> {
    if !enabled {
        None
    } else {
        match auth_user {
            Some(user) => if user == requested_user {
                None
            } else {
                Some(exchange::status_only(403))
            },
            None => Some(exchange::status_only(401)),
        }
    }
}

/// Whether a request may see the feeds of a user: anybody may where auth is
/// off; where it is on only that user may.
pub fn authorize_config_user(config: &Config, auth_user: Option<&str>, requested_user: &str) -> (
    authorized: Result<(), Response>)
    ensures
        match authorized {
            Ok(_) => refusal(
                config.auth.enabled,
                cache::optional_str(auth_user),
                requested_user@,
            ) is None,
            Err(response) => refusal(
                config.auth.enabled,
                cache::optional_str(auth_user),
                requested_user@,
            ) == Some(response@),
        },
{
    if !config.auth.enabled {
        return Ok(());
    }
    match auth_user {
        Some(user) => {
            if text::same_text(user, requested_user) {
                Ok(())
            } else {
                Err(Response::of_status(403))
            }
        },
        None => Err(Response::of_status(401)),
    }
}

/// Where a request comes from, as far as its headers tell: the scheme and the
/// host of the proxy before those of the connection.
pub open spec fn base_url(headers: Seq<(Seq<char>, Seq<u8>)>) -> Seq<char> {
    let scheme = match exchange::header_text(headers, "x-forwarded-proto"@) {
        Some(proto) => proto,
        None => "http"@,
    };
    let host_header = if exchange::header_value(headers, "x-forwarded-host"@) is Some {
        "x-forwarded-host"@
    } else {
        "host"@
    };
    let host = match exchange::header_text(headers, host_header) {
        Some(host) => host,
        None => "localhost"@,
    };
    scheme + "://"@ + host
}

/// Where a request comes from.
pub fn base_url_from_headers(headers: &Headers) -> (url: String)
    ensures
        url@ == base_url(headers@),
{
    let mut url: String = match headers.get_text("x-forwarded-proto") {
        Some(proto) => proto,
        None => "http".to_owned(),
    };
    url.append("://");
    let host: Option<String> = if headers.has("x-forwarded-host") {
        headers.get_text("x-forwarded-host")
    } else {
        headers.get_text("host")
    };
    match host {
        Some(host) => {
            url.append(host.as_str());
        },
        None => {
            url.append("localhost");
        },
    }
    url
}

/// The second that a request names in `if-modified-since`.
pub open spec fn since_of(headers: Seq<(Seq<char>, Seq<u8>)>) -> Option<u64> {
    match exchange::header_text(headers, "if-modified-since"@) {
        Some(date) => timestamp::http_date_second(date),
        None => None,
    }
}

/// Whether a file of a time, in nanoseconds since the start of 1970, was not
/// modified since the second that a request names.
pub open spec fn is_unmodified(headers: Seq<(Seq<char>, Seq<u8>)>, at: int) -> bool {
    match since_of(headers) {
        Some(second) => second * 1_000_000_000 >= at,
        None => false,
    }
}

/// Whether a feed was not refreshed since the second that a request names.
pub open spec fn is_not_newer(headers: Seq<(Seq<char>, Seq<u8>)>, at: TimeView) -> bool {
    match since_of(headers) {
        Some(second) => timestamp::is_reached(at, second as int),
        None => false,
    }
}

/// Whether the `if-modified-since` of a request is the HTTP date of a second.
pub open spec fn names_second(headers: Seq<(Seq<char>, Seq<u8>)>, second: u64) -> bool {
    &&& second < timestamp::HTTP_DATE_LIMIT
    &&& exchange::header_text(headers, "if-modified-since"@) == Some(
        timestamp::http_date_text(second),
    )
}

fn since(headers: &Headers) -> (second: Option<u64>)
    ensures
        second == since_of(headers@),
        forall|named: u64| #[trigger] names_second(headers@, named) ==> second == Some(named),
{
    match headers.get_text("if-modified-since") {
        Some(date) => timestamp::parse_http_date(date.as_str()),
        None => None,
    }
}

/// Whether a feed was not refreshed since the second that a request names. A
/// client that sends back the date of a feed's whole second names that second.
pub fn not_modified(headers: &Headers, last_successful_refresh: &Timestamp) -> (yes: bool)
    ensures
        yes == is_not_newer(headers@, last_successful_refresh@),
        forall|second: u64| #[trigger]
            names_second(headers@, second) ==> yes == timestamp::is_reached(
                last_successful_refresh@,
                second as int,
            ),
{
    match since(headers) {
        Some(second) => last_successful_refresh.is_reached(second),
        None => false,
    }
}

/// Whether cached media was not modified since the second that a request names.
/// Nothing is known of media without a time.
pub fn cached_media_not_modified(headers: &Headers, modified: Option<i128>) -> (yes: bool)
    ensures
        yes == match modified {
            Some(at) => is_unmodified(headers@, at as int),
            None => false,
        },
        forall|second: u64| #[trigger]
            names_second(headers@, second) ==> yes == (modified is Some && second * 1_000_000_000
                >= modified->0),
{
    match (modified, since(headers)) {
        (Some(at), Some(second)) => second as i128 * 1_000_000_000 >= at,
        _ => false,
    }
}

/// The feed that a request is for.
#[derive(Debug)]
pub struct FeedTarget {
    pub service: ServiceConfig,
    pub identity: FeedIdentity,
}

/// Whether a feed of a service is configured.
pub open spec fn offers(service: ServiceConfig, feed: SoundCloudFeedKind) -> bool {
    service.feeds@.contains(feed)
}

fn has_feed(feeds: &Vec<SoundCloudFeedKind>, feed: SoundCloudFeedKind) -> (yes: bool)
    ensures
        yes == feeds@.contains(feed),
{
    let mut i: usize = 0;
    while i < feeds.len()
        invariant
            i <= feeds@.len(),
            forall|j: int| 0 <= j < i ==> #[trigger] feeds@[j] != feed,
        decreases feeds@.len() - i,
    {
        if feeds[i] == feed {
            assert(feeds@[i as int] == feed);
            return true;
        }
        i = i + 1;
    }
    false
}

/// The feed that a request is for, if it is configured.
pub fn find_feed(config: &Config, user: &str, name: &str, feed: SoundCloudFeedKind) -> (target:
    Result<FeedTarget, Response>)
    ensures
        match config::find_service(config.users@, user@, ServiceKind::Soundcloud, name@) {
            Some(service) => if offers(service, feed) {
                &&& target matches Ok(found)
                &&& found.service@ == service@
                &&& found.identity@ == (IdentityView {
                    user: user@,
                    service: service.kind,
                    name: service.name@,
                    feed,
                })
            } else {
                target matches Err(response) && response@ == exchange::status_only(404)
            },
            None => target matches Err(response) && response@ == exchange::status_only(404),
        },
{
    match config.service(user, ServiceKind::Soundcloud, name) {
        Some(service) => {
            if !has_feed(&service.feeds, feed) {
                return Err(Response::of_status(404));
            }
            Ok(
                FeedTarget {
                    service: service.clone(),
                    identity: identity::identity_for(user, service, feed),
                },
            )
        },
        None => Err(Response::of_status(404)),
    }
}

/// The feed that a request is for, if it may be seen and is configured.
pub fn open_feed(
    config: &Config,
    auth_user: Option<&str>,
    user: &str,
    name: &str,
    feed: SoundCloudFeedKind,
) -> (target: Result<FeedTarget, Response>)
    ensures
        match refusal(config.auth.enabled, cache::optional_str(auth_user), user@) {
            Some(refused) => target matches Err(response) && response@ == refused,
            None => match config::find_service(
                config.users@,
                user@,
                ServiceKind::Soundcloud,
                name@,
            ) {
                Some(service) => if offers(service, feed) {
                    &&& target matches Ok(found)
                    &&& found.service@ == service@
                    &&& found.identity@ == (IdentityView {
                        user: user@,
                        service: service.kind,
                        name: service.name@,
                        feed,
                    })
                } else {
                    target matches Err(response) && response@ == exchange::status_only(404)
                },
                None => target matches Err(response) && response@ == exchange::status_only(404),
            },
        },
        target matches Ok(found) ==> found.identity@.user == user@ && found.identity@.name == name@
            && found.identity@.feed == feed && found.service@.feeds.contains(feed) && (
        config.auth.enabled ==> cache::optional_str(auth_user) == Some(user@)),
{
    proof {
        config::lemma_found_service_is_named(
            config.users@,
            user@,
            ServiceKind::Soundcloud,
            name@,
        );
    }
    match authorize_config_user(config, auth_user, user) {
        Ok(_) => find_feed(config, user, name, feed),
        Err(response) => Err(response),
    }
}

/// Whether the value of the `refresh` query asks for a refresh.
pub open spec fn asks_for_refresh(value: Option<Seq<char>>) -> bool {
    value == Some("1"@) || value == Some("true"@)
}

/// Whether the value of the `refresh` query asks for a refresh.
pub fn refresh_requested(value: Option<&str>) -> (yes: bool)
    ensures
        yes == asks_for_refresh(cache::optional_str(value)),
{
    match value {
        Some(given) => text::same_text(given, "1") || text::same_text(given, "true"),
        None => false,
    }
}

/// The state that the answer to a refresh tells of, by whether there is metadata
/// to answer with.
pub open spec fn told_state(outcome: RefreshOutcome, cached: bool) -> MetadataCacheState {
    match outcome {
        RefreshOutcome::Refreshed => MetadataCacheState::Ready,
        RefreshOutcome::AlreadyRunning(_) => cache::running_state(cached),
        RefreshOutcome::Failed(_) => cache::failed_state(cached),
    }
}

fn state_of(outcome: RefreshOutcome, cached: bool) -> (state: MetadataCacheState)
    ensures
        state == told_state(outcome, cached),
{
    match (outcome, cached) {
        (RefreshOutcome::Refreshed, _) => MetadataCacheState::Ready,
        (RefreshOutcome::AlreadyRunning(_), true) => MetadataCacheState::Refreshing,
        (RefreshOutcome::AlreadyRunning(_), false) => MetadataCacheState::Warming,
        (RefreshOutcome::Failed(_), true) => MetadataCacheState::Stale,
        (RefreshOutcome::Failed(_), false) => MetadataCacheState::Error,
    }
}

/// An answer with the state of a refresh, where one was asked for, by whether
/// there is metadata to answer with.
pub open spec fn with_refresh(
    response: ResponseView,
    refresh: Option<RefreshOutcome>,
    cached: bool,
) -> ResponseView {
    match refresh {
        Some(outcome) => exchange::with_header(
            response,
            "x-yt-dlp-feed-refresh"@,
            told_state(outcome, cached).header_text(),
        ),
        None => response,
    }
}

fn add_refresh(response: &mut Response, refresh: Option<RefreshOutcome>, cached: bool)
    ensures
        final(response)@ == with_refresh(old(response)@, refresh, cached),
{
    match refresh {
        Some(outcome) => {
            response.add_header(
                "x-yt-dlp-feed-refresh",
                state_of(outcome, cached).as_header_value().to_owned(),
            );
        },
        None => {},
    }
}

/// What a feed without metadata is answered with.
pub open spec fn warming_answer(refresh: Option<RefreshOutcome>) -> ResponseView {
    with_refresh(
        exchange::plain_text(
            503,
            "feed metadata cache is warming; no cached metadata is available yet"@,
        ),
        refresh,
        false,
    )
}

/// What a feed with metadata is answered with.
pub open spec fn feed_answer(
    headers: Seq<(Seq<char>, Seq<u8>)>,
    user: Seq<char>,
    service: ServiceView,
    feed: SoundCloudFeedKind,
    cached: CachedView,
    refresh: Option<RefreshOutcome>,
) -> ResponseView {
    with_refresh(
        exchange::with_header(
            exchange::with_content(
                200,
                "application/rss+xml; charset=utf-8"@,
                rss_feed::feed_text(
                    base_url(headers),
                    user,
                    service,
                    feed,
                    cached.items,
                    cached.last_successful_refresh,
                ),
            ),
            "last-modified"@,
            timestamp::date_of(timestamp::unix_nanos(cached.last_successful_refresh)),
        ),
        refresh,
        true,
    )
}

/// The answer to a request for a feed.
#[derive(Debug, PartialEq, Eq)]
pub struct FeedReply {
    pub response: Response,
    /// Whether a scheduled refresh is to be asked for.
    pub enqueue_scheduled: bool,
}

/// Answers a request for a configured feed, by how the refresh that it asked for
/// ended, if it asked for one, and by what is cached of the feed. Only a request
/// that asks for no refresh is answered with not modified. There is no answer
/// where the time of the last refresh cannot be written as an HTTP date.
pub fn answer_feed(
    headers: &Headers,
    user: &str,
    service: &ServiceConfig,
    feed: SoundCloudFeedKind,
    refresh: Option<RefreshOutcome>,
    cached: Option<&CachedFeedMetadata>,
) -> (reply: Option<FeedReply>)
    ensures
        match cached {
            None => {
                &&& reply matches Some(given)
                &&& given.response@ == warming_answer(refresh)
                &&& given.enqueue_scheduled == (refresh is None)
            },
            Some(kept) => if refresh is None && is_not_newer(
                headers@,
                kept@.last_successful_refresh,
            ) {
                &&& reply matches Some(given)
                &&& given.response@ == exchange::status_only(304)
                &&& !given.enqueue_scheduled
            } else if timestamp::has_http_date(
                timestamp::unix_nanos(kept@.last_successful_refresh),
            ) {
                &&& reply matches Some(given)
                &&& given.response@ == feed_answer(
                    headers@,
                    user@,
                    service@,
                    feed,
                    kept@,
                    refresh,
                )
                &&& !given.enqueue_scheduled
            } else {
                reply is None
            },
        },
{
    let kept: &CachedFeedMetadata = match cached {
        Some(kept) => kept,
        None => {
            let mut response: Response = Response::of_text(
                503,
                "feed metadata cache is warming; no cached metadata is available yet".to_owned(),
            );
            add_refresh(&mut response, refresh, false);
            return Some(FeedReply { response, enqueue_scheduled: refresh.is_none() });
        },
    };
    if refresh.is_none() && not_modified(headers, &kept.last_successful_refresh) {
        return Some(FeedReply { response: Response::of_status(304), enqueue_scheduled: false });
    }
    if !kept.last_successful_refresh.has_http_date() {
        return None;
    }
    let base: String = base_url_from_headers(headers);
    let xml: String = rss_feed::render_feed(
        base.as_str(),
        user,
        service,
        feed,
        &kept.items,
        &kept.last_successful_refresh,
    );
    let mut response: Response = Response::of_content(
        200,
        "application/rss+xml; charset=utf-8",
        xml,
    );
    response.add_header("last-modified", timestamp::http_date(&kept.last_successful_refresh));
    add_refresh(&mut response, refresh, true);
    Some(FeedReply { response, enqueue_scheduled: false })
}

/// The state after a request for a feed was taken: what was read from the feed's
/// file is in memory, and a manual refresh was asked for where the request asks
/// for one.
pub open spec fn after_begin(
    state: CacheView,
    target: FeedTarget,
    refresh: Option<Seq<char>>,
    waiter: u64,
    read: Option<CachedView>,
) -> CacheView {
    let known = cache::recalled(state, target.identity@, read);
    if asks_for_refresh(refresh) {
        cache::enqueued(
            known,
            cache::job_of(
                metadata::FeedEntry {
                    identity: target.identity@,
                    service: target.service@,
                },
            ),
            RefreshPriority::Manual,
            Some(waiter),
        )
    } else {
        known
    }
}

/// Takes a request for a configured feed, with what was read from the feed's
/// file. Where its `refresh` query asks for a refresh, the handle of that refresh
/// is returned: the request goes on when the wait for it is over.
pub fn begin_feed(
    metadata: &mut MetadataCache,
    target: &FeedTarget,
    refresh: Option<&str>,
    waiter: u64,
    read: Option<CachedFeedMetadata>,
) -> (handle: Option<RefreshHandle>)
    ensures
        final(metadata)@ == after_begin(
            old(metadata)@,
            *target,
            cache::optional_str(refresh),
            waiter,
            cache::optional_cached(read),
        ),
        final(metadata).users() == old(metadata).users(),
        final(metadata).data_dir() == old(metadata).data_dir(),
        final(metadata).grace_minutes() == old(metadata).grace_minutes(),
        handle is Some <==> asks_for_refresh(cache::optional_str(refresh)),
        handle matches Some(given) ==> given.running() == if cache::runtime_of(
            old(metadata)@,
            target.identity@,
        ).refreshing {
            Some(
                cache::running_state(
                    old(metadata)@.memory.contains_key(target.identity@) || read is Some
                        && read->0.schema_version == metadata::SCHEMA_VERSION,
                ),
            )
        } else {
            None
        },
{
    if !refresh_requested(refresh) {
        metadata.get(&target.identity, read);
        return None;
    }
    Some(
        metadata.enqueue_refresh(
            target.identity.clone(),
            &target.service,
            RefreshPriority::Manual,
            Some(waiter),
            read,
        ),
    )
}

/// The answer to a request for a feed, by what is in memory of it; none where the
/// time of the last refresh cannot be written.
pub open spec fn answer_of(
    headers: Seq<(Seq<char>, Seq<u8>)>,
    user: Seq<char>,
    target: FeedTarget,
    refresh: Option<RefreshOutcome>,
    cached: Option<CachedView>,
) -> Option<ResponseView> {
    match cached {
        None => Some(warming_answer(refresh)),
        Some(kept) => if refresh is None && is_not_newer(headers, kept.last_successful_refresh) {
            Some(exchange::status_only(304))
        } else if timestamp::has_http_date(timestamp::unix_nanos(kept.last_successful_refresh)) {
            Some(
                feed_answer(
                    headers,
                    user,
                    target.service@,
                    target.identity.feed,
                    kept,
                    refresh,
                ),
            )
        } else {
            None
        },
    }
}

/// The state after a request for a feed was answered: what was read from the
/// feed's file is in memory, and a scheduled refresh was asked for where there is
/// nothing to serve and the request asked for none.
pub open spec fn after_finish(
    state: CacheView,
    target: FeedTarget,
    refresh: Option<RefreshOutcome>,
    read: Option<CachedView>,
) -> CacheView {
    let known = cache::recalled(state, target.identity@, read);
    if refresh is None && !known.memory.contains_key(target.identity@) {
        cache::enqueued(
            known,
            cache::job_of(
                metadata::FeedEntry {
                    identity: target.identity@,
                    service: target.service@,
                },
            ),
            RefreshPriority::Scheduled,
            None,
        )
    } else {
        known
    }
}

/// Answers a request for a configured feed, by how the refresh that it asked for
/// ended, if it asked for one, and with what was read from the feed's file.
pub fn finish_feed(
    metadata: &mut MetadataCache,
    headers: &Headers,
    user: &str,
    target: &FeedTarget,
    refresh: Option<RefreshOutcome>,
    read: Option<CachedFeedMetadata>,
) -> (response: Option<Response>)
    ensures
        final(metadata)@ == after_finish(
            old(metadata)@,
            *target,
            refresh,
            cache::optional_cached(read),
        ),
        final(metadata).users() == old(metadata).users(),
        final(metadata).data_dir() == old(metadata).data_dir(),
        final(metadata).grace_minutes() == old(metadata).grace_minutes(),
        match response {
            Some(given) => answer_of(
                headers@,
                user@,
                *target,
                refresh,
                cache::memory_of(
                    cache::recalled(
                        old(metadata)@,
                        target.identity@,
                        cache::optional_cached(read),
                    ),
                    target.identity@,
                ),
            ) == Some(given@),
            None => answer_of(
                headers@,
                user@,
                *target,
                refresh,
                cache::memory_of(
                    cache::recalled(
                        old(metadata)@,
                        target.identity@,
                        cache::optional_cached(read),
                    ),
                    target.identity@,
                ),
            ) is None,
        },
{
    metadata.get(&target.identity, read);
    let reply: Option<FeedReply> = answer_feed(
        headers,
        user,
        &target.service,
        target.identity.feed,
        refresh,
        metadata.cached(&target.identity),
    );
    match reply {
        Some(given) => {
            if given.enqueue_scheduled {
                metadata.enqueue_refresh(
                    target.identity.clone(),
                    &target.service,
                    RefreshPriority::Scheduled,
                    None,
                    None,
                );
            }
            Some(given.response)
        },
        None => None,
    }
}

/// What a manual refresh tells of in its header: `ready` when it succeeded,
/// `stale` when it failed and there is metadata from before, `error` when it
/// failed and there is none.
pub proof fn lemma_refresh_is_told(state: CacheView, feed: IdentityView)
    ensures
        told_state(RefreshOutcome::Refreshed, state.memory.contains_key(feed)).header_text()
            == "ready"@,
        state.memory.contains_key(feed) ==> told_state(
            cache::failure_of(state, feed),
            true,
        ).header_text() == "stale"@,
        !state.memory.contains_key(feed) ==> told_state(
            cache::failure_of(state, feed),
            false,
        ).header_text() == "error"@,
{
}

/// What a request for a refresh is answered while another one of the feed runs:
/// the current metadata, in memory or in the feed's file, with `refreshing`; and
/// 503 with `warming` where there is none.
pub proof fn lemma_running_refresh_is_told(
    state: CacheView,
    headers: Seq<(Seq<char>, Seq<u8>)>,
    user: Seq<char>,
    target: FeedTarget,
    refresh: Option<Seq<char>>,
    waiter: u64,
    read: Option<CachedView>,
)
    requires
        asks_for_refresh(refresh),
        cache::runtime_of(state, target.identity@).refreshing,
    ensures
        ({
            let begun = after_begin(state, target, refresh, waiter, read);
            let cached = cache::memory_of(begun, target.identity@);
            let running = RefreshOutcome::AlreadyRunning(cache::running_state(cached is Some));
            &&& begun == cache::recalled(state, target.identity@, read)
            &&& after_finish(begun, target, Some(running), read) == begun
            &&& match cached {
                Some(kept) => timestamp::has_http_date(
                    timestamp::unix_nanos(kept.last_successful_refresh),
                ) ==> answer_of(
                    headers,
                    user,
                    target,
                    Some(running),
                    cached,
                ) == Some(
                    exchange::with_header(
                        feed_answer(
                            headers,
                            user,
                            target.service@,
                            target.identity.feed,
                            kept,
                            None,
                        ),
                        "x-yt-dlp-feed-refresh"@,
                        "refreshing"@,
                    ),
                ),
                None => answer_of(headers, user, target, Some(running), cached) == Some(
                    exchange::with_header(
                        exchange::plain_text(
                            503,
                            "feed metadata cache is warming; no cached metadata is available yet"@,
                        ),
                        "x-yt-dlp-feed-refresh"@,
                        "warming"@,
                    ),
                ),
            }
        }),
{
}

/// A feed that has metadata is served whatever became of its refresh.
pub proof fn lemma_failed_refresh_still_serves(
    state: CacheView,
    headers: Seq<(Seq<char>, Seq<u8>)>,
    user: Seq<char>,
    target: FeedTarget,
    error: Seq<char>,
)
    requires
        state.memory.contains_key(target.identity@),
        timestamp::has_http_date(
            timestamp::unix_nanos(state.memory[target.identity@].last_successful_refresh),
        ),
    ensures
        answer_of(
            headers,
            user,
            target,
            Some(cache::failure_of(state, target.identity@)),
            cache::memory_of(
                cache::finished(state, target.identity@, None, Some(error)),
                target.identity@,
            ),
        ) == Some(
            feed_answer(
                headers,
                user,
                target.service@,
                target.identity.feed,
                state.memory[target.identity@],
                Some(RefreshOutcome::Failed(MetadataCacheState::Stale)),
            ),
        ),
{
}

/// The first item with an id.
pub open spec fn first_item(items: Seq<ItemView>, item_id: Seq<char>) -> Option<ItemView>
    decreases items.len(),
{
    if items.len() == 0 {
        None
    } else if items[0].id == item_id {
        Some(items[0])
    } else {
        first_item(items.skip(1), item_id)
    }
}

/// The first item with an id in the feeds of a service, in their order.
pub open spec fn item_in_feeds(
    state: CacheView,
    user: Seq<char>,
    service: ServiceView,
    feeds: Seq<SoundCloudFeedKind>,
    item_id: Seq<char>,
) -> Option<ItemView>
    decreases feeds.len(),
{
    if feeds.len() == 0 {
        None
    } else {
        let feed = IdentityView { user, service: service.kind, name: service.name, feed: feeds[0] };
        let here = if state.memory.contains_key(feed) {
            first_item(state.memory[feed].items, item_id)
        } else {
            None
        };
        if here is Some {
            here
        } else {
            item_in_feeds(state, user, service, feeds.skip(1), item_id)
        }
    }
}

fn find_among(items: &Vec<FeedItem>, item_id: &str) -> (item: Option<FeedItem>)
    ensures
        match item {
            Some(found) => first_item(media::items_view(items@), item_id@) == Some(found@),
            None => first_item(media::items_view(items@), item_id@) is None,
        },
{
    let ghost all = media::items_view(items@);
    let mut i: usize = 0;
    assert(all.skip(0) == all);
    while i < items.len()
        invariant
            i <= items@.len(),
            all == media::items_view(items@),
            first_item(all, item_id@) == first_item(all.skip(i as int), item_id@),
        decreases items@.len() - i,
    {
        assert(all.skip(i as int)[0] == items@[i as int]@);
        if text::same_text(items[i].id.as_str(), item_id) {
            return Some(items[i].clone());
        }
        assert(all.skip(i as int).skip(1) == all.skip(i + 1));
        i = i + 1;
    }
    None
}

/// The first item with an id in the feeds of a service, in their order, as far
/// as their metadata is in memory.
pub fn find_item(
    metadata: &MetadataCache,
    service: &ServiceConfig,
    user: &str,
    item_id: &str,
) -> (item: Option<FeedItem>)
    ensures
        match item {
            Some(found) => item_in_feeds(
                metadata@,
                user@,
                service@,
                service.feeds@,
                item_id@,
            ) == Some(found@),
            None => item_in_feeds(metadata@, user@, service@, service.feeds@, item_id@) is None,
        },
{
    let mut i: usize = 0;
    assert(service.feeds@.skip(0) == service.feeds@);
    while i < service.feeds.len()
        invariant
            i <= service.feeds@.len(),
            item_in_feeds(metadata@, user@, service@, service.feeds@, item_id@) == item_in_feeds(
                metadata@,
                user@,
                service@,
                service.feeds@.skip(i as int),
                item_id@,
            ),
        decreases service.feeds@.len() - i,
    {
        let feed: FeedIdentity = identity::identity_for(user, service, service.feeds[i]);
        assert(service.feeds@.skip(i as int)[0] == service.feeds@[i as int]);
        match metadata.cached(&feed) {
            Some(cached) => {
                let found: Option<FeedItem> = find_among(&cached.items, item_id);
                if found.is_some() {
                    return found;
                }
            },
            None => {},
        }
        assert(service.feeds@.skip(i as int).skip(1) == service.feeds@.skip(i + 1));
        i = i + 1;
    }
    None
}

/// The audio that a request is for.
#[derive(Debug, PartialEq, Eq)]
pub struct AudioTarget {
    pub key: String,
    pub path: String,
    pub source_url: String,
}

/// The key of an item's audio.
pub open spec fn audio_key(user: Seq<char>, name: Seq<char>, item_id: Seq<char>) -> Seq<char> {
    crate::digest::label_digest(user, "soundcloud"@, name, item_id)
}

/// The audio of an item: its key, the file that it is kept in, and the page that
/// it is downloaded from.
pub fn audio_target(config: &Config, user: &str, name: &str, item: &FeedItem) -> (target: AudioTarget)
    ensures
        target.key@ == crate::digest::label_digest(user@, "soundcloud"@, name@, item@.id),
        target.path@ == media::media_path_of(config.cache.data_dir@, target.key@),
        target.source_url@ == item@.webpage_url,
        target.key@ == audio_key(user@, name@, item@.id),
        media::is_cache_key(target.key@),
{
    let key: String = media::cache_key(user, "soundcloud", name, item.id.as_str());
    let path: String = media::media_path(config, key.as_str());
    AudioTarget { key, path, source_url: item.webpage_url.clone() }
}

/// The audio that a request is for, if it may be seen, its service is
/// configured, and its item is in one of the service's feeds.
pub fn open_audio(
    config: &Config,
    metadata: &MetadataCache,
    auth_user: Option<&str>,
    user: &str,
    name: &str,
    item_id: &str,
) -> (target: Result<AudioTarget, Response>)
    ensures
        match refusal(config.auth.enabled, cache::optional_str(auth_user), user@) {
            Some(refused) => target matches Err(response) && response@ == refused,
            None => match config::find_service(
                config.users@,
                user@,
                ServiceKind::Soundcloud,
                name@,
            ) {
                Some(service) => match item_in_feeds(
                    metadata@,
                    user@,
                    service@,
                    service.feeds@,
                    item_id@,
                ) {
                    Some(item) => {
                        &&& target matches Ok(found)
                        &&& found.key@ == crate::digest::label_digest(
                            user@,
                            "soundcloud"@,
                            name@,
                            item.id,
                        )
                        &&& found.path@ == media::media_path_of(
                            config.cache.data_dir@,
                            found.key@,
                        )
                        &&& found.source_url@ == item.webpage_url
                    },
                    None => target matches Err(response) && response@ == exchange::status_only(
                        404,
                    ),
                },
                None => target matches Err(response) && response@ == exchange::status_only(404),
            },
        },
        target matches Ok(found) ==> found.key@ == audio_key(user@, name@, item_id@) && (
        config.auth.enabled ==> cache::optional_str(auth_user) == Some(user@)),
{
    proof {
        if config::find_service(config.users@, user@, ServiceKind::Soundcloud, name@) is Some {
            let service = config::find_service(
                config.users@,
                user@,
                ServiceKind::Soundcloud,
                name@,
            )->0;
            lemma_items_are_found_in_feeds(
                metadata@,
                user@,
                service@,
                service.feeds@,
                item_id@,
            );
        }
    }
    match authorize_config_user(config, auth_user, user) {
        Ok(_) => {},
        Err(response) => {
            return Err(response);
        },
    }
    match config.service(user, ServiceKind::Soundcloud, name) {
        Some(service) => match find_item(metadata, service, user, item_id) {
            Some(item) => Ok(audio_target(config, user, name, &item)),
            None => Err(Response::of_status(404)),
        },
        None => Err(Response::of_status(404)),
    }
}

/// What a request for audio comes to.
#[derive(Debug, Clone, Copy, PartialEq, Eq, Structural)]
pub enum AudioDecision {
    /// The cached file is served.
    Serve,
    /// There is nothing to tell of audio that is not cached.
    NotFound,
    /// A download is joined or started.
    Download,
}

/// What a request for audio comes to, by whether its cached file may be served.
pub open spec fn audio_decision(method: Method, fresh: bool) -> AudioDecision {
    if fresh {
        AudioDecision::Serve
    } else if method == Method::Head {
        AudioDecision::NotFound
    } else {
        AudioDecision::Download
    }
}

/// Decides on a request for audio, by whether its cached file may be served.
pub fn decide_audio(method: Method, fresh: bool) -> (decision: AudioDecision)
    ensures
        decision == if fresh {
            AudioDecision::Serve
        } else if method == Method::Head {
            AudioDecision::NotFound
        } else {
            AudioDecision::Download
        },
        decision == audio_decision(method, fresh),
{
    if fresh {
        return AudioDecision::Serve;
    }
    match method {
        Method::Head => AudioDecision::NotFound,
        _ => AudioDecision::Download,
    }
}

/// The answer to a request for a download when as many run as may.
pub open spec fn limit_answer() -> ResponseView {
    exchange::with_header(
        exchange::plain_text(503, "maximum concurrent media downloads reached"@),
        "retry-after"@,
        "30"@,
    )
}

/// The answer to a request for a download when as many run as may.
pub fn limit_response() -> (response: Response)
    ensures
        response@ == limit_answer(),
        response@ == exchange::with_header(
            exchange::plain_text(503, "maximum concurrent media downloads reached"@),
            "retry-after"@,
            "30"@,
        ),
{
    let mut response: Response = Response::of_text(
        503,
        "maximum concurrent media downloads reached".to_owned(),
    );
    response.add_header("retry-after", "30".to_owned());
    response
}

/// The answer with a stream of audio, without its body.
pub fn stream_response() -> (response: Response)
    ensures
        response@ == exchange::with_content(200, "audio/mp4"@, Seq::empty()),
{
    Response::of_content(200, "audio/mp4", String::new())
}

/// The first and the last byte that a range asks for: either from a byte to a
/// byte, or from a byte to the end, or a number of bytes at the end.
pub open spec fn byte_range(value: Seq<char>, len: u64) -> Option<(u64, u64)> {
    match text::after_head(value, "bytes="@) {
        Some(range) => if range.contains(',') || len == 0 {
            None
        } else {
            match text::split_at_first(range, "-"@) {
                Some((first, last)) => if first.len() == 0 {
                    suffix_range(last, len)
                } else {
                    span_range(first, last, len)
                },
                None => None,
            }
        },
        None => None,
    }
}

/// The range of a number of bytes at the end.
pub open spec fn suffix_range(count: Seq<char>, len: u64) -> Option<(u64, u64)> {
    match text::unsigned_value(count) {
        Some(suffix) => if suffix == 0 {
            None
        } else if suffix >= len {
            Some((0u64, (len - 1) as u64))
        } else {
            Some(((len - suffix) as u64, (len - 1) as u64))
        },
        None => None,
    }
}

/// The range from a byte to a byte, or to the end.
pub open spec fn span_range(first: Seq<char>, last: Seq<char>, len: u64) -> Option<(u64, u64)> {
    let end = if last.len() == 0 {
        Some((len - 1) as u64)
    } else {
        text::unsigned_value(last)
    };
    match (text::unsigned_value(first), end) {
        (Some(start), Some(end)) => if start >= len || end < start {
            None
        } else if end < len {
            Some((start, end))
        } else {
            Some((start, (len - 1) as u64))
        },
        _ => None,
    }
}

fn has_comma(chars: &[char]) -> (yes: bool)
    ensures
        yes == chars@.contains(','),
{
    let mut i: usize = 0;
    while i < chars.len()
        invariant
            i <= chars@.len(),
            forall|j: int| 0 <= j < i ==> #[trigger] chars@[j] != ',',
        decreases chars@.len() - i,
    {
        if chars[i] == ',' {
            assert(chars@[i as int] == ',');
            return true;
        }
        i = i + 1;
    }
    false
}

/// The first and the last byte that a range asks for, of a file of `len` bytes.
/// None where the range cannot be satisfied.
pub fn parse_byte_range(value: &str, len: u64) -> (range: Option<(u64, u64)>)
    ensures
        range == byte_range(value@, len),
        range matches Some(asked) ==> asked.0 <= asked.1 < len,
{
    let chars: Vec<char> = text::chars_of(value);
    let unit: Vec<char> = text::chars_of("bytes=");
    let dash: Vec<char> = text::chars_of("-");
    let range: &[char] = match text::strip_head(chars.as_slice(), unit.as_slice()) {
        Some(range) => range,
        None => {
            return None;
        },
    };
    if has_comma(range) || len == 0 {
        return None;
    }
    let (first, last): (&[char], &[char]) = match text::split_once(range, dash.as_slice()) {
        Some(parts) => parts,
        None => {
            return None;
        },
    };
    if first.len() == 0 {
        let suffix: u64 = match text::parse_unsigned(last) {
            Some(suffix) => suffix,
            None => {
                return None;
            },
        };
        if suffix == 0 {
            return None;
        }
        return Some((len.saturating_sub(suffix), len - 1));
    }
    let start: u64 = match text::parse_unsigned(first) {
        Some(start) => start,
        None => {
            return None;
        },
    };
    let end: u64 = if last.len() == 0 {
        len - 1
    } else {
        match text::parse_unsigned(last) {
            Some(end) => end,
            None => {
                return None;
            },
        }
    };
    if start >= len || end < start {
        return None;
    }
    if end < len {
        Some((start, end))
    } else {
        Some((start, len - 1))
    }
}

/// What is known of a cached file that is served.
#[derive(Debug, Clone, Copy, PartialEq, Eq, Structural)]
pub struct MediaFacts {
    pub len: u64,
    /// Nanoseconds since the start of 1970.
    pub modified: Option<i128>,
}

/// An answer with cached media.
#[derive(Debug, PartialEq, Eq)]
pub struct MediaReply {
    /// The answer without its body, or with a body that tells of an error.
    pub response: Response,
    /// The first and the last byte of the file that are the body.
    pub body: Option<(u64, u64)>,
}

/// What an answer with cached media is.
#[verifier::ext_equal]
pub struct MediaReplyView {
    pub response: ResponseView,
    pub body: Option<(u64, u64)>,
}

impl View for MediaReply {
    type V = MediaReplyView;

    open spec fn view(&self) -> MediaReplyView {
        MediaReplyView { response: self.response@, body: self.body }
    }
}

/// An answer without a body.
pub open spec fn bodiless(response: ResponseView) -> MediaReplyView {
    MediaReplyView { response, body: None }
}

/// The answer to a range that cannot be satisfied.
pub open spec fn unsatisfiable(len: u64) -> ResponseView {
    exchange::with_header(
        exchange::status_only(416),
        "content-range"@,
        "bytes */"@ + text::decimal_text(len as nat),
    )
}

/// The answer to a range that cannot be satisfied.
pub fn range_not_satisfiable(len: u64) -> (response: Response)
    ensures
        response@ == unsatisfiable(len),
{
    let mut range: String = "bytes */".to_owned();
    let digits: String = text::decimal(len);
    range.append(digits.as_str());
    let mut response: Response = Response::of_status(416);
    response.add_header("content-range", range);
    response
}

/// The range that the answer to a range tells of.
pub open spec fn content_range(start: u64, end: u64, len: u64) -> Seq<char> {
    "bytes "@ + text::decimal_text(start as nat) + "-"@ + text::decimal_text(end as nat) + "/"@
        + text::decimal_text(len as nat)
}

/// The start of an answer with media: what it is, that ranges of it can be asked
/// for, and when it was modified.
pub open spec fn media_head(status: u16, modified: Option<i128>) -> ResponseView {
    let head = exchange::with_header(
        exchange::with_content(status, "audio/mp4"@, Seq::empty()),
        "accept-ranges"@,
        "bytes"@,
    );
    match modified {
        Some(at) => exchange::with_header(
            head,
            "last-modified"@,
            timestamp::date_of(at as int),
        ),
        None => head,
    }
}

/// The answer with a part of a file, or with all of it.
pub open spec fn media_part(
    facts: MediaFacts,
    range: Option<(u64, u64)>,
    method: Method,
) -> MediaReplyView {
    let status = if range is Some {
        206u16
    } else {
        200u16
    };
    let head = media_head(status, facts.modified);
    let (start, end) = match range {
        Some(asked) => asked,
        None => (0u64, (facts.len - 1) as u64),
    };
    let sized = exchange::with_header(
        head,
        "content-length"@,
        if facts.len == 0 {
            "0"@
        } else {
            text::decimal_text((end - start + 1) as nat)
        },
    );
    if facts.len == 0 {
        bodiless(sized)
    } else {
        let response = if range is Some {
            exchange::with_header(sized, "content-range"@, content_range(start, end, facts.len))
        } else {
            sized
        };
        MediaReplyView {
            response,
            body: if method == Method::Head {
                None
            } else {
                Some((start, end))
            },
        }
    }
}

/// The range that a request asks for, if it asks for one that can be satisfied.
pub open spec fn asked_range(headers: Seq<(Seq<char>, Seq<u8>)>, len: u64) -> Option<(u64, u64)> {
    match exchange::header_text(headers, "range"@) {
        Some(value) => byte_range(value, len),
        None => None,
    }
}

/// Whether a modification time can be written as an HTTP date.
pub open spec fn can_be_dated(modified: Option<i128>) -> bool {
    match modified {
        Some(at) => timestamp::has_http_date(at as int),
        None => true,
    }
}

/// Whether a request for cached media is answered with not modified.
pub open spec fn media_is_unmodified(
    method: Method,
    headers: Seq<(Seq<char>, Seq<u8>)>,
    modified: Option<i128>,
) -> bool {
    method == Method::Get && modified is Some && is_unmodified(headers, modified->0 as int)
}

/// The answer to a request for cached media, by what is known of its file; none
/// where the time of the file would have to be written and cannot be.
pub open spec fn media_answer(
    method: Method,
    headers: Seq<(Seq<char>, Seq<u8>)>,
    facts: MediaFacts,
) -> Option<MediaReplyView> {
    if media_is_unmodified(method, headers, facts.modified) {
        Some(bodiless(exchange::status_only(304)))
    } else if exchange::header_value(headers, "range"@) is Some && asked_range(
        headers,
        facts.len,
    ) is None {
        Some(bodiless(unsatisfiable(facts.len)))
    } else if can_be_dated(facts.modified) {
        Some(media_part(facts, asked_range(headers, facts.len), method))
    } else {
        None
    }
}

/// What an answer with cached media is, if there is one.
pub open spec fn optional_reply(reply: Option<MediaReply>) -> Option<MediaReplyView> {
    match reply {
        Some(given) => Some(given@),
        None => None,
    }
}

/// Answers a request for cached media, by what is known of its file, or by what
/// kept that from being known. There is no answer where the time of the file
/// cannot be written as an HTTP date and would have to be.
pub fn serve_cached_media(method: Method, headers: &Headers, known: Result<MediaFacts, String>) -> (
    reply: Option<MediaReply>)
    ensures
        match known {
            Err(reason) => reply matches Some(given) && given@ == bodiless(
                exchange::plain_text(500, reason@),
            ),
            Ok(facts) => if media_is_unmodified(method, headers@, facts.modified) {
                reply matches Some(given) && given@ == bodiless(exchange::status_only(304))
            } else if exchange::header_value(headers@, "range"@) is Some && asked_range(
                headers@,
                facts.len,
            ) is None {
                reply matches Some(given) && given@ == bodiless(unsatisfiable(facts.len))
            } else if can_be_dated(facts.modified) {
                reply matches Some(given) && given@ == media_part(
                    facts,
                    asked_range(headers@, facts.len),
                    method,
                )
            } else {
                reply is None
            },
        },
        known matches Ok(facts) ==> optional_reply(reply) == media_answer(method, headers@, facts),
        known is Ok && known->Ok_0.len > 0 && method != Method::Head && reply is Some
            && reply->0.response.status == 200 ==> reply->0.body == Some(
            (0u64, (known->Ok_0.len - 1) as u64),
        ),
{
    let facts: MediaFacts = match known {
        Ok(facts) => facts,
        Err(reason) => {
            return Some(MediaReply { response: Response::of_text(500, reason), body: None });
        },
    };
    if method == Method::Get && cached_media_not_modified(headers, facts.modified) {
        return Some(MediaReply { response: Response::of_status(304), body: None });
    }
    let range: Option<(u64, u64)> = match headers.get_text("range") {
        Some(value) => parse_byte_range(value.as_str(), facts.len),
        None => None,
    };
    if headers.has("range") && range.is_none() {
        return Some(MediaReply { response: range_not_satisfiable(facts.len), body: None });
    }
    let status: u16 = if range.is_some() {
        206
    } else {
        200
    };
    let mut response: Response = match start_media(status, facts.modified) {
        Some(response) => response,
        None => {
            return None;
        },
    };
    if facts.len == 0 {
        response.add_header("content-length", "0".to_owned());
        return Some(MediaReply { response, body: None });
    }
    let (start, end): (u64, u64) = match range {
        Some(asked) => asked,
        None => (0, facts.len - 1),
    };
    response.add_header("content-length", text::decimal(end - start + 1));
    if range.is_some() {
        response.add_header("content-range", write_content_range(start, end, facts.len));
    }
    match method {
        Method::Head => Some(MediaReply { response, body: None }),
        _ => Some(MediaReply { response, body: Some((start, end)) }),
    }
}

fn start_media(status: u16, modified: Option<i128>) -> (response: Option<Response>)
    ensures
        match response {
            Some(head) => can_be_dated(modified) && head@ == media_head(status, modified),
            None => !can_be_dated(modified),
        },
{
    let mut response: Response = Response::of_content(status, "audio/mp4", String::new());
    response.add_header("accept-ranges", "bytes".to_owned());
    match modified {
        Some(at) => match timestamp::http_date_of_nanos(at) {
            Some(date) => {
                response.add_header("last-modified", date);
                Some(response)
            },
            None => None,
        },
        None => Some(response),
    }
}

fn write_content_range(start: u64, end: u64, len: u64) -> (range: String)
    ensures
        range@ == content_range(start, end, len),
{
    let mut range: String = "bytes ".to_owned();
    let digits: String = text::decimal(start);
    range.append(digits.as_str());
    range.append("-");
    let digits: String = text::decimal(end);
    range.append(digits.as_str());
    range.append("/");
    let digits: String = text::decimal(len);
    range.append(digits.as_str());
    range
}

/// The bytes of a file that are a body; none where the file has become too
/// short.
pub open spec fn body_of(bytes: Seq<u8>, start: u64, end: u64) -> Seq<u8> {
    if start <= end < bytes.len() {
        bytes.subrange(start as int, end + 1)
    } else {
        Seq::empty()
    }
}

/// Cuts the bytes of a file that are a body out of what was read.
pub fn media_body(bytes: &Vec<u8>, start: u64, end: u64) -> (body: Vec<u8>)
    ensures
        body@ == body_of(bytes@, start, end),
{
    let mut body: Vec<u8> = Vec::new();
    if start > end || end >= bytes.len() as u64 {
        return body;
    }
    let first: usize = start as usize;
    let last: usize = end as usize;
    let mut i: usize = first;
    while i <= last
        invariant
            first <= i <= last + 1,
            last < bytes@.len(),
            body@ == bytes@.subrange(first as int, i as int),
            bytes@.len() <= usize::MAX,
        decreases last + 1 - i,
    {
        body.push(bytes[i]);
        assert(body@ =~= bytes@.subrange(first as int, i + 1));
        i = i + 1;
    }
    body
}

proof fn lemma_dash_is_found(digits: Seq<char>, behind: Seq<char>, from: int)
    requires
        text::all_digits(digits),
        0 <= from <= digits.len(),
    ensures
        text::position_from(digits + "-"@ + behind, "-"@, from) == Some(digits.len() as int),
    decreases digits.len() - from,
{
    reveal_strlit("-");
    let whole = digits + "-"@ + behind;
    if from == digits.len() {
        text::lemma_part_stands(digits, "-"@, behind);
    } else {
        assert(text::is_digit(digits[from]));
        assert(whole.subrange(from, from + 1)[0] == digits[from]);
        lemma_dash_is_found(digits, behind, from + 1);
    }
}

/// A range that is written from a byte to a byte of a file is read as these two
/// bytes.
pub proof fn lemma_range_reads_back(start: u64, end: u64, len: u64)
    requires
        start <= end < len,
    ensures
        byte_range(
            "bytes="@ + (text::decimal_text(start as nat) + "-"@ + text::decimal_text(
                end as nat,
            )),
            len,
        ) == Some((start, end)),
{
    text::lemma_decimal_digits(start as nat);
    text::lemma_decimal_digits(end as nat);
    text::lemma_decimal_reads_back(start);
    text::lemma_decimal_reads_back(end);
    lemma_range_parts(
        text::decimal_text(start as nat),
        text::decimal_text(end as nat),
        len,
    );
}

/// A body has as many bytes as its answer tells, as long as its file has not
/// become shorter.
pub proof fn lemma_body_has_its_length(bytes: Seq<u8>, start: u64, end: u64)
    requires
        start <= end < bytes.len(),
    ensures
        body_of(bytes, start, end).len() == end - start + 1,
        forall|i: int|
            0 <= i < end - start + 1 ==> #[trigger] body_of(bytes, start, end)[i] == bytes[start
                + i],
{
}

/// Whether an answer carries a header with a value.
pub open spec fn carries(response: ResponseView, name: Seq<char>, value: Seq<char>) -> bool {
    response.headers.contains((name, value))
}

proof fn lemma_media_head_is_carried(facts: MediaFacts, range: Option<(u64, u64)>, method: Method)
    ensures
        ({
            let response = media_part(facts, range, method).response;
            &&& carries(response, "content-type"@, "audio/mp4"@)
            &&& carries(response, "accept-ranges"@, "bytes"@)
            &&& facts.modified is Some ==> carries(
                response,
                "last-modified"@,
                timestamp::date_of(facts.modified->0 as int),
            )
            &&& facts.len == 0 ==> carries(response, "content-length"@, "0"@)
            &&& facts.len > 0 && range is None ==> carries(
                response,
                "content-length"@,
                text::decimal_text(facts.len as nat),
            )
            &&& facts.len > 0 && range is Some ==> carries(
                response,
                "content-length"@,
                text::decimal_text(((range->0).1 - (range->0).0 + 1) as nat),
            ) && carries(
                response,
                "content-range"@,
                content_range((range->0).0, (range->0).1, facts.len),
            )
        }),
{
    let status = if range is Some {
        206u16
    } else {
        200u16
    };
    let content = exchange::with_content(status, "audio/mp4"@, Seq::empty());
    let ranged = exchange::with_header(content, "accept-ranges"@, "bytes"@);
    let head = media_head(status, facts.modified);
    let response = media_part(facts, range, method).response;
    assert(content.headers[0] == ("content-type"@, "audio/mp4"@));
    assert(ranged.headers[0] == ("content-type"@, "audio/mp4"@));
    assert(ranged.headers[1] == ("accept-ranges"@, "bytes"@));
    assert(head.headers[0] == ("content-type"@, "audio/mp4"@));
    assert(head.headers[1] == ("accept-ranges"@, "bytes"@));
    let at = head.headers.len() as int;
    if facts.modified is Some {
        assert(head.headers[2] == ("last-modified"@, timestamp::date_of(facts.modified->0 as int)));
        assert(response.headers[2] == head.headers[2]);
    }
    assert(response.headers[0] == head.headers[0]);
    assert(response.headers[1] == head.headers[1]);
    if facts.len == 0 {
        assert(response.headers[at] == ("content-length"@, "0"@));
    } else if range is None {
        assert(response.headers[at] == (
            "content-length"@,
            text::decimal_text(facts.len as nat),
        ));
    } else {
        let (start, end) = range->0;
        assert(response.headers[at] == (
            "content-length"@,
            text::decimal_text((end - start + 1) as nat),
        ));
        assert(response.headers[at + 1] == (
            "content-range"@,
            content_range(start, end, facts.len),
        ));
    }
}

proof fn lemma_asked_range_fits(value: Seq<char>, len: u64)
    ensures
        byte_range(value, len) matches Some(asked) ==> asked.0 <= asked.1 < len,
{
}

/// What a request with any method but HEAD gets of a file. With 200 it gets all
/// of it, from the first byte to the last, and with 206 the part that it asked
/// for. Either way it gets exactly as many bytes as the content length tells; a
/// part is told by the content range too.
pub proof fn lemma_media_answer_sends_what_it_tells(
    method: Method,
    headers: Seq<(Seq<char>, Seq<u8>)>,
    facts: MediaFacts,
)
    requires
        method != Method::Head,
        media_answer(method, headers, facts) is Some,
    ensures
        ({
            let reply = media_answer(method, headers, facts)->0;
            &&& reply.response.status == 200 && facts.len > 0 ==> reply.body == Some(
                (0u64, (facts.len - 1) as u64),
            )
            &&& reply.response.status == 200 && facts.len == 0 ==> reply.body is None && carries(
                reply.response,
                "content-length"@,
                "0"@,
            )
            &&& reply.response.status == 206 ==> {
                &&& facts.len > 0
                &&& reply.body is Some
                &&& reply.body == byte_range(
                    exchange::header_text(headers, "range"@)->0,
                    facts.len,
                )
                &&& carries(
                    reply.response,
                    "content-range"@,
                    "bytes "@ + text::decimal_text((reply.body->0).0 as nat) + "-"@
                        + text::decimal_text((reply.body->0).1 as nat) + "/"@ + text::decimal_text(
                        facts.len as nat,
                    ),
                )
            }
            &&& reply.body matches Some((start, end)) ==> {
                &&& start <= end < facts.len
                &&& carries(
                    reply.response,
                    "content-length"@,
                    text::decimal_text((end - start + 1) as nat),
                )
                &&& reply.response.status == 200 || reply.response.status == 206
            }
            &&& reply.response.status == 200 || reply.response.status == 206 ==> {
                &&& carries(reply.response, "content-type"@, "audio/mp4"@)
                &&& carries(reply.response, "accept-ranges"@, "bytes"@)
                &&& facts.modified is Some ==> carries(
                    reply.response,
                    "last-modified"@,
                    timestamp::date_of(facts.modified->0 as int),
                )
            }
        }),
{
    let range = asked_range(headers, facts.len);
    lemma_media_head_is_carried(facts, range, method);
    if exchange::header_text(headers, "range"@) is Some {
        lemma_asked_range_fits(exchange::header_text(headers, "range"@)->0, facts.len);
    }
}

/// The length that an answer with media tells reads back as the number of bytes
/// that are its body, and the body has that many where the file still has them.
pub proof fn lemma_told_length_is_sent(
    method: Method,
    headers: Seq<(Seq<char>, Seq<u8>)>,
    facts: MediaFacts,
    bytes: Seq<u8>,
)
    requires
        method != Method::Head,
        bytes.len() == facts.len,
        facts.len > 0,
        media_answer(method, headers, facts) is Some,
        (media_answer(method, headers, facts)->0).response.status == 200 || (media_answer(
            method,
            headers,
            facts,
        )->0).response.status == 206,
    ensures
        ({
            let reply = media_answer(method, headers, facts)->0;
            &&& reply.body is Some
            &&& exists|told: Seq<char>| #[trigger]
                carries(reply.response, "content-length"@, told) && text::unsigned_value(told)
                    == Some(
                    body_of(bytes, (reply.body->0).0, (reply.body->0).1).len() as u64,
                )
            &&& reply.response.status == 200 ==> body_of(
                bytes,
                (reply.body->0).0,
                (reply.body->0).1,
            ) == bytes
        }),
{
    lemma_media_answer_sends_what_it_tells(method, headers, facts);
    let reply = media_answer(method, headers, facts)->0;
    let (start, end) = reply.body->0;
    lemma_body_has_its_length(bytes, start, end);
    text::lemma_decimal_reads_back((end - start + 1) as u64);
    assert(carries(
        reply.response,
        "content-length"@,
        text::decimal_text((end - start + 1) as nat),
    ));
    if reply.response.status == 200 {
        assert(body_of(bytes, start, end) =~= bytes);
    }
}

/// HEAD is answered as GET is, with the same status and headers, but without a
/// body; only GET can be answered with not modified.
pub proof fn lemma_head_is_get_without_body(
    headers: Seq<(Seq<char>, Seq<u8>)>,
    facts: MediaFacts,
)
    ensures
        media_answer(Method::Head, headers, facts) matches Some(reply) ==> reply.body is None
            && reply.response.status != 304,
        media_answer(Method::Get, headers, facts) matches Some(reply) ==> reply.response.status
            == 304 || media_answer(Method::Head, headers, facts) is Some && (media_answer(
            Method::Head,
            headers,
            facts,
        )->0).response == reply.response,
        media_answer(Method::Get, headers, facts) is None ==> media_answer(
            Method::Head,
            headers,
            facts,
        ) is None,
{
}

/// When media is answered with what status: with 304 where a GET names a second
/// that is not before the file's time; else with 416, which tells the file's
/// length, where there is a range that cannot be satisfied; else with 206 where
/// there is a range, and with 200 where there is none.
pub proof fn lemma_media_status(
    method: Method,
    headers: Seq<(Seq<char>, Seq<u8>)>,
    facts: MediaFacts,
)
    requires
        can_be_dated(facts.modified),
    ensures
        media_answer(method, headers, facts) is Some,
        ({
            let response = (media_answer(method, headers, facts)->0).response;
            let unchanged = method == Method::Get && facts.modified is Some && since_of(
                headers,
            ) is Some && since_of(headers)->0 * 1_000_000_000 >= facts.modified->0;
            let ranged = exchange::header_value(headers, "range"@) is Some;
            let readable = exchange::header_text(headers, "range"@) is Some && byte_range(
                exchange::header_text(headers, "range"@)->0,
                facts.len,
            ) is Some;
            &&& response.status == 304 <==> unchanged
            &&& response.status == 416 <==> !unchanged && ranged && !readable
            &&& response.status == 206 <==> !unchanged && ranged && readable
            &&& response.status == 200 <==> !unchanged && !ranged
            &&& response.status == 416 ==> response.headers == seq![
                ("content-range"@, "bytes */"@ + text::decimal_text(facts.len as nat)),
            ]
            &&& response.status == 304 ==> response.headers.len() == 0
            &&& response.body.len() == 0
        }),
{
    let response = (media_answer(method, headers, facts)->0).response;
    if response.status == 416 {
        assert(response.headers =~= seq![
            ("content-range"@, "bytes */"@ + text::decimal_text(facts.len as nat)),
        ]);
    }
}

/// A client that sends back the date that it was given for a file gets 304 for as
/// long as the file's time is a whole second that has not changed.
pub proof fn lemma_returned_date_is_unmodified(
    headers: Seq<(Seq<char>, Seq<u8>)>,
    facts: MediaFacts,
    second: u64,
)
    requires
        since_of(headers) == Some(second),
        facts.modified is Some,
        second * 1_000_000_000 == facts.modified->0,
    ensures
        media_answer(Method::Get, headers, facts) matches Some(reply) && reply.response.status
            == 304 && reply.body is None,
{
}

proof fn lemma_range_parts(first: Seq<char>, last: Seq<char>, len: u64)
    requires
        text::all_digits(first),
        text::all_digits(last),
        len > 0,
    ensures
        byte_range("bytes="@ + (first + "-"@ + last), len) == if first.len() == 0 {
            suffix_range(last, len)
        } else {
            span_range(first, last, len)
        },
{
    let range = first + "-"@ + last;
    let value = "bytes="@ + range;
    reveal_strlit("bytes=");
    reveal_strlit("-");
    assert(value.take(6) =~= "bytes="@);
    assert(value.skip(6) =~= range);
    assert forall|i: int| 0 <= i < range.len() implies #[trigger] range[i] != ',' by {
        if i < first.len() {
            assert(text::is_digit(first[i]));
        } else if i > first.len() {
            assert(text::is_digit(last[i - first.len() - 1]));
        }
    }
    lemma_dash_is_found(first, last, 0);
    assert(range.take(first.len() as int) =~= first);
    assert(range.skip(first.len() as int + 1) =~= last);
}

/// How ranges are read, of a file of `len` bytes. `bytes=a-b` is from byte `a` to
/// byte `b` or to the end, whichever comes first; it must begin inside the file and
/// not end before it begins. `bytes=a-` is from byte `a` to the end. `bytes=-n` is
/// the last `n` bytes, or all of the file where it has fewer; it must not be of
/// none.
pub proof fn lemma_ranges_are_read(a: u64, b: u64, len: u64)
    requires
        len > 0,
    ensures
        ({
            let from_to = byte_range(
                "bytes="@ + (text::decimal_text(a as nat) + "-"@ + text::decimal_text(b as nat)),
                len,
            );
            let from_on = byte_range(
                "bytes="@ + (text::decimal_text(a as nat) + "-"@ + Seq::<char>::empty()),
                len,
            );
            let at_end = byte_range(
                "bytes="@ + (Seq::<char>::empty() + "-"@ + text::decimal_text(b as nat)),
                len,
            );
            &&& from_to is Some <==> a < len && a <= b
            &&& from_to matches Some((start, end)) ==> start == a && (end == b || b >= len && end
                == len - 1) && end < len
            &&& from_on is Some <==> a < len
            &&& from_on matches Some((start, end)) ==> start == a && end == len - 1
            &&& at_end is Some <==> b > 0
            &&& at_end matches Some((start, end)) ==> end == len - 1 && end - start + 1 <= b && (
            end - start + 1 == b || start == 0)
        }),
{
    let first = text::decimal_text(a as nat);
    let last = text::decimal_text(b as nat);
    text::lemma_decimal_digits(a as nat);
    text::lemma_decimal_digits(b as nat);
    text::lemma_decimal_reads_back(a);
    text::lemma_decimal_reads_back(b);
    lemma_range_parts(first, last, len);
    lemma_range_parts(first, Seq::empty(), len);
    lemma_range_parts(Seq::empty(), last, len);
}

/// Nothing is read as a range that is not in bytes, that lists several, or that is
/// of a file without bytes; and every range that is read lies inside the file.
pub proof fn lemma_other_ranges_are_refused(value: Seq<char>, len: u64)
    ensures
        byte_range(value, len) is Some ==> text::begins_with(value, "bytes="@)
            && !value.contains(',') && value.contains('-') && len > 0,
        byte_range(value, len) matches Some((start, end)) ==> start <= end < len,
{
    reveal_strlit("bytes=");
    reveal_strlit("-");
    if byte_range(value, len) is Some {
        let range = value.skip(6);
        assert(text::after_head(value, "bytes="@) == Some(range));
        assert(value =~= "bytes="@ + range) by {
            assert(value.take(6) == "bytes="@);
        }
        if value.contains(',') {
            let k = choose|k: int| 0 <= k < value.len() && value[k] == ',';
            assert(k >= 6);
            assert(range[k - 6] == ',');
        }
        text::lemma_first_pattern_parts(range, "-"@);
        let (first, last) = text::split_at_first(range, "-"@)->0;
        assert(range[first.len() as int] == '-');
        assert(value[first.len() as int + 6] == '-');
    }
}

/// The bytes of a part of a body come from the same places in the file, and the
/// parts that meet make the whole.
pub proof fn lemma_parts_make_the_file(bytes: Seq<u8>, at: u64)
    requires
        0 < at < bytes.len(),
        bytes.len() <= u64::MAX,
    ensures
        body_of(bytes, 0, (at - 1) as u64) + body_of(bytes, at, (bytes.len() - 1) as u64) == bytes,
{
    assert(body_of(bytes, 0, (at - 1) as u64) + body_of(bytes, at, (bytes.len() - 1) as u64)
        =~= bytes);
}

/// All feeds are ready exactly where none is without metadata; otherwise the
/// answer tells how many are.
pub proof fn lemma_readiness_counts_what_is_missing(missing: usize)
    ensures
        readiness(missing).status == 200 <==> missing == 0,
        missing == 0 ==> readiness(missing).body == "ready"@,
        readiness(missing).status == 503 <==> missing != 0,
        missing != 0 ==> text::occurs_in(
            readiness(missing).body,
            ": "@ + text::decimal_text(missing as nat) + " "@,
        ),
{
    reveal_strlit("metadata cache warming: ");
    reveal_strlit(" feed(s) missing");
    reveal_strlit(": ");
    reveal_strlit(" ");
    if missing != 0 {
        let before = "metadata cache warming: "@.take(22);
        let part = ": "@ + text::decimal_text(missing as nat) + " "@;
        let behind = " feed(s) missing"@.skip(1);
        text::lemma_part_stands(before, part, behind);
        assert(readiness(missing).body =~= before + part + behind);
    }
}

/// With auth on, a user may see what is their own and nothing else: another user
/// is forbidden it, and one who is not known has to say who they are. With auth
/// off everybody may see everything.
pub proof fn lemma_users_see_their_own(
    auth_user: Option<Seq<char>>,
    requested_user: Seq<char>,
)
    ensures
        refusal(true, auth_user, requested_user) is None <==> auth_user == Some(requested_user),
        refusal(true, None, requested_user) matches Some(response) && response.status == 401,
        auth_user is Some && auth_user->0 != requested_user ==> (refusal(
            true,
            auth_user,
            requested_user,
        ) matches Some(response) && response.status == 403 && response.body.len() == 0),
        refusal(false, auth_user, requested_user) is None,
{
}

/// A base URL is a scheme and a host. A proxy says both, in `x-forwarded-proto`
/// and `x-forwarded-host`; where it does not, the scheme is `http` and the host is
/// the one that the request is for.
pub proof fn lemma_base_url_is_of_the_proxy(headers: Seq<(Seq<char>, Seq<u8>)>)
    ensures
        exchange::header_text(headers, "x-forwarded-proto"@) matches Some(proto)
            ==> text::begins_with(base_url(headers), proto + "://"@),
        exchange::header_text(headers, "x-forwarded-proto"@) is None ==> text::begins_with(
            base_url(headers),
            "http://"@,
        ),
        exchange::header_text(headers, "x-forwarded-host"@) matches Some(host)
            ==> text::ends_with(base_url(headers), "://"@ + host),
        exchange::header_value(headers, "x-forwarded-host"@) is None && exchange::header_text(
            headers,
            "host"@,
        ) is Some ==> text::ends_with(
            base_url(headers),
            "://"@ + exchange::header_text(headers, "host"@)->0,
        ),
        exchange::header_text(headers, "x-forwarded-proto"@) is Some && exchange::header_text(
            headers,
            "x-forwarded-host"@,
        ) is Some ==> base_url(headers) == exchange::header_text(
            headers,
            "x-forwarded-proto"@,
        )->0 + "://"@ + exchange::header_text(headers, "x-forwarded-host"@)->0,
        exchange::header_value(headers, "x-forwarded-proto"@) is None && exchange::header_value(
            headers,
            "x-forwarded-host"@,
        ) is None && exchange::header_text(headers, "host"@) is Some ==> base_url(headers)
            == "http://"@ + exchange::header_text(headers, "host"@)->0,
        exchange::header_value(headers, "x-forwarded-host"@) is None && exchange::header_text(
            headers,
            "host"@,
        ) is None ==> text::ends_with(base_url(headers), "://localhost"@),
{
    reveal_strlit("http");
    reveal_strlit("://");
    reveal_strlit("http://");
    reveal_strlit("localhost");
    reveal_strlit("://localhost");
    let url = base_url(headers);
    let scheme = match exchange::header_text(headers, "x-forwarded-proto"@) {
        Some(proto) => proto,
        None => "http"@,
    };
    let host_header = if exchange::header_value(headers, "x-forwarded-host"@) is Some {
        "x-forwarded-host"@
    } else {
        "host"@
    };
    let host = match exchange::header_text(headers, host_header) {
        Some(host) => host,
        None => "localhost"@,
    };
    assert(url.take((scheme + "://"@).len() as int) =~= scheme + "://"@);
    assert(url.skip(scheme.len() as int) =~= "://"@ + host);
    assert("http"@ + "://"@ =~= "http://"@);
    assert("://"@ + "localhost"@ =~= "://localhost"@);
}

/// A refresh is asked for with `1` or `true`, and with nothing else.
pub proof fn lemma_refresh_is_asked_for(value: Seq<char>)
    ensures
        asks_for_refresh(Some(value)) <==> value == "1"@ || value == "true"@,
        !asks_for_refresh(None),
{
}

/// A feed that has metadata is answered with its RSS and with the date of its last
/// refresh, unless a request that asked for no refresh names a second that is not
/// before it: that is answered with not modified. One that has none is answered
/// with 503. Whether a refresh was asked for, and what came of it, is told by a
/// header that is there in no other case.
pub proof fn lemma_feed_is_answered(
    headers: Seq<(Seq<char>, Seq<u8>)>,
    user: Seq<char>,
    target: FeedTarget,
    refresh: Option<RefreshOutcome>,
    cached: Option<CachedView>,
)
    requires
        cached matches Some(kept) ==> timestamp::has_http_date(
            timestamp::unix_nanos(kept.last_successful_refresh),
        ),
    ensures
        answer_of(headers, user, target, refresh, cached) is Some,
        ({
            let response = answer_of(headers, user, target, refresh, cached)->0;
            let unchanged = refresh is None && cached is Some && since_of(headers) is Some && (
            cached->0.last_successful_refresh.second < since_of(headers)->0
                || cached->0.last_successful_refresh.second == since_of(headers)->0
                && cached->0.last_successful_refresh.nanos == 0);
            &&& response.status == 503 <==> cached is None
            &&& response.status == 304 <==> unchanged
            &&& response.status == 200 <==> cached is Some && !unchanged
            &&& response.status == 304 ==> response.headers.len() == 0 && response.body.len() == 0
            &&& response.status == 200 ==> {
                &&& response.body == rss_feed::feed_text(
                    base_url(headers),
                    user,
                    target.service@,
                    target.identity.feed,
                    cached->0.items,
                    cached->0.last_successful_refresh,
                )
                &&& carries(response, "content-type"@, "application/rss+xml; charset=utf-8"@)
                &&& carries(
                    response,
                    "last-modified"@,
                    timestamp::date_of(
                        timestamp::unix_nanos(cached->0.last_successful_refresh),
                    ),
                )
            }
            &&& refresh is Some ==> carries(
                response,
                "x-yt-dlp-feed-refresh"@,
                told_state(refresh->0, cached is Some).header_text(),
            )
            &&& refresh is None ==> forall|value: Seq<char>|
                !#[trigger] carries(response, "x-yt-dlp-feed-refresh"@, value)
        }),
{
    let response = answer_of(headers, user, target, refresh, cached)->0;
    reveal_strlit("x-yt-dlp-feed-refresh");
    reveal_strlit("content-type");
    reveal_strlit("last-modified");
    assert("x-yt-dlp-feed-refresh"@.len() == 21 && "content-type"@.len() == 12
        && "last-modified"@.len() == 13);
    if response.status != 304 {
        if refresh is Some {
            assert(response.headers[response.headers.len() - 1].0 == "x-yt-dlp-feed-refresh"@);
        }
        if cached is Some {
            assert(response.headers[0] == (
                "content-type"@,
                "application/rss+xml; charset=utf-8"@,
            ));
            assert(response.headers[1] == (
                "last-modified"@,
                timestamp::date_of(timestamp::unix_nanos(cached->0.last_successful_refresh)),
            ));
        }
    }
}

/// What an answer tells of a refresh: `ready` where it succeeded; where it failed
/// or another one runs, `stale` or `refreshing` with metadata and `error` or
/// `warming` without.
pub proof fn lemma_told_states(kept: MetadataCacheState, cached: bool)
    ensures
        told_state(RefreshOutcome::Refreshed, cached).header_text() == "ready"@,
        told_state(RefreshOutcome::AlreadyRunning(kept), true).header_text() == "refreshing"@,
        told_state(RefreshOutcome::AlreadyRunning(kept), false).header_text() == "warming"@,
        told_state(RefreshOutcome::Failed(kept), true).header_text() == "stale"@,
        told_state(RefreshOutcome::Failed(kept), false).header_text() == "error"@,
{
}

/// The first item with an id has that id, is one of the items, and none before it
/// has that id; where there is none, no item has it.
pub proof fn lemma_first_item_is_first(items: Seq<ItemView>, item_id: Seq<char>)
    ensures
        match first_item(items, item_id) {
            Some(found) => found.id == item_id && exists|i: int|
                {
                    &&& 0 <= i < items.len()
                    &&& #[trigger] items[i] == found
                    &&& forall|j: int| 0 <= j < i ==> (#[trigger] items[j]).id != item_id
                },
            None => forall|j: int| 0 <= j < items.len() ==> (#[trigger] items[j]).id != item_id,
        },
    decreases items.len(),
{
    if items.len() > 0 && items[0].id != item_id {
        let rest = items.skip(1);
        lemma_first_item_is_first(rest, item_id);
        match first_item(items, item_id) {
            Some(found) => {
                let k = choose|i: int|
                    {
                        &&& 0 <= i < rest.len()
                        &&& #[trigger] rest[i] == found
                        &&& forall|j: int| 0 <= j < i ==> (#[trigger] rest[j]).id != item_id
                    };
                assert(items[k + 1] == found);
                assert forall|j: int| 0 <= j < k + 1 implies (#[trigger] items[j]).id
                    != item_id by {
                    if j > 0 {
                        assert(items[j] == rest[j - 1]);
                    }
                }
            },
            None => {
                assert forall|j: int| 0 <= j < items.len() implies (#[trigger] items[j]).id
                    != item_id by {
                    if j > 0 {
                        assert(items[j] == rest[j - 1]);
                    }
                }
            },
        }
    } else if items.len() > 0 {
        assert(items[0].id == item_id);
    }
}

/// Whether a feed of an account has an item in memory.
pub open spec fn has_item(
    state: CacheView,
    user: Seq<char>,
    service: ServiceView,
    feed: SoundCloudFeedKind,
    item: ItemView,
) -> bool {
    let identity = IdentityView { user, service: service.kind, name: service.name, feed };
    state.memory.contains_key(identity) && state.memory[identity].items.contains(item)
}

/// An item is found for an account exactly where one of the account's feeds has
/// it in memory, and what is found is such an item.
pub proof fn lemma_items_are_found_in_feeds(
    state: CacheView,
    user: Seq<char>,
    service: ServiceView,
    feeds: Seq<SoundCloudFeedKind>,
    item_id: Seq<char>,
)
    ensures
        match item_in_feeds(state, user, service, feeds, item_id) {
            Some(found) => found.id == item_id && exists|f: int|
                0 <= f < feeds.len() && has_item(state, user, service, #[trigger] feeds[f], found),
            None => forall|f: int, item: ItemView|
                0 <= f < feeds.len() && #[trigger] has_item(state, user, service, feeds[f], item)
                    ==> item.id != item_id,
        },
    decreases feeds.len(),
{
    if feeds.len() > 0 {
        let identity = IdentityView {
            user,
            service: service.kind,
            name: service.name,
            feed: feeds[0],
        };
        let rest = feeds.skip(1);
        lemma_items_are_found_in_feeds(state, user, service, rest, item_id);
        if state.memory.contains_key(identity) {
            lemma_first_item_is_first(state.memory[identity].items, item_id);
        }
        match item_in_feeds(state, user, service, feeds, item_id) {
            Some(found) => {
                if has_item(state, user, service, feeds[0], found) {
                } else {
                    let f = choose|f: int|
                        0 <= f < rest.len() && has_item(
                            state,
                            user,
                            service,
                            #[trigger] rest[f],
                            found,
                        );
                    assert(feeds[f + 1] == rest[f]);
                }
            },
            None => {
                assert forall|f: int, item: ItemView|
                    0 <= f < feeds.len() && #[trigger] has_item(
                        state,
                        user,
                        service,
                        feeds[f],
                        item,
                    ) implies item.id != item_id by {
                    if f > 0 {
                        assert(feeds[f] == rest[f - 1]);
                        assert(has_item(state, user, service, rest[f - 1], item));
                    } else {
                        let items = state.memory[identity].items;
                        let k = choose|k: int| 0 <= k < items.len() && items[k] == item;
                        assert(items[k].id != item_id);
                    }
                }
            },
        }
    }
}

/// The second that a request names is the one that its `if-modified-since` is the
/// date of, and no other header names one.
pub proof fn lemma_named_second(headers: Seq<(Seq<char>, Seq<u8>)>)
    ensures
        exchange::header_text(headers, "if-modified-since"@) matches Some(date) ==> since_of(
            headers,
        ) == timestamp::http_date_second(date),
        exchange::header_text(headers, "if-modified-since"@) is None ==> since_of(headers) is None,
{
}

/// A request that asks for a refresh puts a manual one of its feed, from the feed's
/// source, behind the manual ones that wait, unless one of the feed runs, and waits
/// for it; any other request asks for nothing. Neither loses metadata.
pub proof fn lemma_request_asks_for_its_refresh(
    state: CacheView,
    target: FeedTarget,
    refresh: Option<Seq<char>>,
    waiter: u64,
    read: Option<CachedView>,
)
    ensures
        ({
            let after = after_begin(state, target, refresh, waiter, read);
            let feed = target.identity@;
            let running = cache::runtime_of(state, feed).refreshing;
            &&& (refresh == Some("1"@) || refresh == Some("true"@)) && !running ==> {
                &&& after.manual.len() == state.manual.len() + 1
                &&& after.manual.drop_last() == state.manual
                &&& after.manual.last().identity == feed
                &&& after.manual.last().source_url == feed.feed.source(target.service@)
                &&& cache::runtime_of(after, feed).refreshing
                &&& cache::runtime_of(after, feed).waiters.contains(waiter)
            }
            &&& refresh != Some("1"@) && refresh != Some("true"@) || running ==> after.manual
                == state.manual && cache::runtime_of(after, feed) == cache::runtime_of(state, feed)
            &&& after.scheduled == state.scheduled
            &&& state.memory.contains_key(feed) ==> cache::memory_of(after, feed)
                == cache::memory_of(state, feed)
            &&& !state.memory.contains_key(feed) && cache::is_kept(read) ==> cache::memory_of(
                after,
                feed,
            ) == read
        }),
{
    let after = after_begin(state, target, refresh, waiter, read);
    let feed = target.identity@;
    let waiters = cache::runtime_of(after, feed).waiters;
    if asks_for_refresh(refresh) && !cache::runtime_of(state, feed).refreshing {
        assert(after.manual.drop_last() =~= state.manual);
        assert(waiters[waiters.len() - 1] == waiter);
    }
}

/// A request that finds no metadata and has asked for no refresh puts a scheduled
/// one of its feed, from the feed's source, behind the scheduled ones that wait,
/// unless one of the feed runs; any other request asks for nothing when it is
/// answered.
pub proof fn lemma_missing_feed_is_warmed(
    state: CacheView,
    target: FeedTarget,
    refresh: Option<RefreshOutcome>,
    read: Option<CachedView>,
)
    ensures
        ({
            let after = after_finish(state, target, refresh, read);
            let feed = target.identity@;
            let running = cache::runtime_of(state, feed).refreshing;
            let empty = !state.memory.contains_key(feed) && !cache::is_kept(read);
            &&& refresh is None && empty && !running ==> {
                &&& after.scheduled.len() == state.scheduled.len() + 1
                &&& after.scheduled.drop_last() == state.scheduled
                &&& after.scheduled.last().identity == feed
                &&& after.scheduled.last().source_url == feed.feed.source(target.service@)
                &&& cache::runtime_of(after, feed).refreshing
                &&& cache::runtime_of(after, feed).waiters == cache::runtime_of(
                    state,
                    feed,
                ).waiters
            }
            &&& refresh is Some || !empty || running ==> after.scheduled == state.scheduled
                && cache::runtime_of(after, feed) == cache::runtime_of(state, feed)
            &&& after.manual == state.manual
        }),
{
    let after = after_finish(state, target, refresh, read);
    if after.scheduled.len() > state.scheduled.len() {
        assert(after.scheduled.drop_last() =~= state.scheduled);
    }
}

/// Cached audio is served exactly while it is fresh. What is not is downloaded, but
/// never for a request that only asks about it.
pub proof fn lemma_audio_is_served_while_fresh(method: Method, fresh: bool)
    ensures
        audio_decision(method, fresh) == AudioDecision::Serve <==> fresh,
        audio_decision(Method::Head, fresh) != AudioDecision::Download,
        !fresh && method != Method::Head ==> audio_decision(method, fresh)
            == AudioDecision::Download,
        audio_decision(method, fresh) == AudioDecision::NotFound ==> method == Method::Head,
{
}

/// A download that is refused because of the limit is answered with 503, and with
/// when to ask again.
pub proof fn lemma_limit_says_when_to_ask_again()
    ensures
        limit_answer().status == 503,
        carries(limit_answer(), "retry-after"@, "30"@),
        limit_answer().body == "maximum concurrent media downloads reached"@,
{
    assert(limit_answer().headers[1] == ("retry-after"@, "30"@));
}

/// Different items have different keys, and so different files, unless two
/// different sequences of bytes have the same SHA-256 digest. Neither the user nor
/// the account may hold a zero character.
pub proof fn lemma_items_have_their_own_audio(
    data_dir: Seq<char>,
    left: (Seq<char>, Seq<char>, Seq<char>),
    right: (Seq<char>, Seq<char>, Seq<char>),
)
    requires
        crate::digest::has_no_nul(left.0) && crate::digest::has_no_nul(left.1),
        crate::digest::has_no_nul(right.0) && crate::digest::has_no_nul(right.1),
        media::is_cache_key(audio_key(left.0, left.1, left.2)),
        media::is_cache_key(audio_key(right.0, right.1, right.2)),
        media::media_path_of(data_dir, audio_key(left.0, left.1, left.2)) == media::media_path_of(
            data_dir,
            audio_key(right.0, right.1, right.2),
        ),
    ensures
        left == right || exists|a: Seq<u8>, b: Seq<u8>| crate::digest::is_collision(a, b),
{
    reveal_strlit("soundcloud");
    media::lemma_media_file_of_key(
        data_dir,
        audio_key(left.0, left.1, left.2),
        audio_key(right.0, right.1, right.2),
    );
    crate::digest::lemma_digests_tell_labels_apart(
        (left.0, "soundcloud"@, left.1, left.2),
        (right.0, "soundcloud"@, right.1, right.2),
    );
}

} // verus!
