//! The index page.
use vstd::prelude::*;

use crate::cache;
use crate::config::Config;
use crate::config::ServiceConfig;
use crate::identity::FeedIdentity;
use crate::markup;
use crate::metadata;
use crate::metadata::FeedEntry;
use crate::metadata::FeedStatus;
use crate::metadata::FeedStatusView;
use crate::metadata::IndexJson;
use crate::text;
use crate::timestamp;
use crate::urls;

verus! {

/// The page before its rows.
pub const PAGE_START: &'static str = "<!doctype html>
<html lang=\"en\">
<head>
  <meta charset=\"utf-8\">
  <meta name=\"viewport\" content=\"width=device-width, initial-scale=1\">
  <title>yt-dlp-feed</title>
  <style>
    :root { color-scheme: light dark; font-family: ui-sans-serif, system-ui, -apple-system, BlinkMacSystemFont, \"Segoe UI\", sans-serif; }
    body { margin: 0; background: #f7f8fa; color: #17202a; }
    main { max-width: 820px; margin: 0 auto; padding: 48px 20px; }
    h1 { margin: 0 0 8px; font-size: clamp(2rem, 4vw, 3rem); line-height: 1; }
    p { margin: 0 0 28px; color: #53606d; }
    .feeds { display: grid; gap: 10px; }
    .feed { display: grid; grid-template-columns: 44px 1fr auto; gap: 14px; align-items: center; padding: 14px; color: inherit; border: 1px solid #d9dee5; border-radius: 8px; background: #fff; }
    .feed:hover { border-color: #f47621; box-shadow: 0 8px 22px rgba(23, 32, 42, .08); }
    .icon { display: grid; width: 40px; height: 40px; place-items: center; border-radius: 8px; background: #f47621; color: #fff; font-size: 24px; font-weight: 700; }
    a { color: inherit; }
    .source { text-decoration: none; }
    .source:hover { color: #d95f0e; }
    .source-url:hover { color: #d95f0e; }
    strong { display: block; font-size: 1rem; }
    small { display: block; margin-top: 4px; color: #65717d; overflow-wrap: anywhere; }
    .actions { display: flex; gap: 6px; flex-wrap: wrap; justify-content: end; }
    .rss { padding: 6px 8px; border-radius: 6px; background: #eef2f6; color: #394552; font-weight: 700; font-size: .75rem; text-decoration: none; }
    .rss.subtle { font-weight: 600; }
    .rss:hover { background: #f47621; color: #fff; }
    @media (prefers-color-scheme: dark) {
      body { background: #111418; color: #edf1f5; }
      p, small { color: #a8b1ba; }
      .feed { background: #181d23; border-color: #303842; }
      .rss { background: #252c34; color: #dbe2e8; }
    }
  </style>
</head>
<body>
  <main>
    <h1>yt-dlp-feed</h1>
    <p>Podcast feeds generated from configured yt-dlp service accounts.</p>
    <section class=\"feeds\" aria-label=\"Available feeds\">
      ";

/// The page behind its rows.
pub const PAGE_END: &'static str = "
    </section>
  </main>
</body>
</html>";

/// Before the source of a row.
pub const ROW_START: &'static str = "<article class=\"feed\">
  <span class=\"icon\" aria-hidden=\"true\">☊</span>
  <span>
    <a class=\"source\" href=\"";

/// Between the source and the title.
pub const SOURCE_TITLE: &'static str = "\"><strong>";

/// Between the title and the source.
pub const TITLE_URL: &'static str = "</strong></a>
    <small><a class=\"source-url\" href=\"";

/// Between the source and its text.
pub const URL_TEXT: &'static str = "\">";

/// Between the text of the source and the state.
pub const TEXT_STATE: &'static str = "</a></small>
    <small>State: ";

/// Between the state and the time of the last fetch.
pub const STATE_FETCHED: &'static str = " · Last fetched (UTC): ";

/// Between the time of the last fetch and the route.
pub const FETCHED_PATH: &'static str = "</small>
  </span>
  <span class=\"actions\">
    <a class=\"rss\" href=\"";

/// Between the route and its label.
pub const PATH_LABEL: &'static str = "\" aria-label=\"RSS feed for ";

/// Between the label and the route of a refresh.
pub const LABEL_REFRESH: &'static str = "\">RSS</a>
    <a class=\"rss subtle\" href=\"";

/// Between the route of a refresh and its label.
pub const REFRESH_LABEL: &'static str = "\" aria-label=\"Refresh RSS feed for ";

/// Behind the label of a refresh.
pub const ROW_END: &'static str = "\">Refresh</a>
  </span>
</article>";

/// Whether what is told of a feed is of this one.
pub open spec fn tells_of(status: FeedStatusView, feed: FeedEntry) -> bool {
    &&& status.user == feed.identity.user
    &&& status.service == feed.service.kind.path()
    &&& status.name == feed.service.name
    &&& status.feed == feed.identity.feed.slug_text()
}

/// The first that is told of a feed.
pub open spec fn first_status(feeds: Seq<FeedStatusView>, feed: FeedEntry) -> Option<FeedStatusView>
    decreases feeds.len(),
{
    if feeds.len() == 0 {
        None
    } else if tells_of(feeds[0], feed) {
        Some(feeds[0])
    } else {
        first_status(feeds.skip(1), feed)
    }
}

/// The state that a row shows.
pub open spec fn state_text(status: Option<FeedStatusView>) -> Seq<char> {
    match status {
        Some(told) => told.metadata_cache.state.header_text(),
        None => "missing"@,
    }
}

/// The time that a row shows.
pub open spec fn fetched_text(status: Option<FeedStatusView>) -> Seq<char> {
    match status {
        Some(told) => match told.metadata_cache.last_successful_refresh {
            Some(at) => timestamp::rfc3339_text(at.second as i64, at.nanos as u32),
            None => "never"@,
        },
        None => "never"@,
    }
}

/// The row of a feed.
#[verifier::opaque]
pub open spec fn row_text(feed: FeedEntry, status: Option<FeedStatusView>) -> Seq<char> {
    let kind = feed.identity.feed;
    let source = kind.source(feed.service);
    let title = metadata::title_of(feed.service, kind);
    let path = urls::feed_route(
        feed.identity.user,
        feed.service.kind.path(),
        feed.service.name,
        kind,
    );
    ROW_START@ + markup::attr_text(source) + SOURCE_TITLE@ + markup::html_text(title) + TITLE_URL@
        + markup::attr_text(source) + URL_TEXT@ + markup::html_text(source) + TEXT_STATE@
        + markup::html_text(state_text(status)) + STATE_FETCHED@ + markup::html_text(
        fetched_text(status),
    ) + FETCHED_PATH@ + markup::attr_text(path) + PATH_LABEL@ + markup::attr_text(title)
        + LABEL_REFRESH@ + markup::attr_text(path + "?refresh=1"@) + REFRESH_LABEL@
        + markup::attr_text(title) + ROW_END@
}

/// The rows of feeds, in their order.
pub open spec fn rows_text(
    entries: Seq<FeedEntry>,
    feeds: Seq<FeedStatusView>,
    only_user: Option<Seq<char>>,
) -> Seq<char>
    decreases entries.len(),
{
    if entries.len() == 0 {
        Seq::empty()
    } else {
        let before = rows_text(entries.drop_last(), feeds, only_user);
        if cache::is_listed(entries.last().identity, only_user) {
            before + row_text(entries.last(), first_status(feeds, entries.last()))
        } else {
            before
        }
    }
}

/// The page with rows, or with a sentence where there are none.
pub open spec fn page_text(rows: Seq<char>) -> Seq<char> {
    if rows.len() == 0 {
        PAGE_START@ + "<p>No feeds are configured.</p>"@ + PAGE_END@
    } else {
        PAGE_START@ + rows + PAGE_END@
    }
}

fn matches_feed(
    status: &FeedStatus,
    user: &str,
    service: &str,
    account: &str,
    feed: &str,
) -> (yes: bool)
    ensures
        yes == (status.user@ == user@ && status.service@ == service@ && status.name@ == account@
            && status.feed@ == feed@),
{
    text::same_text(status.user.as_str(), user) && text::same_text(
        status.service.as_str(),
        service,
    ) && text::same_text(status.name.as_str(), account) && text::same_text(
        status.feed.as_str(),
        feed,
    )
}

fn find_status<'a>(
    feeds: &'a Vec<FeedStatus>,
    identity: &FeedIdentity,
    service: &ServiceConfig,
) -> (status: Option<&'a FeedStatus>)
    ensures
        match status {
            Some(found) => first_status(
                metadata::feeds_view(feeds@),
                FeedEntry { identity: identity@, service: service@ },
            ) == Some(found@),
            None => first_status(
                metadata::feeds_view(feeds@),
                FeedEntry { identity: identity@, service: service@ },
            ) is None,
        },
{
    let ghost all = metadata::feeds_view(feeds@);
    let ghost feed = FeedEntry { identity: identity@, service: service@ };
    let mut i: usize = 0;
    assert(all.skip(0) == all);
    while i < feeds.len()
        invariant
            i <= feeds@.len(),
            all == metadata::feeds_view(feeds@),
            feed == (FeedEntry { identity: identity@, service: service@ }),
            first_status(all, feed) == first_status(all.skip(i as int), feed),
        decreases feeds@.len() - i,
    {
        assert(all.skip(i as int)[0] == feeds@[i as int]@);
        if matches_feed(
            &feeds[i],
            identity.user.as_str(),
            service.kind.as_path(),
            service.name.as_str(),
            identity.feed.slug(),
        ) {
            return Some(&feeds[i]);
        }
        assert(all.skip(i as int).skip(1) == all.skip(i + 1));
        i = i + 1;
    }
    None
}

fn append_attr(page: &mut String, value: &str)
    ensures
        final(page)@ == old(page)@ + markup::attr_text(value@),
{
    let escaped: String = markup::escape_attr(value);
    page.append(escaped.as_str());
}

fn append_html(page: &mut String, value: &str)
    ensures
        final(page)@ == old(page)@ + markup::html_text(value@),
{
    let escaped: String = markup::escape_html(value);
    page.append(escaped.as_str());
}

/// What is told of a feed, if anything is.
pub open spec fn optional_status(status: Option<&FeedStatus>) -> Option<FeedStatusView> {
    match status {
        Some(told) => Some(told@),
        None => None,
    }
}

fn render_row(
    identity: &FeedIdentity,
    service: &ServiceConfig,
    status: Option<&FeedStatus>,
) -> (row: String)
    ensures
        row@ == row_text(
            FeedEntry { identity: identity@, service: service@ },
            optional_status(status),
        ),
{
    let path: String = urls::feed_path(
        identity.user.as_str(),
        service.kind.as_path(),
        service.name.as_str(),
        identity.feed,
    );
    let mut refresh_path: String = path.clone();
    refresh_path.append("?refresh=1");
    let source_url: String = identity.feed.source_url(service);
    let title: String = metadata::feed_title(service, identity.feed);
    let state: &str = match status {
        Some(told) => told.metadata_cache.state.as_header_value(),
        None => "missing",
    };
    let last_fetched: String = match status {
        Some(told) => match &told.metadata_cache.last_successful_refresh {
            Some(at) => timestamp::rfc3339(at),
            None => "never".to_owned(),
        },
        None => "never".to_owned(),
    };
    let mut row: String = ROW_START.to_owned();
    append_attr(&mut row, source_url.as_str());
    row.append(SOURCE_TITLE);
    append_html(&mut row, title.as_str());
    row.append(TITLE_URL);
    append_attr(&mut row, source_url.as_str());
    row.append(URL_TEXT);
    append_html(&mut row, source_url.as_str());
    row.append(TEXT_STATE);
    append_html(&mut row, state);
    row.append(STATE_FETCHED);
    append_html(&mut row, last_fetched.as_str());
    row.append(FETCHED_PATH);
    append_attr(&mut row, path.as_str());
    row.append(PATH_LABEL);
    append_attr(&mut row, title.as_str());
    row.append(LABEL_REFRESH);
    append_attr(&mut row, refresh_path.as_str());
    row.append(REFRESH_LABEL);
    append_attr(&mut row, title.as_str());
    row.append(ROW_END);
    proof {
        reveal(row_text);
    }
    row
}

/// The index page with all configured feeds.
pub fn render_index(config: &Config, index: &IndexJson) -> (page: String)
    ensures
        page@ == page_text(
            rows_text(
                metadata::configured(config.users@),
                metadata::feeds_view(index.feeds@),
                None,
            ),
        ),
{
    render_index_for_user(config, index, None)
}

/// The index page with the feeds that are configured for one user, or for all.
pub fn render_index_for_user(config: &Config, index: &IndexJson, only_user: Option<&str>) -> (page:
    String)
    ensures
        page@ == page_text(
            rows_text(
                metadata::configured(config.users@),
                metadata::feeds_view(index.feeds@),
                cache::optional_str(only_user),
            ),
        ),
{
    let entries: Vec<(FeedIdentity, ServiceConfig)> = metadata::configured_feeds(&config.users);
    let ghost all = metadata::configured(config.users@);
    let ghost feeds = metadata::feeds_view(index.feeds@);
    let mut rows: String = String::new();
    let mut i: usize = 0;
    while i < entries.len()
        invariant
            i <= entries@.len(),
            metadata::entries_view(entries@) == all,
            feeds == metadata::feeds_view(index.feeds@),
            rows@ == rows_text(all.take(i as int), feeds, cache::optional_str(only_user)),
        decreases entries@.len() - i,
    {
        assert(all.take(i + 1).drop_last() == all.take(i as int));
        assert(all[i as int] == FeedEntry {
            identity: entries@[i as int].0@,
            service: entries@[i as int].1@,
        });
        let wanted: bool = match only_user {
            Some(user) => text::same_text(entries[i].0.user.as_str(), user),
            None => true,
        };
        if wanted {
            let status: Option<&FeedStatus> = find_status(
                &index.feeds,
                &entries[i].0,
                &entries[i].1,
            );
            let row: String = render_row(&entries[i].0, &entries[i].1, status);
            rows.append(row.as_str());
        }
        i = i + 1;
    }
    assert(all.take(all.len() as int) == all);
    if rows.as_str().is_empty() {
        rows.append("<p>No feeds are configured.</p>");
        assert(rows@ =~= "<p>No feeds are configured.</p>"@);
    }
    let mut page: String = PAGE_START.to_owned();
    page.append(rows.as_str());
    page.append(PAGE_END);
    page
}

/// The route that a row links to.
pub open spec fn link_of(feed: FeedEntry) -> Seq<char> {
    urls::feed_route(
        feed.identity.user,
        feed.service.kind.path(),
        feed.service.name,
        feed.identity.feed,
    )
}

proof fn lemma_row_links_its_feed(feed: FeedEntry, status: Option<FeedStatusView>)
    ensures
        text::occurs_in(row_text(feed, status), link_of(feed)),
{
    reveal(row_text);
    let kind = feed.identity.feed;
    let source = kind.source(feed.service);
    let title = metadata::title_of(feed.service, kind);
    let path = link_of(feed);
    urls::lemma_routes_are_routes(
        feed.identity.user,
        feed.service.kind.path(),
        feed.service.name,
        kind,
        Seq::empty(),
    );
    assert(markup::is_plain(path)) by {
        assert forall|i: int| 0 <= i < path.len() implies #[trigger] path[i] != '&' && path[i]
            != '<' && path[i] != '>' && path[i] != '"' by {
            assert(urls::is_route_char(path[i]));
        }
    }
    markup::lemma_plain_text_is_kept(path);
    let before = ROW_START@ + markup::attr_text(source) + SOURCE_TITLE@ + markup::html_text(title)
        + TITLE_URL@ + markup::attr_text(source) + URL_TEXT@ + markup::html_text(source)
        + TEXT_STATE@ + markup::html_text(state_text(status)) + STATE_FETCHED@ + markup::html_text(
        fetched_text(status),
    ) + FETCHED_PATH@;
    let behind = PATH_LABEL@ + markup::attr_text(title) + LABEL_REFRESH@ + markup::attr_text(
        path + "?refresh=1"@,
    ) + REFRESH_LABEL@ + markup::attr_text(title) + ROW_END@;
    assert(row_text(feed, status) =~= before + path + behind);
    text::lemma_part_stands(before, path, behind);
}

proof fn lemma_row_is_among_rows(
    entries: Seq<FeedEntry>,
    feeds: Seq<FeedStatusView>,
    only_user: Option<Seq<char>>,
    i: int,
)
    requires
        0 <= i < entries.len(),
        cache::is_listed(entries[i].identity, only_user),
    ensures
        text::occurs_in(
            rows_text(entries, feeds, only_user),
            row_text(entries[i], first_status(feeds, entries[i])),
        ),
    decreases entries.len(),
{
    let shorter = entries.drop_last();
    let before = rows_text(shorter, feeds, only_user);
    let row = row_text(entries[i], first_status(feeds, entries[i]));
    let rows = rows_text(entries, feeds, only_user);
    if i == entries.len() - 1 {
        text::lemma_part_stands(before, row, Seq::empty());
        assert(rows =~= before + row + Seq::<char>::empty());
    } else {
        lemma_row_is_among_rows(shorter, feeds, only_user, i);
        if cache::is_listed(entries.last().identity, only_user) {
            let last = row_text(entries.last(), first_status(feeds, entries.last()));
            text::lemma_part_stands(Seq::empty(), before, last);
            assert(rows =~= Seq::<char>::empty() + before + last);
            text::lemma_occurrence_in_part(rows, before, row);
        }
    }
}

/// The index page links every configured feed of the user that it is for.
pub proof fn lemma_index_links_every_feed(
    entries: Seq<FeedEntry>,
    feeds: Seq<FeedStatusView>,
    only_user: Option<Seq<char>>,
    i: int,
)
    requires
        0 <= i < entries.len(),
        cache::is_listed(entries[i].identity, only_user),
    ensures
        text::occurs_in(page_text(rows_text(entries, feeds, only_user)), link_of(entries[i])),
{
    let rows = rows_text(entries, feeds, only_user);
    let status = first_status(feeds, entries[i]);
    let row = row_text(entries[i], status);
    lemma_row_links_its_feed(entries[i], status);
    lemma_row_is_among_rows(entries, feeds, only_user, i);
    text::lemma_occurrence_in_part(rows, row, link_of(entries[i]));
    let at = choose|at: int| text::stands_at(rows, link_of(entries[i]), at);
    lemma_link_is_not_empty(entries[i]);
    assert(rows.len() > 0);
    text::lemma_part_stands(PAGE_START@, rows, PAGE_END@);
    text::lemma_occurrence_in_part(page_text(rows), rows, link_of(entries[i]));
}

proof fn lemma_link_is_not_empty(feed: FeedEntry)
    ensures
        link_of(feed).len() > 0,
{
    reveal_strlit("feed.xml");
    reveal_strlit("likes.xml");
}

/// What is told of a feed is the first that is told of this one among all that is
/// told; where nothing is, nothing among it is of this feed.
pub proof fn lemma_first_status_is_of_its_feed(feeds: Seq<FeedStatusView>, feed: FeedEntry)
    ensures
        match first_status(feeds, feed) {
            Some(told) => {
                &&& feeds.contains(told)
                &&& told.user == feed.identity.user
                &&& told.service == feed.service.kind.path()
                &&& told.name == feed.service.name
                &&& told.feed == feed.identity.feed.slug_text()
            },
            None => forall|j: int|
                0 <= j < feeds.len() ==> !((#[trigger] feeds[j]).user == feed.identity.user
                    && feeds[j].service == feed.service.kind.path() && feeds[j].name
                    == feed.service.name && feeds[j].feed == feed.identity.feed.slug_text()),
        },
    decreases feeds.len(),
{
    if feeds.len() > 0 && !tells_of(feeds[0], feed) {
        let rest = feeds.skip(1);
        lemma_first_status_is_of_its_feed(rest, feed);
        match first_status(feeds, feed) {
            Some(told) => {
                let k = choose|k: int| 0 <= k < rest.len() && rest[k] == told;
                assert(feeds[k + 1] == told);
            },
            None => {
                assert forall|j: int| 0 <= j < feeds.len() implies !((#[trigger] feeds[j]).user
                    == feed.identity.user && feeds[j].service == feed.service.kind.path()
                    && feeds[j].name == feed.service.name && feeds[j].feed
                    == feed.identity.feed.slug_text()) by {
                    if j > 0 {
                        assert(feeds[j] == rest[j - 1]);
                    }
                }
            },
        }
    } else if feeds.len() > 0 {
        assert(feeds[0] == first_status(feeds, feed)->0);
    }
}

/// The row of a feed links the feed's source under its title, tells its state and
/// when it was last fetched, and links the feed's route and the refresh of it.
pub proof fn lemma_row_tells_of_its_feed(feed: FeedEntry, status: Option<FeedStatusView>)
    ensures
        ({
            let row = row_text(feed, status);
            let title = metadata::title_of(feed.service, feed.identity.feed);
            let source = feed.identity.feed.source(feed.service);
            &&& text::occurs_in(
                row,
                ROW_START@ + markup::attr_text(source) + SOURCE_TITLE@ + markup::html_text(title)
                    + TITLE_URL@,
            )
            &&& text::occurs_in(
                row,
                URL_TEXT@ + markup::html_text(source) + TEXT_STATE@ + markup::html_text(
                    if status is Some {
                        status->0.metadata_cache.state.header_text()
                    } else {
                        "missing"@
                    },
                ) + STATE_FETCHED@ + markup::html_text(
                    if status is Some && status->0.metadata_cache.last_successful_refresh is Some {
                        timestamp::rfc3339_text(
                            status->0.metadata_cache.last_successful_refresh->0.second as i64,
                            status->0.metadata_cache.last_successful_refresh->0.nanos as u32,
                        )
                    } else {
                        "never"@
                    },
                ) + FETCHED_PATH@,
            )
            &&& text::occurs_in(
                row,
                FETCHED_PATH@ + markup::attr_text(link_of(feed)) + PATH_LABEL@ + markup::attr_text(
                    title,
                ) + LABEL_REFRESH@,
            )
            &&& text::occurs_in(
                row,
                LABEL_REFRESH@ + markup::attr_text(link_of(feed) + "?refresh=1"@) + REFRESH_LABEL@
                    + markup::attr_text(title) + ROW_END@,
            )
        }),
{
    let title = metadata::title_of(feed.service, feed.identity.feed);
    let source = feed.identity.feed.source(feed.service);
    let path = link_of(feed);
    let parts = seq![
        ROW_START@,
        markup::attr_text(source),
        SOURCE_TITLE@,
        markup::html_text(title),
        TITLE_URL@,
        markup::attr_text(source),
        URL_TEXT@,
        markup::html_text(source),
        TEXT_STATE@,
        markup::html_text(state_text(status)),
        STATE_FETCHED@,
        markup::html_text(fetched_text(status)),
        FETCHED_PATH@,
        markup::attr_text(path),
        PATH_LABEL@,
        markup::attr_text(title),
        LABEL_REFRESH@,
        markup::attr_text(path + "?refresh=1"@),
        REFRESH_LABEL@,
        markup::attr_text(title),
        ROW_END@,
    ];
    assert(row_text(feed, status) == text::concatenated(parts)) by {
        reveal(row_text);
        lemma_all_of_a_row(parts);
    }
    text::lemma_parts_stand_together(parts, 0, 5);
    lemma_five_of_a_row(parts.subrange(0, 5));
    text::lemma_parts_stand_together(parts, 6, 13);
    lemma_seven_of_a_row(parts.subrange(6, 13));
    text::lemma_parts_stand_together(parts, 12, 17);
    lemma_five_of_a_row(parts.subrange(12, 17));
    text::lemma_parts_stand_together(parts, 16, 21);
    lemma_five_of_a_row(parts.subrange(16, 21));
}

proof fn lemma_five_of_a_row(p: Seq<Seq<char>>)
    requires
        p.len() == 5,
    ensures
        text::concatenated(p) == p[0] + p[1] + p[2] + p[3] + p[4],
{
    text::lemma_concatenated_grows(p, 0);
    text::lemma_concatenated_grows(p, 1);
    text::lemma_concatenated_grows(p, 2);
    text::lemma_concatenated_grows(p, 3);
    text::lemma_concatenated_grows(p, 4);
}

proof fn lemma_seven_of_a_row(p: Seq<Seq<char>>)
    requires
        p.len() == 7,
    ensures
        text::concatenated(p) == p[0] + p[1] + p[2] + p[3] + p[4] + p[5] + p[6],
{
    text::lemma_concatenated_grows(p, 0);
    text::lemma_concatenated_grows(p, 1);
    text::lemma_concatenated_grows(p, 2);
    text::lemma_concatenated_grows(p, 3);
    text::lemma_concatenated_grows(p, 4);
    text::lemma_concatenated_grows(p, 5);
    text::lemma_concatenated_grows(p, 6);
}

proof fn lemma_all_of_a_row(p: Seq<Seq<char>>)
    requires
        p.len() == 21,
    ensures
        text::concatenated(p) == p[0] + p[1] + p[2] + p[3] + p[4] + p[5] + p[6] + p[7] + p[8] + p[9]
            + p[10] + p[11] + p[12] + p[13] + p[14] + p[15] + p[16] + p[17] + p[18] + p[19]
            + p[20],
{
    text::lemma_concatenated_grows(p, 0);
    text::lemma_concatenated_grows(p, 1);
    text::lemma_concatenated_grows(p, 2);
    text::lemma_concatenated_grows(p, 3);
    text::lemma_concatenated_grows(p, 4);
    text::lemma_concatenated_grows(p, 5);
    text::lemma_concatenated_grows(p, 6);
    text::lemma_concatenated_grows(p, 7);
    text::lemma_concatenated_grows(p, 8);
    text::lemma_concatenated_grows(p, 9);
    text::lemma_concatenated_grows(p, 10);
    text::lemma_concatenated_grows(p, 11);
    text::lemma_concatenated_grows(p, 12);
    text::lemma_concatenated_grows(p, 13);
    text::lemma_concatenated_grows(p, 14);
    text::lemma_concatenated_grows(p, 15);
    text::lemma_concatenated_grows(p, 16);
    text::lemma_concatenated_grows(p, 17);
    text::lemma_concatenated_grows(p, 18);
    text::lemma_concatenated_grows(p, 19);
    text::lemma_concatenated_grows(p, 20);
}

/// The index page for a user shows the rows of that user's feeds and no others: a
/// feed of somebody else adds nothing, and one of the user's own adds its row.
pub proof fn lemma_page_shows_own_feeds(
    entries: Seq<FeedEntry>,
    feeds: Seq<FeedStatusView>,
    user: Seq<char>,
    more: FeedEntry,
)
    ensures
        more.identity.user != user ==> rows_text(entries.push(more), feeds, Some(user))
            == rows_text(entries, feeds, Some(user)),
        more.identity.user == user ==> rows_text(entries.push(more), feeds, Some(user))
            == rows_text(entries, feeds, Some(user)) + row_text(more, first_status(feeds, more)),
        rows_text(entries.push(more), feeds, None) == rows_text(entries, feeds, None) + row_text(
            more,
            first_status(feeds, more),
        ),
        rows_text(Seq::empty(), feeds, Some(user)).len() == 0,
{
    assert(entries.push(more).drop_last() =~= entries);
}

/// The page says that no feeds are configured exactly where it has no rows; else
/// the rows stand on it.
pub proof fn lemma_page_has_its_rows(rows: Seq<char>)
    ensures
        rows.len() == 0 ==> text::occurs_in(
            page_text(rows),
            "<p>No feeds are configured.</p>"@,
        ),
        rows.len() > 0 ==> page_text(rows) == PAGE_START@ + rows + PAGE_END@,
        text::begins_with(page_text(rows), PAGE_START@),
        text::ends_with(page_text(rows), PAGE_END@),
{
    if rows.len() == 0 {
        let whole = "<p>No feeds are configured.</p>"@;
        text::lemma_part_stands(PAGE_START@, whole, PAGE_END@);
        lemma_page_ends(PAGE_START@, whole, PAGE_END@);
    } else {
        lemma_page_ends(PAGE_START@, rows, PAGE_END@);
    }
}

proof fn lemma_page_ends(start: Seq<char>, rows: Seq<char>, end: Seq<char>)
    ensures
        text::begins_with(start + rows + end, start),
        text::ends_with(start + rows + end, end),
{
    let page = start + rows + end;
    assert(page.take(start.len() as int) =~= start);
    assert(page.skip(page.len() - end.len()) =~= end);
}

/// What stands around the parts of a row makes them what they are: the source and
/// the routes are links, the title is the text of the first link, and the state and
/// the time are said to be such.
pub proof fn lemma_row_parts_are_marked()
    ensures
        text::ends_with(ROW_START@, " href=\""@),
        text::begins_with(SOURCE_TITLE@, "\">"@),
        text::begins_with(TITLE_URL@, "</strong></a>"@),
        text::begins_with(TEXT_STATE@, "</a>"@),
        text::ends_with(TEXT_STATE@, "State: "@),
        text::ends_with(STATE_FETCHED@, "Last fetched (UTC): "@),
        text::ends_with(FETCHED_PATH@, " href=\""@),
        text::begins_with(PATH_LABEL@, "\""@),
        text::begins_with(LABEL_REFRESH@, "\">RSS</a>"@),
        text::ends_with(LABEL_REFRESH@, " href=\""@),
        text::begins_with(REFRESH_LABEL@, "\""@),
        text::begins_with(ROW_END@, "\">Refresh</a>"@),
{
    lemma_row_links_are_marked();
    lemma_row_texts_are_marked();
}

proof fn lemma_row_links_are_marked()
    ensures
        text::ends_with(ROW_START@, " href=\""@),
        text::ends_with(FETCHED_PATH@, " href=\""@),
        text::begins_with(LABEL_REFRESH@, "\">RSS</a>"@),
        text::ends_with(LABEL_REFRESH@, " href=\""@),
{
    reveal_strlit("<article class=\"feed\">
  <span class=\"icon\" aria-hidden=\"true\">☊</span>
  <span>
    <a class=\"source\" href=\"");
    reveal_strlit("</small>
  </span>
  <span class=\"actions\">
    <a class=\"rss\" href=\"");
    reveal_strlit("\">RSS</a>
    <a class=\"rss subtle\" href=\"");
    reveal_strlit(" href=\"");
    reveal_strlit("\">RSS</a>");
    let link = " href=\""@;
    assert(ROW_START@.skip(ROW_START@.len() - link.len()) =~= link);
    assert(FETCHED_PATH@.skip(FETCHED_PATH@.len() - link.len()) =~= link);
    assert(LABEL_REFRESH@.skip(LABEL_REFRESH@.len() - link.len()) =~= link);
    assert(LABEL_REFRESH@.take("\">RSS</a>"@.len() as int) =~= "\">RSS</a>"@);
}

proof fn lemma_row_texts_are_marked()
    ensures
        text::begins_with(SOURCE_TITLE@, "\">"@),
        text::begins_with(TITLE_URL@, "</strong></a>"@),
        text::begins_with(TEXT_STATE@, "</a>"@),
        text::ends_with(TEXT_STATE@, "State: "@),
        text::ends_with(STATE_FETCHED@, "Last fetched (UTC): "@),
        text::begins_with(PATH_LABEL@, "\""@),
        text::begins_with(REFRESH_LABEL@, "\""@),
        text::begins_with(ROW_END@, "\">Refresh</a>"@),
{
    reveal_strlit("\"><strong>");
    reveal_strlit("</strong></a>
    <small><a class=\"source-url\" href=\"");
    reveal_strlit("</a></small>
    <small>State: ");
    reveal_strlit(" · Last fetched (UTC): ");
    reveal_strlit("\" aria-label=\"RSS feed for ");
    reveal_strlit("\" aria-label=\"Refresh RSS feed for ");
    reveal_strlit("\">Refresh</a>
  </span>
</article>");
    reveal_strlit("\">");
    reveal_strlit("</strong></a>");
    reveal_strlit("</a>");
    reveal_strlit("State: ");
    reveal_strlit("Last fetched (UTC): ");
    reveal_strlit("\"");
    reveal_strlit("\">Refresh</a>");
    let (state, fetched) = ("State: "@, "Last fetched (UTC): "@);
    assert(SOURCE_TITLE@.take(2) =~= "\">"@);
    assert(TITLE_URL@.take("</strong></a>"@.len() as int) =~= "</strong></a>"@);
    assert(TEXT_STATE@.take(4) =~= "</a>"@);
    assert(TEXT_STATE@.skip(TEXT_STATE@.len() - state.len()) =~= state);
    assert(STATE_FETCHED@.skip(STATE_FETCHED@.len() - fetched.len()) =~= fetched);
    assert(PATH_LABEL@.take(1) =~= "\""@);
    assert(REFRESH_LABEL@.take(1) =~= "\""@);
    assert(ROW_END@.take("\">Refresh</a>"@.len() as int) =~= "\">Refresh</a>"@);
}

} // verus!
