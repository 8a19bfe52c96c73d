//! RSS feeds.
use vstd::prelude::*;

use crate::config::ServiceConfig;
use crate::config::ServiceView;
use crate::config::SoundCloudFeedKind;
use crate::markup;
use crate::media;
use crate::media::FeedItem;
use crate::media::ItemView;
use crate::metadata;
use crate::text;
use crate::timestamp;
use crate::timestamp::TimeView;
use crate::timestamp::Timestamp;
use crate::urls;

verus! {

/// The feed before the namespaces.
pub const FEED_START: &'static str = "<?xml version=\"1.0\" encoding=\"utf-8\"?>\n<rss version=\"2.0\"";

/// The feed behind its items.
pub const FEED_END: &'static str = "</channel>\n</rss>\n";

/// An element with a text.
pub open spec fn element(name: Seq<char>, value: Seq<char>) -> Seq<char> {
    "<"@ + name + ">"@ + markup::html_text(value) + "</"@ + name + ">\n"@
}

/// The URL of an item's audio.
pub open spec fn audio_url(
    base_url: Seq<char>,
    user: Seq<char>,
    service: ServiceView,
    item_id: Seq<char>,
) -> Seq<char> {
    base_url + urls::audio_route(user, service.kind.path(), service.name, item_id)
}

/// The description of an item, where it has one.
pub open spec fn description_text(item: ItemView) -> Seq<char> {
    match item.description {
        Some(description) => element("description"@, description),
        None => Seq::empty(),
    }
}

/// The date of an item, where it has one that can be written.
pub open spec fn published_text(item: ItemView) -> Seq<char> {
    match item.published_at {
        Some(at) => if timestamp::has_http_date(timestamp::unix_nanos(at)) {
            element("pubDate"@, timestamp::date_of(timestamp::unix_nanos(at)))
        } else {
            Seq::empty()
        },
        None => Seq::empty(),
    }
}

/// The artwork of an item, where it has some: the source's own image, in both
/// of the elements that clients look for.
pub open spec fn artwork_text(item: ItemView) -> Seq<char> {
    match item.thumbnail_url {
        Some(url) => "<media:thumbnail url=\""@ + markup::attr_text(url)
            + "\"/>\n<itunes:image href=\""@ + markup::attr_text(url) + "\"/>\n"@,
        None => Seq::empty(),
    }
}

/// The size of an item's audio, as far as it is known.
pub open spec fn length_of(item: ItemView) -> u64 {
    match item.content_length {
        Some(bytes) => bytes,
        None => 0,
    }
}

/// The enclosure of an item: the stable URL of its audio.
pub open spec fn enclosure_text(url: Seq<char>, length: u64) -> Seq<char> {
    "<enclosure url=\""@ + markup::attr_text(url) + "\" length=\""@ + text::decimal_text(
        length as nat,
    ) + "\" type=\"audio/mp4\"/>\n"@
}

/// An item of a feed.
#[verifier::opaque]
pub open spec fn item_text(
    base_url: Seq<char>,
    user: Seq<char>,
    service: ServiceView,
    item: ItemView,
) -> Seq<char> {
    "<item>\n"@ + element("title"@, item.title) + element("link"@, item.webpage_url)
        + "<guid isPermaLink=\"false\">"@ + markup::html_text(item.id) + "</guid>\n"@
        + description_text(item) + published_text(item) + enclosure_text(
        audio_url(base_url, user, service, item.id),
        length_of(item),
    ) + artwork_text(item) + "</item>\n"@
}

/// The items of a feed, in their order.
pub open spec fn items_text(
    base_url: Seq<char>,
    user: Seq<char>,
    service: ServiceView,
    items: Seq<ItemView>,
) -> Seq<char>
    decreases items.len(),
{
    if items.len() == 0 {
        Seq::empty()
    } else {
        items_text(base_url, user, service, items.drop_last()) + item_text(
            base_url,
            user,
            service,
            items.last(),
        )
    }
}

/// A namespace of a feed.
pub open spec fn namespace_text(prefix: Seq<char>, url: Seq<char>) -> Seq<char> {
    " xmlns:"@ + prefix + "=\""@ + markup::attr_text(url) + "\""@
}

/// The feed up to its items.
pub open spec fn channel_text(service: ServiceView, feed: SoundCloudFeedKind, refreshed: TimeView) -> Seq<
    char,
> {
    FEED_START@ + namespace_text("atom"@, "http://www.w3.org/2005/Atom"@) + namespace_text(
        "itunes"@,
        "http://www.itunes.com/dtds/podcast-1.0.dtd"@,
    ) + namespace_text("media"@, "http://search.yahoo.com/mrss/"@) + ">\n<channel>\n"@ + element(
        "title"@,
        metadata::title_of(service, feed),
    ) + element("link"@, feed.source(service)) + element(
        "description"@,
        metadata::title_of(service, feed),
    ) + element(
        "lastBuildDate"@,
        timestamp::date_of(timestamp::unix_nanos(refreshed)),
    )
}

/// A feed.
pub open spec fn feed_text(
    base_url: Seq<char>,
    user: Seq<char>,
    service: ServiceView,
    feed: SoundCloudFeedKind,
    items: Seq<ItemView>,
    refreshed: TimeView,
) -> Seq<char> {
    channel_text(service, feed, refreshed) + items_text(base_url, user, service, items) + FEED_END@
}

fn append_element(xml: &mut String, name: &str, value: &str)
    ensures
        final(xml)@ == old(xml)@ + element(name@, value@),
{
    let escaped: String = markup::escape_html(value);
    xml.append("<");
    xml.append(name);
    xml.append(">");
    xml.append(escaped.as_str());
    xml.append("</");
    xml.append(name);
    xml.append(">\n");
    assert(xml@ =~= old(xml)@ + element(name@, value@));
}

fn append_attr(xml: &mut String, value: &str)
    ensures
        final(xml)@ == old(xml)@ + markup::attr_text(value@),
{
    let escaped: String = markup::escape_attr(value);
    xml.append(escaped.as_str());
}

fn append_description(xml: &mut String, item: &FeedItem)
    ensures
        final(xml)@ == old(xml)@ + description_text(item@),
{
    match &item.description {
        Some(description) => {
            append_element(xml, "description", description.as_str());
        },
        None => {
            assert(xml@ =~= old(xml)@ + description_text(item@));
        },
    }
}

fn append_published(xml: &mut String, item: &FeedItem)
    ensures
        final(xml)@ == old(xml)@ + published_text(item@),
{
    match &item.published_at {
        Some(at) => {
            if at.has_http_date() {
                let date: String = timestamp::http_date(at);
                append_element(xml, "pubDate", date.as_str());
            } else {
                assert(xml@ =~= old(xml)@ + published_text(item@));
            }
        },
        None => {
            assert(xml@ =~= old(xml)@ + published_text(item@));
        },
    }
}

fn append_enclosure(xml: &mut String, url: &str, length: u64)
    ensures
        final(xml)@ == old(xml)@ + enclosure_text(url@, length),
{
    let digits: String = text::decimal(length);
    xml.append("<enclosure url=\"");
    append_attr(xml, url);
    xml.append("\" length=\"");
    xml.append(digits.as_str());
    xml.append("\" type=\"audio/mp4\"/>\n");
    assert(xml@ =~= old(xml)@ + enclosure_text(url@, length));
}

fn append_artwork(xml: &mut String, item: &FeedItem)
    ensures
        final(xml)@ == old(xml)@ + artwork_text(item@),
{
    match &item.thumbnail_url {
        Some(artwork) => {
            xml.append("<media:thumbnail url=\"");
            append_attr(xml, artwork.as_str());
            xml.append("\"/>\n<itunes:image href=\"");
            append_attr(xml, artwork.as_str());
            xml.append("\"/>\n");
            assert(xml@ =~= old(xml)@ + artwork_text(item@));
        },
        None => {
            assert(xml@ =~= old(xml)@ + artwork_text(item@));
        },
    }
}

fn render_item(base_url: &str, user: &str, service: &ServiceConfig, item: &FeedItem) -> (xml: String)
    ensures
        xml@ == item_text(base_url@, user@, service@, item@),
{
    let mut url: String = base_url.to_owned();
    let path: String = urls::audio_path(
        user,
        service.kind.as_path(),
        service.name.as_str(),
        item.id.as_str(),
    );
    url.append(path.as_str());
    let length: u64 = match item.content_length {
        Some(bytes) => bytes,
        None => 0,
    };
    let id: String = markup::escape_html(item.id.as_str());
    let mut xml: String = "<item>\n".to_owned();
    append_element(&mut xml, "title", item.title.as_str());
    append_element(&mut xml, "link", item.webpage_url.as_str());
    xml.append("<guid isPermaLink=\"false\">");
    xml.append(id.as_str());
    xml.append("</guid>\n");
    append_description(&mut xml, item);
    append_published(&mut xml, item);
    append_enclosure(&mut xml, url.as_str(), length);
    append_artwork(&mut xml, item);
    xml.append("</item>\n");
    proof {
        reveal(item_text);
    }
    xml
}

fn append_namespaces(xml: &mut String)
    ensures
        final(xml)@ == old(xml)@ + namespace_text("atom"@, "http://www.w3.org/2005/Atom"@)
            + namespace_text("itunes"@, "http://www.itunes.com/dtds/podcast-1.0.dtd"@)
            + namespace_text("media"@, "http://search.yahoo.com/mrss/"@),
{
    let namespaces: Vec<(String, String)> = metadata::namespace_map();
    append_namespace(xml, namespaces[0].0.as_str(), namespaces[0].1.as_str());
    append_namespace(xml, namespaces[1].0.as_str(), namespaces[1].1.as_str());
    append_namespace(xml, namespaces[2].0.as_str(), namespaces[2].1.as_str());
}

fn append_namespace(xml: &mut String, prefix: &str, url: &str)
    ensures
        final(xml)@ == old(xml)@ + namespace_text(prefix@, url@),
{
    xml.append(" xmlns:");
    xml.append(prefix);
    xml.append("=\"");
    append_attr(xml, url);
    xml.append("\"");
    assert(xml@ =~= old(xml)@ + namespace_text(prefix@, url@));
}

/// The RSS of a feed, as it was last refreshed. The items stay in their order.
pub fn render_feed(
    base_url: &str,
    user: &str,
    service: &ServiceConfig,
    feed: SoundCloudFeedKind,
    items: &Vec<FeedItem>,
    last_successful_refresh: &Timestamp,
) -> (xml: String)
    requires
        timestamp::has_http_date(timestamp::unix_nanos(last_successful_refresh@)),
    ensures
        xml@ == feed_text(
            base_url@,
            user@,
            service@,
            feed,
            media::items_view(items@),
            last_successful_refresh@,
        ),
{
    let title: String = metadata::feed_title(service, feed);
    let source_url: String = feed.source_url(service);
    let built: String = timestamp::http_date(last_successful_refresh);
    let mut xml: String = FEED_START.to_owned();
    append_namespaces(&mut xml);
    xml.append(">\n<channel>\n");
    append_element(&mut xml, "title", title.as_str());
    append_element(&mut xml, "link", source_url.as_str());
    append_element(&mut xml, "description", title.as_str());
    append_element(&mut xml, "lastBuildDate", built.as_str());
    assert(xml@ =~= channel_text(service@, feed, last_successful_refresh@));
    let ghost all = media::items_view(items@);
    let ghost start = xml@;
    let mut i: usize = 0;
    assert(start + items_text(base_url@, user@, service@, all.take(0)) =~= start);
    while i < items.len()
        invariant
            i <= items@.len(),
            all == media::items_view(items@),
            xml@ == start + items_text(base_url@, user@, service@, all.take(i as int)),
        decreases items@.len() - i,
    {
        assert(all.take(i + 1).drop_last() == all.take(i as int));
        let item: String = render_item(base_url, user, service, &items[i]);
        xml.append(item.as_str());
        assert(xml@ =~= start + items_text(base_url@, user@, service@, all.take(i + 1)));
        i = i + 1;
    }
    assert(all.take(all.len() as int) == all);
    xml.append(FEED_END);
    xml
}

/// Each item stands in the feed behind all items before it: the order is kept,
/// and no item is left out or put in twice.
pub proof fn lemma_items_keep_their_order(
    base_url: Seq<char>,
    user: Seq<char>,
    service: ServiceView,
    items: Seq<ItemView>,
    i: int,
)
    requires
        0 <= i < items.len(),
    ensures
        text::stands_at(
            items_text(base_url, user, service, items),
            item_text(base_url, user, service, items[i]),
            items_text(base_url, user, service, items.take(i)).len() as int,
        ),
    decreases items.len(),
{
    let shorter = items.drop_last();
    let before = items_text(base_url, user, service, items.take(i));
    let item = item_text(base_url, user, service, items[i]);
    let all = items_text(base_url, user, service, items);
    if i == items.len() - 1 {
        assert(items.take(i) == shorter);
        text::lemma_part_stands(before, item, Seq::empty());
        assert(all =~= before + item + Seq::<char>::empty());
    } else {
        assert(shorter.take(i) == items.take(i));
        lemma_items_keep_their_order(base_url, user, service, shorter, i);
        let from = before.len() as int;
        assert(all.subrange(from, from + item.len()) =~= items_text(
            base_url,
            user,
            service,
            shorter,
        ).subrange(from, from + item.len()));
    }
}

proof fn lemma_element_stands(before: Seq<char>, name: Seq<char>, value: Seq<char>, behind: Seq<char>)
    ensures
        text::occurs_in(
            before + element(name, value) + behind,
            "<"@ + name + ">"@ + markup::html_text(value) + "</"@ + name + ">"@,
        ),
{
    reveal_strlit(">\n");
    reveal_strlit(">");
    let part = "<"@ + name + ">"@ + markup::html_text(value) + "</"@ + name + ">"@;
    let rest = seq!['\n'] + behind;
    text::lemma_part_stands(before, part, rest);
    assert(before + element(name, value) + behind =~= before + part + rest);
}

/// Every item of a feed, whatever is known of its size, has its audio for an
/// enclosure: the URL is the base URL and the item's audio route behind it, the
/// length is the size where it is known and zero where it is not.
pub proof fn lemma_every_item_has_its_audio(
    base_url: Seq<char>,
    user: Seq<char>,
    service: ServiceView,
    item: ItemView,
)
    ensures
        text::occurs_in(
            item_text(base_url, user, service, item),
            "<enclosure url=\""@ + markup::attr_text(
                base_url + urls::audio_route(user, service.kind.path(), service.name, item.id),
            ) + "\" length=\""@ + text::decimal_text(
                if item.content_length is Some {
                    item.content_length->0 as nat
                } else {
                    0
                },
            ) + "\" type=\"audio/mp4\"/>"@,
        ),
        text::begins_with(item_text(base_url, user, service, item), "<item>\n"@),
        text::ends_with(item_text(base_url, user, service, item), "</item>\n"@),
{
    reveal(item_text);
    let url = base_url + urls::audio_route(user, service.kind.path(), service.name, item.id);
    let head = "<item>\n"@ + element("title"@, item.title) + element("link"@, item.webpage_url)
        + "<guid isPermaLink=\"false\">"@ + markup::html_text(item.id) + "</guid>\n"@;
    let enclosure = enclosure_text(url, length_of(item));
    let whole = item_text(base_url, user, service, item);
    lemma_enclosure_stands(url, length_of(item));
    lemma_part_of_six_stands(
        head,
        description_text(item),
        published_text(item),
        enclosure,
        artwork_text(item),
        "</item>\n"@,
    );
    text::lemma_occurrence_in_part(
        whole,
        enclosure,
        "<enclosure url=\""@ + markup::attr_text(url) + "\" length=\""@ + text::decimal_text(
            length_of(item) as nat,
        ) + "\" type=\"audio/mp4\"/>"@,
    );
    lemma_first_of_six_begins(
        "<item>\n"@,
        element("title"@, item.title),
        element("link"@, item.webpage_url),
        "<guid isPermaLink=\"false\">"@,
        markup::html_text(item.id),
        "</guid>\n"@,
    );
    lemma_begin_is_kept(head, whole, "<item>\n"@);
}

proof fn lemma_enclosure_stands(url: Seq<char>, length: u64)
    ensures
        text::occurs_in(
            enclosure_text(url, length),
            "<enclosure url=\""@ + markup::attr_text(url) + "\" length=\""@ + text::decimal_text(
                length as nat,
            ) + "\" type=\"audio/mp4\"/>"@,
        ),
{
    reveal_strlit("\" type=\"audio/mp4\"/>\n");
    reveal_strlit("\" type=\"audio/mp4\"/>");
    let start = "<enclosure url=\""@ + markup::attr_text(url) + "\" length=\""@
        + text::decimal_text(length as nat);
    let part = start + "\" type=\"audio/mp4\"/>"@;
    assert("\" type=\"audio/mp4\"/>\n"@ =~= "\" type=\"audio/mp4\"/>"@ + seq!['\n']);
    lemma_three_parts(start, "\" type=\"audio/mp4\"/>"@, seq!['\n']);
    text::lemma_part_stands(Seq::empty(), part, seq!['\n']);
    assert(Seq::<char>::empty() + part =~= part);
}

proof fn lemma_part_of_six_stands(
    a: Seq<char>,
    b: Seq<char>,
    c: Seq<char>,
    part: Seq<char>,
    e: Seq<char>,
    f: Seq<char>,
)
    ensures
        text::occurs_in(a + b + c + part + e + f, part),
        text::begins_with(a + b + c + part + e + f, a),
        text::ends_with(a + b + c + part + e + f, f),
{
    let whole = a + b + c + part + e + f;
    text::lemma_part_stands(a + b + c, part, e + f);
    lemma_three_parts(a + b + c + part, e, f);
    text::lemma_behind_head(whole, a + b + c + part + e, f);
    lemma_five_parts(a, b, c, part, e);
    lemma_three_parts(a, b + c + part + e, f);
    text::lemma_behind_head(whole, a, b + c + part + e + f);
}

proof fn lemma_first_of_six_begins(
    a: Seq<char>,
    b: Seq<char>,
    c: Seq<char>,
    d: Seq<char>,
    e: Seq<char>,
    f: Seq<char>,
)
    ensures
        text::begins_with(a + b + c + d + e + f, a),
{
    lemma_five_parts(a, b, c, d, e);
    lemma_three_parts(a, b + c + d + e, f);
    text::lemma_behind_head(a + b + c + d + e + f, a, b + c + d + e + f);
}

proof fn lemma_begin_is_kept(head: Seq<char>, whole: Seq<char>, start: Seq<char>)
    requires
        text::begins_with(whole, head),
        text::begins_with(head, start),
    ensures
        text::begins_with(whole, start),
{
    assert(whole.take(start.len() as int) =~= whole.take(head.len() as int).take(
        start.len() as int,
    ));
}

/// Every item of a feed says its title, its page and its id, and, where it has
/// them, its description, its date and its artwork, the latter in both of the
/// elements that clients look for.
pub proof fn lemma_every_item_tells_its_fields(
    base_url: Seq<char>,
    user: Seq<char>,
    service: ServiceView,
    item: ItemView,
)
    ensures
        ({
            let whole = item_text(base_url, user, service, item);
            &&& text::occurs_in(
                whole,
                "<"@ + "title"@ + ">"@ + markup::html_text(item.title) + "</"@ + "title"@ + ">"@,
            )
            &&& text::occurs_in(
                whole,
                "<"@ + "link"@ + ">"@ + markup::html_text(item.webpage_url) + "</"@ + "link"@ + ">"@,
            )
            &&& text::occurs_in(
                whole,
                "<guid isPermaLink=\"false\">"@ + markup::html_text(item.id) + "</guid>\n"@,
            )
            &&& item.description is Some ==> text::occurs_in(
                whole,
                "<"@ + "description"@ + ">"@ + markup::html_text(item.description->0) + "</"@
                    + "description"@ + ">"@,
            )
            &&& item.published_at is Some && timestamp::has_http_date(
                timestamp::unix_nanos(item.published_at->0),
            ) ==> text::occurs_in(
                whole,
                "<"@ + "pubDate"@ + ">"@ + markup::html_text(
                    timestamp::date_of(timestamp::unix_nanos(item.published_at->0)),
                ) + "</"@ + "pubDate"@ + ">"@,
            )
            &&& item.thumbnail_url is Some ==> text::occurs_in(
                whole,
                "<media:thumbnail url=\""@ + markup::attr_text(item.thumbnail_url->0) + "\"/>\n"@,
            ) && text::occurs_in(
                whole,
                "<itunes:image href=\""@ + markup::attr_text(item.thumbnail_url->0) + "\"/>\n"@,
            )
        }),
{
    reveal(item_text);
    let whole = item_text(base_url, user, service, item);
    let start = "<item>\n"@;
    let title = element("title"@, item.title);
    let link = element("link"@, item.webpage_url);
    let guid_start = "<guid isPermaLink=\"false\">"@;
    let id = markup::html_text(item.id);
    let guid_end = "</guid>\n"@;
    let description = description_text(item);
    let published = published_text(item);
    let enclosure = enclosure_text(audio_url(base_url, user, service, item.id), length_of(item));
    let artwork = artwork_text(item);
    let end = "</item>\n"@;
    lemma_item_parts(
        start,
        title,
        link,
        guid_start,
        id,
        guid_end,
        description,
        published,
        enclosure,
        artwork,
        end,
    );
    let head = start + title + link + guid_start + id + guid_end;
    let behind = description + published + enclosure + artwork + end;
    lemma_element_stands(
        start,
        "title"@,
        item.title,
        link + guid_start + id + guid_end + behind,
    );
    lemma_element_stands(
        start + title,
        "link"@,
        item.webpage_url,
        guid_start + id + guid_end + behind,
    );
    text::lemma_part_stands(start + title + link, guid_start + id + guid_end, behind);
    if item.description is Some {
        lemma_element_stands(
            head,
            "description"@,
            item.description->0,
            published + enclosure + artwork + end,
        );
    }
    if item.published_at is Some && timestamp::has_http_date(
        timestamp::unix_nanos(item.published_at->0),
    ) {
        lemma_element_stands(
            head + description,
            "pubDate"@,
            timestamp::date_of(timestamp::unix_nanos(item.published_at->0)),
            enclosure + artwork + end,
        );
    }
    if item.thumbnail_url is Some {
        lemma_artwork_stands(head + description + published + enclosure, item, end);
    }
}

proof fn lemma_item_parts(
    start: Seq<char>,
    title: Seq<char>,
    link: Seq<char>,
    guid_start: Seq<char>,
    id: Seq<char>,
    guid_end: Seq<char>,
    description: Seq<char>,
    published: Seq<char>,
    enclosure: Seq<char>,
    artwork: Seq<char>,
    end: Seq<char>,
)
    ensures
        ({
            let head = start + title + link + guid_start + id + guid_end;
            let behind = description + published + enclosure + artwork + end;
            let whole = head + description + published + enclosure + artwork + end;
            &&& whole == start + title + (link + guid_start + id + guid_end + behind)
            &&& whole == (start + title) + link + (guid_start + id + guid_end + behind)
            &&& whole == (start + title + link) + (guid_start + id + guid_end) + behind
            &&& whole == head + description + (published + enclosure + artwork + end)
            &&& whole == (head + description) + published + (enclosure + artwork + end)
        }),
{
    let head = start + title + link + guid_start + id + guid_end;
    let behind = description + published + enclosure + artwork + end;
    let whole = head + description + published + enclosure + artwork + end;
    lemma_five_parts(head, description, published, enclosure, artwork + end);
    assert(whole =~= head + description + published + enclosure + (artwork + end));
    assert(behind =~= description + published + enclosure + (artwork + end));
    assert(published + enclosure + artwork + end =~= published + enclosure + (artwork + end));
    assert(enclosure + artwork + end =~= enclosure + (artwork + end));
    assert(whole == head + behind);
    assert(whole =~= start + title + (link + guid_start + id + guid_end + behind)) by {
        let rest = link + guid_start + id + guid_end;
        assert(head =~= start + title + rest);
        lemma_three_parts(start + title, rest, behind);
    }
    assert(whole =~= (start + title) + link + (guid_start + id + guid_end + behind)) by {
        let rest = guid_start + id + guid_end;
        assert(head =~= start + title + link + rest);
        lemma_three_parts(start + title + link, rest, behind);
    }
    assert(whole =~= (start + title + link) + (guid_start + id + guid_end) + behind) by {
        let rest = guid_start + id + guid_end;
        assert(head =~= start + title + link + rest);
    }
}

proof fn lemma_three_parts(a: Seq<char>, b: Seq<char>, c: Seq<char>)
    ensures
        a + b + c == a + (b + c),
{
    assert(a + b + c =~= a + (b + c));
}

proof fn lemma_five_parts(a: Seq<char>, b: Seq<char>, c: Seq<char>, d: Seq<char>, e: Seq<char>)
    ensures
        a + b + c + d + e == a + (b + c + d + e),
        a + b + c + d + e == a + b + (c + d + e),
        a + b + c + d + e == a + b + c + (d + e),
{
    lemma_three_parts(a + b + c, d, e);
    lemma_three_parts(a + b, c, d);
    lemma_three_parts(a + b, c + d, e);
    lemma_three_parts(a, b, c);
    lemma_three_parts(a, b + c, d);
    lemma_three_parts(a, b + c + d, e);
}

proof fn lemma_artwork_stands(before: Seq<char>, item: ItemView, behind: Seq<char>)
    requires
        item.thumbnail_url is Some,
    ensures
        text::occurs_in(
            before + artwork_text(item) + behind,
            "<media:thumbnail url=\""@ + markup::attr_text(item.thumbnail_url->0) + "\"/>\n"@,
        ),
        text::occurs_in(
            before + artwork_text(item) + behind,
            "<itunes:image href=\""@ + markup::attr_text(item.thumbnail_url->0) + "\"/>\n"@,
        ),
{
    reveal_strlit("\"/>\n<itunes:image href=\"");
    reveal_strlit("\"/>\n");
    reveal_strlit("<itunes:image href=\"");
    let url = markup::attr_text(item.thumbnail_url->0);
    let thumbnail = "<media:thumbnail url=\""@ + url + "\"/>\n"@;
    let image = "<itunes:image href=\""@ + url + "\"/>\n"@;
    let whole = before + artwork_text(item) + behind;
    assert(artwork_text(item) =~= thumbnail + image);
    text::lemma_part_stands(before, thumbnail, image + behind);
    assert(whole =~= before + thumbnail + (image + behind));
    text::lemma_part_stands(before + thumbnail, image, behind);
    assert(whole =~= before + thumbnail + image + behind);
}

/// What an item says more where it has a description, a date that can be written
/// or artwork is that part alone: without it the item is the same but for it.
pub proof fn lemma_optional_parts_are_put_in(
    base_url: Seq<char>,
    user: Seq<char>,
    service: ServiceView,
    item: ItemView,
) -> (at: (int, int, int))
    ensures
        ({
            let whole = item_text(base_url, user, service, item);
            let undescribed = item_text(
                base_url,
                user,
                service,
                ItemView { description: None, ..item },
            );
            let undated = item_text(
                base_url,
                user,
                service,
                ItemView { published_at: None, ..item },
            );
            let unpictured = item_text(
                base_url,
                user,
                service,
                ItemView { thumbnail_url: None, ..item },
            );
            &&& 0 <= at.0 <= undescribed.len()
            &&& 0 <= at.1 <= undated.len()
            &&& 0 <= at.2 <= unpictured.len()
            &&& item.description is Some ==> whole == undescribed.take(at.0) + ("<"@
                + "description"@ + ">"@ + markup::html_text(item.description->0) + "</"@
                + "description"@ + ">\n"@) + undescribed.skip(at.0)
            &&& item.published_at is Some ==> whole == if timestamp::has_http_date(
                timestamp::unix_nanos(item.published_at->0),
            ) {
                undated.take(at.1) + ("<"@ + "pubDate"@ + ">"@ + markup::html_text(
                    timestamp::date_of(timestamp::unix_nanos(item.published_at->0)),
                ) + "</"@ + "pubDate"@ + ">\n"@) + undated.skip(at.1)
            } else {
                undated
            }
            &&& item.thumbnail_url is Some ==> whole == unpictured.take(at.2)
                + ("<media:thumbnail url=\""@ + markup::attr_text(item.thumbnail_url->0)
                + "\"/>\n<itunes:image href=\""@ + markup::attr_text(item.thumbnail_url->0)
                + "\"/>\n"@) + unpictured.skip(at.2)
        }),
{
    reveal(item_text);
    let whole = item_text(base_url, user, service, item);
    let undescribed = item_text(base_url, user, service, ItemView { description: None, ..item });
    let undated = item_text(base_url, user, service, ItemView { published_at: None, ..item });
    let unpictured = item_text(base_url, user, service, ItemView { thumbnail_url: None, ..item });
    let head = "<item>\n"@ + element("title"@, item.title) + element("link"@, item.webpage_url)
        + "<guid isPermaLink=\"false\">"@ + markup::html_text(item.id) + "</guid>\n"@;
    let description = description_text(item);
    let published = published_text(item);
    let enclosure = enclosure_text(audio_url(base_url, user, service, item.id), length_of(item));
    let artwork = artwork_text(item);
    let end = "</item>\n"@;
    lemma_parts_put_in(head, description, published, enclosure, artwork, end);
    (
        head.len() as int,
        (head + description).len() as int,
        (head + description + published + enclosure).len() as int,
    )
}

proof fn lemma_parts_put_in(
    head: Seq<char>,
    description: Seq<char>,
    published: Seq<char>,
    enclosure: Seq<char>,
    artwork: Seq<char>,
    end: Seq<char>,
)
    ensures
        ({
            let none = Seq::<char>::empty();
            let whole = head + description + published + enclosure + artwork + end;
            let undescribed = head + none + published + enclosure + artwork + end;
            let undated = head + description + none + enclosure + artwork + end;
            let unpictured = head + description + published + enclosure + none + end;
            let first = head.len() as int;
            let second = (head + description).len() as int;
            let third = (head + description + published + enclosure).len() as int;
            &&& first <= undescribed.len() && second <= undated.len() && third <= unpictured.len()
            &&& whole == undescribed.take(first) + description + undescribed.skip(first)
            &&& whole == undated.take(second) + published + undated.skip(second)
            &&& whole == unpictured.take(third) + artwork + unpictured.skip(third)
            &&& published.len() == 0 ==> whole == undated
        }),
{
    let none = Seq::<char>::empty();
    let tail = artwork + end;
    let before_third = head + description + published + enclosure;
    assert(head + none =~= head);
    assert(head + description + none =~= head + description);
    assert(before_third + none =~= before_third);
    assert(before_third + artwork + end =~= before_third + tail);
    assert(head + published + enclosure + artwork + end =~= head + published + enclosure + tail);
    assert(head + description + enclosure + artwork + end =~= head + description + enclosure
        + tail);
    lemma_five_parts(head, description, published, enclosure, tail);
    lemma_five_parts(none, head, published, enclosure, tail);
    lemma_three_parts(head, published + enclosure, tail);
    lemma_three_parts(head, published, enclosure);
    lemma_three_parts(head + description, enclosure, tail);
    let behind_first = published + enclosure + tail;
    let behind_second = enclosure + tail;
    assert((head + behind_first).take(head.len() as int) =~= head);
    assert((head + behind_first).skip(head.len() as int) =~= behind_first);
    let before_second = head + description;
    assert((before_second + behind_second).take(before_second.len() as int) =~= before_second);
    assert((before_second + behind_second).skip(before_second.len() as int) =~= behind_second);
    assert((before_third + end).take(before_third.len() as int) =~= before_third);
    assert((before_third + end).skip(before_third.len() as int) =~= end);
    if published.len() == 0 {
        assert(published =~= none);
    }
}

/// Each item stands in the feed, and with it the enclosure with the item's audio,
/// whatever is known of its size.
pub proof fn lemma_feed_offers_every_audio(
    base_url: Seq<char>,
    user: Seq<char>,
    service: ServiceView,
    feed: SoundCloudFeedKind,
    items: Seq<ItemView>,
    refreshed: TimeView,
    i: int,
)
    requires
        0 <= i < items.len(),
    ensures
        text::occurs_in(
            feed_text(base_url, user, service, feed, items, refreshed),
            item_text(base_url, user, service, items[i]),
        ),
        text::occurs_in(
            feed_text(base_url, user, service, feed, items, refreshed),
            "<enclosure url=\""@ + markup::attr_text(
                base_url + urls::audio_route(user, service.kind.path(), service.name, items[i].id),
            ) + "\" length=\""@ + text::decimal_text(
                if items[i].content_length is Some {
                    items[i].content_length->0 as nat
                } else {
                    0
                },
            ) + "\" type=\"audio/mp4\"/>"@,
        ),
{
    let whole = feed_text(base_url, user, service, feed, items, refreshed);
    let all = items_text(base_url, user, service, items);
    let item = item_text(base_url, user, service, items[i]);
    let enclosure = "<enclosure url=\""@ + markup::attr_text(
        base_url + urls::audio_route(user, service.kind.path(), service.name, items[i].id),
    ) + "\" length=\""@ + text::decimal_text(
        if items[i].content_length is Some {
            items[i].content_length->0 as nat
        } else {
            0
        },
    ) + "\" type=\"audio/mp4\"/>"@;
    lemma_items_keep_their_order(base_url, user, service, items, i);
    assert(text::stands_at(
        all,
        item,
        items_text(base_url, user, service, items.take(i)).len() as int,
    ));
    text::lemma_part_stands(channel_text(service, feed, refreshed), all, FEED_END@);
    text::lemma_occurrence_in_part(whole, all, item);
    lemma_every_item_has_its_audio(base_url, user, service, items[i]);
    text::lemma_occurrence_in_part(whole, item, enclosure);
}

/// A feed begins as RSS with its three namespaces, says its title, its source and
/// when it was last refreshed, and ends as RSS does. A feed with one item more is
/// longer by that item alone.
pub proof fn lemma_feed_tells_its_source(
    base_url: Seq<char>,
    user: Seq<char>,
    service: ServiceView,
    feed: SoundCloudFeedKind,
    items: Seq<ItemView>,
    item: ItemView,
    refreshed: TimeView,
)
    ensures
        ({
            let whole = feed_text(base_url, user, service, feed, items, refreshed);
            &&& text::begins_with(
                whole,
                "<?xml version=\"1.0\" encoding=\"utf-8\"?>\n<rss version=\"2.0\" xmlns:atom=\"http://www.w3.org/2005/Atom\" xmlns:itunes=\"http://www.itunes.com/dtds/podcast-1.0.dtd\" xmlns:media=\"http://search.yahoo.com/mrss/\">\n<channel>\n"@,
            )
            &&& text::ends_with(whole, "</channel>\n</rss>\n"@)
            &&& text::occurs_in(
                whole,
                "<"@ + "title"@ + ">"@ + markup::html_text(
                    "SoundCloud: "@ + service.name + " / "@ + feed.label_text(),
                ) + "</"@ + "title"@ + ">"@,
            )
            &&& text::occurs_in(
                whole,
                "<"@ + "description"@ + ">"@ + markup::html_text(
                    "SoundCloud: "@ + service.name + " / "@ + feed.label_text(),
                ) + "</"@ + "description"@ + ">"@,
            )
            &&& text::occurs_in(
                whole,
                "<"@ + "link"@ + ">"@ + markup::html_text(feed.source(service)) + "</"@ + "link"@
                    + ">"@,
            )
            &&& text::occurs_in(
                whole,
                "<"@ + "lastBuildDate"@ + ">"@ + markup::html_text(
                    timestamp::date_of(timestamp::unix_nanos(refreshed)),
                ) + "</"@ + "lastBuildDate"@ + ">"@,
            )
            &&& feed_text(base_url, user, service, feed, items.push(item), refreshed).len()
                == whole.len() + item_text(base_url, user, service, item).len()
        }),
{
    let whole = feed_text(base_url, user, service, feed, items, refreshed);
    let all = items_text(base_url, user, service, items);
    let start = FEED_START@ + namespace_text("atom"@, "http://www.w3.org/2005/Atom"@)
        + namespace_text("itunes"@, "http://www.itunes.com/dtds/podcast-1.0.dtd"@)
        + namespace_text("media"@, "http://search.yahoo.com/mrss/"@) + ">\n<channel>\n"@;
    let title = element("title"@, metadata::title_of(service, feed));
    let link = element("link"@, feed.source(service));
    let description = element("description"@, metadata::title_of(service, feed));
    let built = element("lastBuildDate"@, timestamp::date_of(timestamp::unix_nanos(refreshed)));
    metadata::lemma_title_tells_account_and_feed(service, feed);
    let behind_title = link + description + built + all + FEED_END@;
    lemma_element_stands(start, "title"@, metadata::title_of(service, feed), behind_title);
    assert(whole =~= start + title + behind_title);
    let behind_link = description + built + all + FEED_END@;
    lemma_element_stands(start + title, "link"@, feed.source(service), behind_link);
    assert(whole =~= start + title + link + behind_link);
    let behind_description = built + all + FEED_END@;
    lemma_element_stands(
        start + title + link,
        "description"@,
        metadata::title_of(service, feed),
        behind_description,
    );
    assert(whole =~= start + title + link + description + behind_description);
    lemma_element_stands(
        start + title + link + description,
        "lastBuildDate"@,
        timestamp::date_of(timestamp::unix_nanos(refreshed)),
        all + FEED_END@,
    );
    assert(whole =~= start + title + link + description + built + (all + FEED_END@));
    lemma_feed_start();
    assert(whole.take(start.len() as int) =~= start);
    assert(whole.skip(whole.len() - FEED_END@.len()) =~= FEED_END@);
    assert(items.push(item).drop_last() == items);
}

proof fn lemma_feed_start()
    ensures
        FEED_START@ + namespace_text("atom"@, "http://www.w3.org/2005/Atom"@) + namespace_text(
            "itunes"@,
            "http://www.itunes.com/dtds/podcast-1.0.dtd"@,
        ) + namespace_text("media"@, "http://search.yahoo.com/mrss/"@) + ">\n<channel>\n"@
            == "<?xml version=\"1.0\" encoding=\"utf-8\"?>\n<rss version=\"2.0\" xmlns:atom=\"http://www.w3.org/2005/Atom\" xmlns:itunes=\"http://www.itunes.com/dtds/podcast-1.0.dtd\" xmlns:media=\"http://search.yahoo.com/mrss/\">\n<channel>\n"@,
{
    reveal_strlit("<?xml version=\"1.0\" encoding=\"utf-8\"?>\n<rss version=\"2.0\" xmlns:atom=\"http://www.w3.org/2005/Atom\" xmlns:itunes=\"http://www.itunes.com/dtds/podcast-1.0.dtd\" xmlns:media=\"http://search.yahoo.com/mrss/\">\n<channel>\n");
    reveal_strlit("<?xml version=\"1.0\" encoding=\"utf-8\"?>\n<rss version=\"2.0\"");
    reveal_strlit(" xmlns:");
    reveal_strlit("=\"");
    reveal_strlit("\"");
    reveal_strlit(">\n<channel>\n");
    reveal_strlit("atom");
    reveal_strlit("itunes");
    reveal_strlit("media");
    reveal_strlit("http://www.w3.org/2005/Atom");
    reveal_strlit("http://www.itunes.com/dtds/podcast-1.0.dtd");
    reveal_strlit("http://search.yahoo.com/mrss/");
    markup::lemma_plain_text_is_kept("http://www.w3.org/2005/Atom"@);
    markup::lemma_plain_text_is_kept("http://www.itunes.com/dtds/podcast-1.0.dtd"@);
    markup::lemma_plain_text_is_kept("http://search.yahoo.com/mrss/"@);
    assert(FEED_START@ + namespace_text("atom"@, "http://www.w3.org/2005/Atom"@) + namespace_text(
        "itunes"@,
        "http://www.itunes.com/dtds/podcast-1.0.dtd"@,
    ) + namespace_text("media"@, "http://search.yahoo.com/mrss/"@) + ">\n<channel>\n"@
        =~= "<?xml version=\"1.0\" encoding=\"utf-8\"?>\n<rss version=\"2.0\" xmlns:atom=\"http://www.w3.org/2005/Atom\" xmlns:itunes=\"http://www.itunes.com/dtds/podcast-1.0.dtd\" xmlns:media=\"http://search.yahoo.com/mrss/\">\n<channel>\n"@);
}

} // verus!
