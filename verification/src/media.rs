//! Media files: their names, the tools that make them, and the items that
//! they belong to.
use vstd::prelude::*;

use crate::cleanup;
use crate::cleanup::FileFacts;
use crate::config::Config;
use crate::config::SoundCloudFeedKind;
use crate::digest;
use crate::paths;
use crate::text;
use crate::timestamp::TimeView;
use crate::timestamp::Timestamp;

verus! {

/// A path that names no file.
#[derive(Debug, Clone, Copy, PartialEq, Eq, Structural)]
pub struct InvalidFileName;

impl InvalidFileName {
    /// What is said of it.
    pub fn message(&self) -> (message: String)
        ensures
            message@ == "download path has no valid file name"@,
    {
        "download path has no valid file name".to_owned()
    }
}

/// The temporary file of a media file: it stands beside it.
pub open spec fn temp_path_of(output_path: Seq<char>) -> Option<Seq<char>> {
    match paths::file_name_of(output_path) {
        Some(name) => Some(
            paths::joined(paths::parent_of(output_path), name + ".download.m4a"@),
        ),
        None => None,
    }
}

/// The temporary file that a media file is downloaded into.
pub fn temp_download_path(output_path: &str) -> (path: Result<String, InvalidFileName>)
    ensures
        match temp_path_of(output_path@) {
            Some(temp) => path matches Ok(given) && given@ == temp,
            None => path is Err,
        },
{
    match paths::file_name(output_path) {
        Some(mut name) => {
            name.append(".download.m4a");
            let directory: String = paths::parent(output_path);
            Ok(paths::join(directory.as_str(), name.as_str()))
        },
        None => Err(InvalidFileName),
    }
}

/// Whether a text has the form of a key: 64 hexadecimal characters.
pub open spec fn is_cache_key(key: Seq<char>) -> bool {
    key.len() == 64 && digest::is_hex(key)
}

/// The key of an item's audio: the digest of what its route names.
pub fn cache_key(user: &str, service: &str, account: &str, item_id: &str) -> (key: String)
    ensures
        key@ == digest::label_digest(user@, service@, account@, item_id@),
        is_cache_key(key@),
{
    digest::digest_labels(user, service, account, item_id)
}

/// The file that completed media of a key is kept in.
pub open spec fn media_path_of(data_dir: Seq<char>, key: Seq<char>) -> Seq<char> {
    paths::joined(paths::joined(data_dir, "media"@), key + ".m4a"@)
}

/// The file that completed media of a key is kept in.
pub fn media_path(config: &Config, key: &str) -> (path: String)
    ensures
        path@ == media_path_of(config.cache.data_dir@, key@),
{
    let directory: String = config.media_dir();
    let mut name: String = key.to_owned();
    name.append(".m4a");
    paths::join(directory.as_str(), name.as_str())
}

/// What a failed download is answered with: the status, and the reason.
pub fn download_error_response(reason: String) -> (response: (u16, String))
    ensures
        response.0 == 502,
        response.1@ == reason@,
{
    (502, reason)
}

/// An item of a feed.
#[derive(Debug, PartialEq, Eq)]
pub struct FeedItem {
    pub id: String,
    pub title: String,
    pub webpage_url: String,
    pub description: Option<String>,
    pub published_at: Option<Timestamp>,
    pub content_length: Option<u64>,
    pub thumbnail_url: Option<String>,
}

/// What an item of a feed is.
#[verifier::ext_equal]
pub struct ItemView {
    pub id: Seq<char>,
    pub title: Seq<char>,
    pub webpage_url: Seq<char>,
    pub description: Option<Seq<char>>,
    pub published_at: Option<TimeView>,
    pub content_length: Option<u64>,
    pub thumbnail_url: Option<Seq<char>>,
}

impl View for FeedItem {
    type V = ItemView;

    open spec fn view(&self) -> ItemView {
        ItemView {
            id: self.id@,
            title: self.title@,
            webpage_url: self.webpage_url@,
            description: text::optional(self.description),
            published_at: match self.published_at {
                Some(at) => Some(at@),
                None => None,
            },
            content_length: self.content_length,
            thumbnail_url: text::optional(self.thumbnail_url),
        }
    }
}

impl Clone for FeedItem {
    fn clone(&self) -> (copy: FeedItem)
        ensures
            copy@ == self@,
    {
        FeedItem {
            id: self.id.clone(),
            title: self.title.clone(),
            webpage_url: self.webpage_url.clone(),
            description: text::copy_optional(&self.description),
            published_at: self.published_at,
            content_length: self.content_length,
            thumbnail_url: text::copy_optional(&self.thumbnail_url),
        }
    }
}

/// What items are, one by one.
pub open spec fn items_view(items: Seq<FeedItem>) -> Seq<ItemView> {
    items.map_values(|item: FeedItem| item@)
}

/// Copies of items.
pub fn copy_items(items: &Vec<FeedItem>) -> (copies: Vec<FeedItem>)
    ensures
        items_view(copies@) == items_view(items@),
{
    let mut copies: Vec<FeedItem> = Vec::new();
    let mut i: usize = 0;
    while i < items.len()
        invariant
            i <= items@.len(),
            items_view(copies@) == items_view(items@).take(i as int),
        decreases items@.len() - i,
    {
        let ghost before = copies@;
        copies.push(items[i].clone());
        assert(items_view(copies@) =~= items_view(before).push(items@[i as int]@));
        assert(items_view(items@).take(i + 1) =~= items_view(items@).take(i as int).push(
            items@[i as int]@,
        ));
        i = i + 1;
    }
    assert(items_view(items@).take(items@.len() as int) =~= items_view(items@));
    copies
}

/// An entry of the playlist that a source page is read as.
#[derive(Debug, PartialEq, Eq)]
pub struct PlaylistEntry {
    pub id: String,
    pub title: String,
    pub url: String,
    pub uploader: Option<String>,
    pub thumbnail: Option<String>,
}

/// Where the query or the fragment of a path begins.
pub open spec fn query_start(path: Seq<char>) -> int
    decreases path.len(),
{
    if path.len() == 0 || path[0] == '?' || path[0] == '#' {
        0
    } else {
        1 + query_start(path.skip(1))
    }
}

/// The host of a URL's authority: without the user and the port.
pub open spec fn host_of(authority: Seq<char>) -> Seq<char> {
    text::split_on(text::split_on(authority, '@').last(), ':').first()
}

/// The components of a URL's path.
pub open spec fn path_parts(path: Seq<char>) -> Seq<Seq<char>> {
    text::split_on(path.take(query_start(path)), '/')
}

/// Whether a path on a host leads to a set or a playlist of SoundCloud.
pub open spec fn leads_to_playlist(host: Seq<char>, path: Seq<char>) -> bool {
    if host == "soundcloud.com"@ || host == "www.soundcloud.com"@ {
        path_parts(path).contains("sets"@)
    } else {
        host == "api-v2.soundcloud.com"@ && path_parts(path).first() == "playlists"@
    }
}

/// Whether a URL leads to a set or a playlist of SoundCloud.
pub open spec fn is_playlist_url(url: Seq<char>) -> bool {
    match text::split_at_first(url, "://"@) {
        Some((_, rest)) => match text::split_at_first(rest, "/"@) {
            Some((authority, path)) => leads_to_playlist(host_of(authority), path),
            None => false,
        },
        None => false,
    }
}

fn find_query(path: &[char]) -> (start: usize)
    ensures
        start == query_start(path@),
        start <= path@.len(),
{
    let mut start: usize = 0;
    assert(path@.skip(0) == path@);
    while start < path.len() && path[start] != '?' && path[start] != '#'
        invariant
            start <= path@.len(),
            query_start(path@) == start + query_start(path@.skip(start as int)),
        decreases path@.len() - start,
    {
        assert(path@.skip(start as int).skip(1) == path@.skip(start + 1));
        start = start + 1;
    }
    start
}

fn find_host(authority: &[char]) -> (host: String)
    ensures
        host@ == host_of(authority@),
{
    let by_user: Vec<Vec<char>> = text::split(authority, '@');
    proof {
        text::lemma_split_on_is_not_empty(authority@, '@');
    }
    let behind_user: &Vec<char> = &by_user[by_user.len() - 1];
    let by_port: Vec<Vec<char>> = text::split(behind_user.as_slice(), ':');
    proof {
        text::lemma_split_on_is_not_empty(behind_user@, ':');
    }
    text::text_of(by_port[0].as_slice())
}

/// Whether a URL leads to a set or a playlist of SoundCloud, of which no audio
/// can be made.
pub fn is_soundcloud_playlist_item_url(url: &str) -> (yes: bool)
    ensures
        yes == is_playlist_url(url@),
{
    let chars: Vec<char> = text::chars_of(url);
    let scheme_end: Vec<char> = text::chars_of("://");
    let slash: Vec<char> = text::chars_of("/");
    let rest: &[char] = match text::split_once(chars.as_slice(), scheme_end.as_slice()) {
        Some((_, rest)) => rest,
        None => {
            return false;
        },
    };
    let (authority, path): (&[char], &[char]) = match text::split_once(rest, slash.as_slice()) {
        Some(parts) => parts,
        None => {
            return false;
        },
    };
    let host: String = find_host(authority);
    let end: usize = find_query(path);
    let named: &[char] = vstd::slice::slice_subrange(path, 0, end);
    assert(named@ == path@.take(end as int));
    if text::same_text(host.as_str(), "soundcloud.com") || text::same_text(
        host.as_str(),
        "www.soundcloud.com",
    ) {
        has_part(named, "sets")
    } else if text::same_text(host.as_str(), "api-v2.soundcloud.com") {
        begins_with_part(named, "playlists")
    } else {
        false
    }
}

fn has_part(path: &[char], word: &str) -> (yes: bool)
    ensures
        yes == text::split_on(path@, '/').contains(word@),
{
    let parts: Vec<Vec<char>> = text::split(path, '/');
    let chars: Vec<char> = text::chars_of(word);
    let ghost all = text::split_on(path@, '/');
    let mut i: usize = 0;
    while i < parts.len()
        invariant
            i <= parts@.len() == all.len(),
            all == text::split_on(path@, '/'),
            chars@ == word@,
            forall|j: int| 0 <= j < parts@.len() ==> (#[trigger] parts@[j])@ == all[j],
            forall|j: int| 0 <= j < i ==> #[trigger] all[j] != word@,
        decreases parts@.len() - i,
    {
        if text::same_chars(parts[i].as_slice(), chars.as_slice()) {
            assert(all[i as int] == word@);
            return true;
        }
        i = i + 1;
    }
    false
}

fn begins_with_part(path: &[char], word: &str) -> (yes: bool)
    ensures
        yes == (text::split_on(path@, '/').first() == word@),
{
    let parts: Vec<Vec<char>> = text::split(path, '/');
    let chars: Vec<char> = text::chars_of(word);
    proof {
        text::lemma_split_on_is_not_empty(path@, '/');
    }
    text::same_chars(parts[0].as_slice(), chars.as_slice())
}

/// What is said of an item whose uploader is known.
pub open spec fn uploader_text(uploader: Option<String>) -> Option<Seq<char>> {
    match uploader {
        Some(name) => Some("Uploaded by "@ + name@),
        None => None,
    }
}

/// The item that an entry becomes.
pub open spec fn item_of(entry: PlaylistEntry) -> ItemView {
    ItemView {
        id: entry.id@,
        title: entry.title@,
        webpage_url: entry.url@,
        description: uploader_text(entry.uploader),
        published_at: None,
        content_length: None,
        thumbnail_url: text::optional(entry.thumbnail),
    }
}

/// The items that entries become, in their order: one each, but none for sets
/// and playlists.
pub open spec fn items_of(entries: Seq<PlaylistEntry>) -> Seq<ItemView>
    decreases entries.len(),
{
    if entries.len() == 0 {
        Seq::empty()
    } else if is_playlist_url(entries.last().url@) {
        items_of(entries.drop_last())
    } else {
        items_of(entries.drop_last()).push(item_of(entries.last()))
    }
}

fn entry_item(entry: &PlaylistEntry) -> (item: FeedItem)
    ensures
        item@ == item_of(*entry),
{
    let description: Option<String> = match &entry.uploader {
        Some(uploader) => {
            let mut said: String = "Uploaded by ".to_owned();
            said.append(uploader.as_str());
            Some(said)
        },
        None => None,
    };
    FeedItem {
        id: entry.id.clone(),
        title: entry.title.clone(),
        webpage_url: entry.url.clone(),
        description,
        published_at: None,
        content_length: None,
        thumbnail_url: text::copy_optional(&entry.thumbnail),
    }
}

/// The items that the entries of a playlist become, and how many entries were
/// left out because they are sets or playlists.
pub fn items_from_entries(entries: &Vec<PlaylistEntry>) -> (result: (Vec<FeedItem>, usize))
    ensures
        items_view(result.0@) == items_of(entries@),
        result.0@.len() + result.1 == entries@.len(),
{
    let mut items: Vec<FeedItem> = Vec::new();
    let mut skipped: usize = 0;
    let mut i: usize = 0;
    assert(items_view(items@) =~= items_of(entries@.take(0)));
    while i < entries.len()
        invariant
            i <= entries@.len(),
            items_view(items@) == items_of(entries@.take(i as int)),
            items@.len() + skipped == i,
        decreases entries@.len() - i,
    {
        assert(entries@.take(i + 1).drop_last() == entries@.take(i as int));
        if is_soundcloud_playlist_item_url(entries[i].url.as_str()) {
            skipped = skipped + 1;
        } else {
            let ghost before = items@;
            items.push(entry_item(&entries[i]));
            assert(items_view(items@) =~= items_view(before).push(item_of(entries@[i as int])));
        }
        i = i + 1;
    }
    assert(entries@.take(entries@.len() as int) == entries@);
    (items, skipped)
}

/// What is said of a page that could not be read.
pub fn fetch_error_text(source_url: &str, feed: SoundCloudFeedKind) -> (message: String)
    ensures
        message@ == "failed to fetch "@ + feed.label_text() + " metadata for "@ + source_url@,
{
    let mut message: String = "failed to fetch ".to_owned();
    message.append(feed.label());
    message.append(" metadata for ");
    message.append(source_url);
    message
}

/// The file name of a tool.
pub open spec fn tool_file(name: Seq<char>, windows: bool) -> Seq<char> {
    if windows {
        name + ".exe"@
    } else {
        name
    }
}

/// The file name of a tool on this system.
pub fn executable_name(name: &str, windows: bool) -> (file: String)
    ensures
        file@ == tool_file(name@, windows),
{
    let mut file: String = name.to_owned();
    if windows {
        file.append(".exe");
    }
    file
}

/// The files, one in each directory, that a command may be.
pub fn tool_candidates(command_name: &str, directories: &Vec<String>, windows: bool) -> (candidates:
    Vec<String>)
    ensures
        candidates@.len() == directories@.len(),
        forall|i: int|
            0 <= i < directories@.len() ==> (#[trigger] candidates@[i])@ == paths::joined(
                directories@[i]@,
                tool_file(command_name@, windows),
            ),
{
    let file: String = executable_name(command_name, windows);
    let mut candidates: Vec<String> = Vec::new();
    let mut i: usize = 0;
    while i < directories.len()
        invariant
            i <= directories@.len(),
            file@ == tool_file(command_name@, windows),
            candidates@.len() == i,
            forall|j: int|
                0 <= j < i ==> (#[trigger] candidates@[j])@ == paths::joined(
                    directories@[j]@,
                    tool_file(command_name@, windows),
                ),
        decreases directories@.len() - i,
    {
        candidates.push(paths::join(directories[i].as_str(), file.as_str()));
        i = i + 1;
    }
    candidates
}

/// The first candidate that is a file.
pub open spec fn first_present(candidates: Seq<(String, bool)>) -> Option<Seq<char>>
    decreases candidates.len(),
{
    if candidates.len() == 0 {
        None
    } else if candidates[0].1 {
        Some(candidates[0].0@)
    } else {
        first_present(candidates.skip(1))
    }
}

/// The first candidate that is a file. Each comes with whether it is one.
pub fn find_in_paths(candidates: &Vec<(String, bool)>) -> (found: Option<String>)
    ensures
        text::optional(found) == first_present(candidates@),
{
    let mut i: usize = 0;
    assert(candidates@.skip(0) == candidates@);
    while i < candidates.len()
        invariant
            i <= candidates@.len(),
            first_present(candidates@) == first_present(candidates@.skip(i as int)),
        decreases candidates@.len() - i,
    {
        if candidates[i].1 {
            return Some(candidates[i].0.clone());
        }
        assert(candidates@.skip(i as int).skip(1) == candidates@.skip(i + 1));
        i = i + 1;
    }
    None
}

/// What is said of a tool that is nowhere.
pub open spec fn missing_tool_text(command_name: Seq<char>, preferred_path: Seq<char>) -> Seq<char> {
    "could not find "@ + command_name + "; expected "@ + preferred_path + " or a "@ + command_name
        + " executable on PATH"@
}

/// Where a tool is, if it is anywhere: the preferred file where there is one, else
/// what was found on the path.
pub open spec fn resolved_tool(
    preferred_path: Seq<char>,
    preferred_is_file: bool,
    found: Option<Seq<char>>,
) -> Option<Seq<char>> {
    if preferred_is_file {
        Some(preferred_path)
    } else {
        found
    }
}

/// Where a tool is: the preferred file where there is one, else what was found
/// on the path.
pub fn resolve_tool_path(
    preferred_path: &str,
    preferred_is_file: bool,
    found: Option<String>,
    command_name: &str,
) -> (path: Result<String, String>)
    ensures
        match path {
            Ok(tool) => {
                ||| preferred_is_file && tool@ == preferred_path@
                ||| !preferred_is_file && text::optional(found) == Some(tool@)
            },
            Err(reason) => {
                &&& !preferred_is_file
                &&& found is None
                &&& reason@ == missing_tool_text(command_name@, preferred_path@)
            },
        },
        match path {
            Ok(tool) => resolved_tool(preferred_path@, preferred_is_file, text::optional(found))
                == Some(tool@),
            Err(_) => resolved_tool(
                preferred_path@,
                preferred_is_file,
                text::optional(found),
            ) is None,
        },
{
    if preferred_is_file {
        return Ok(preferred_path.to_owned());
    }
    match found {
        Some(tool) => Ok(tool),
        None => {
            let mut reason: String = "could not find ".to_owned();
            reason.append(command_name);
            reason.append("; expected ");
            reason.append(preferred_path);
            reason.append(" or a ");
            reason.append(command_name);
            reason.append(" executable on PATH");
            Err(reason)
        },
    }
}

/// The arguments that ask for progress lines, or for none.
pub open spec fn progress_args(progress_logging: bool) -> Seq<Seq<char>> {
    if progress_logging {
        seq![
            "--newline"@,
            "--progress"@,
            "--progress-delta"@,
            "1"@,
            "--progress-template"@,
            "download:yt-dlp-rss-progress|%(progress.status|)s|%(progress.downloaded_bytes|)s|%(progress.total_bytes|)s|%(progress.total_bytes_estimate|)s|%(progress.speed|)s|%(progress.eta|)s"@,
        ]
    } else {
        seq!["--no-progress"@]
    }
}

/// The arguments of a download.
pub open spec fn download_args(
    ffmpeg_path: Seq<char>,
    output_template: Seq<char>,
    source_url: Seq<char>,
    progress_logging: bool,
) -> Seq<Seq<char>> {
    seq![
        "--no-playlist"@,
        "--playlist-items"@,
        "1"@,
        "--no-part"@,
        "--ffmpeg-location"@,
        ffmpeg_path,
        "-f"@,
        "bestaudio[ext=m4a]"@,
        "-o"@,
        output_template,
    ] + progress_args(progress_logging) + seq![source_url]
}

/// The arguments with which yt-dlp downloads the audio of one item.
pub fn ytdlp_download_args(
    ffmpeg_path: &str,
    output_template: &str,
    source_url: &str,
    progress_logging: bool,
) -> (args: Vec<String>)
    ensures
        text::texts(args@) == download_args(
            ffmpeg_path@,
            output_template@,
            source_url@,
            progress_logging,
        ),
        args@.last()@ == source_url@,
        has_option(text::texts(args@), "-o"@, output_template@),
        has_option(text::texts(args@), "--ffmpeg-location"@, ffmpeg_path@),
{
    let mut args: Vec<String> = vec![
        "--no-playlist".to_owned(),
        "--playlist-items".to_owned(),
        "1".to_owned(),
        "--no-part".to_owned(),
        "--ffmpeg-location".to_owned(),
        ffmpeg_path.to_owned(),
        "-f".to_owned(),
        "bestaudio[ext=m4a]".to_owned(),
        "-o".to_owned(),
        output_template.to_owned(),
    ];
    if progress_logging {
        args.push("--newline".to_owned());
        args.push("--progress".to_owned());
        args.push("--progress-delta".to_owned());
        args.push("1".to_owned());
        args.push("--progress-template".to_owned());
        args.push(
            "download:yt-dlp-rss-progress|%(progress.status|)s|%(progress.downloaded_bytes|)s|%(progress.total_bytes|)s|%(progress.total_bytes_estimate|)s|%(progress.speed|)s|%(progress.eta|)s".to_owned(),
        );
    } else {
        args.push("--no-progress".to_owned());
    }
    args.push(source_url.to_owned());
    assert(text::texts(args@) =~= download_args(
        ffmpeg_path@,
        output_template@,
        source_url@,
        progress_logging,
    ));
    assert(text::texts(args@)[8] == "-o"@ && text::texts(args@)[9] == output_template@);
    assert(text::texts(args@)[4] == "--ffmpeg-location"@ && text::texts(args@)[5] == ffmpeg_path@);
    args
}

proof fn lemma_tail_of_sum(head: Seq<char>, tail: Seq<char>)
    ensures
        text::ends_with(head + tail, tail),
{
    assert((head + tail).skip(head.len() as int) =~= tail);
}

proof fn lemma_name_with_tail_is_component(name: Seq<char>, tail: Seq<char>)
    requires
        name.len() > 0,
        forall|i: int| 0 <= i < name.len() ==> #[trigger] name[i] != '/',
        tail.len() >= 2,
        forall|i: int| 0 <= i < tail.len() ==> #[trigger] tail[i] != '/',
    ensures
        paths::is_component(name + tail),
{
    let whole = name + tail;
    assert(seq!['.'].len() == 1 && seq!['.', '.'].len() == 2);
    assert forall|i: int| 0 <= i < whole.len() implies #[trigger] whole[i] != '/' by {
        if i < name.len() {
            assert(whole[i] == name[i]);
        } else {
            assert(whole[i] == tail[i - name.len()]);
        }
    }
}

/// The cleaning of the media directory leaves every temporary file alone,
/// whatever is known of it and whatever the limits.
pub proof fn lemma_temp_file_is_left_alone(
    output_path: Seq<char>,
    facts: FileFacts,
    now: int,
    ttl: Option<u128>,
)
    requires
        temp_path_of(output_path) is Some,
    ensures
        cleanup::observation(temp_path_of(output_path)->0, facts, now, ttl) is Skip,
{
    let name = paths::file_name_of(output_path)->0;
    let tail = ".download.m4a"@;
    reveal_strlit(".download.m4a");
    paths::lemma_file_name_is_component(output_path);
    lemma_name_with_tail_is_component(name, tail);
    lemma_tail_of_sum(name, tail);
    paths::lemma_joined_file_name(paths::parent_of(output_path), name + tail);
}

/// The file that media of a key is kept in is completed media to the cleaning
/// of the media directory.
pub proof fn lemma_media_file_is_completed(data_dir: Seq<char>, key: Seq<char>)
    requires
        is_cache_key(key),
    ensures
        cleanup::names_completed_media(media_path_of(data_dir, key)),
{
    let tail = ".m4a"@;
    let long_tail = ".download.m4a"@;
    reveal_strlit(".m4a");
    reveal_strlit(".download.m4a");
    assert forall|i: int| 0 <= i < key.len() implies #[trigger] key[i] != '/' by {
        assert('0' <= key[i] <= '9' || 'a' <= key[i] <= 'f');
    }
    lemma_name_with_tail_is_component(key, tail);
    lemma_tail_of_sum(key, tail);
    paths::lemma_joined_file_name(paths::joined(data_dir, "media"@), key + tail);
    let name = key + tail;
    if text::ends_with(name, long_tail) {
        let end = name.skip(name.len() - long_tail.len());
        assert(end[0] == '.');
        assert(end[0] == key[key.len() - 9]);
        assert('0' <= key[key.len() - 9] <= '9' || 'a' <= key[key.len() - 9] <= 'f');
    }
}

/// Whether an option stands among arguments with its value right behind it.
pub open spec fn has_option(args: Seq<Seq<char>>, option: Seq<char>, value: Seq<char>) -> bool {
    exists|i: int|
        0 <= i < args.len() - 1 && #[trigger] args[i] == option && args[i + 1] == value
}

/// A download is asked for by its source, which is the last argument; it goes to
/// the output template, which stands behind `-o`; and it is made with the given
/// ffmpeg, which stands behind `--ffmpeg-location`. It is of the best M4A audio of
/// one item, in one file from the start. Progress lines are asked for, or
/// switched off, before the source.
pub proof fn lemma_download_names_its_source(
    ffmpeg_path: Seq<char>,
    output_template: Seq<char>,
    source_url: Seq<char>,
    progress_logging: bool,
)
    ensures
        ({
            let args = download_args(ffmpeg_path, output_template, source_url, progress_logging);
            &&& args.last() == source_url
            &&& has_option(args.drop_last(), "-o"@, output_template)
            &&& has_option(args.drop_last(), "--ffmpeg-location"@, ffmpeg_path)
            &&& has_option(args.drop_last(), "-f"@, "bestaudio[ext=m4a]"@)
            &&& has_option(args.drop_last(), "--playlist-items"@, "1"@)
            &&& args.drop_last().contains("--no-playlist"@)
            &&& args.drop_last().contains("--no-part"@)
            &&& progress_logging ==> args.len() == 17 && args.drop_last().contains("--newline"@)
                && args.drop_last().contains("--progress"@) && has_option(
                args.drop_last(),
                "--progress-delta"@,
                "1"@,
            )
            &&& !progress_logging ==> args.len() == 12 && args.drop_last().contains(
                "--no-progress"@,
            )
        }),
{
    let args = download_args(ffmpeg_path, output_template, source_url, progress_logging);
    let front = args.drop_last();
    assert(front[0] == "--no-playlist"@);
    assert(front[1] == "--playlist-items"@ && front[2] == "1"@);
    assert(front[3] == "--no-part"@);
    assert(front[4] == "--ffmpeg-location"@ && front[5] == ffmpeg_path);
    assert(front[6] == "-f"@ && front[7] == "bestaudio[ext=m4a]"@);
    assert(front[8] == "-o"@ && front[9] == output_template);
    if progress_logging {
        assert(front[10] == "--newline"@);
        assert(front[11] == "--progress"@);
        assert(front[12] == "--progress-delta"@ && front[13] == "1"@);
    } else {
        assert(front[10] == "--no-progress"@);
    }
}

/// The lines that a download with progress writes begin as progress lines do, and
/// have a field for each of the six values that are read from them, in the order
/// in which they are read.
pub proof fn lemma_progress_lines_can_be_read(
    ffmpeg_path: Seq<char>,
    output_template: Seq<char>,
    source_url: Seq<char>,
)
    ensures
        has_option(
            download_args(ffmpeg_path, output_template, source_url, true),
            "--progress-template"@,
            "download:"@ + ("yt-dlp-rss-progress|"@ + ("%(progress.status|)s"@
                + "|%(progress.downloaded_bytes|)s"@ + "|%(progress.total_bytes|)s"@
                + "|%(progress.total_bytes_estimate|)s"@ + "|%(progress.speed|)s"@
                + "|%(progress.eta|)s"@)),
        ),
{
    let args = download_args(ffmpeg_path, output_template, source_url, true);
    reveal_strlit("download:yt-dlp-rss-progress|%(progress.status|)s|%(progress.downloaded_bytes|)s|%(progress.total_bytes|)s|%(progress.total_bytes_estimate|)s|%(progress.speed|)s|%(progress.eta|)s");
    reveal_strlit("download:");
    reveal_strlit("yt-dlp-rss-progress|");
    reveal_strlit("%(progress.status|)s");
    reveal_strlit("|%(progress.downloaded_bytes|)s");
    reveal_strlit("|%(progress.total_bytes|)s");
    reveal_strlit("|%(progress.total_bytes_estimate|)s");
    reveal_strlit("|%(progress.speed|)s");
    reveal_strlit("|%(progress.eta|)s");
    assert(args[14] == "--progress-template"@);
    assert(args[15] =~= "download:"@ + ("yt-dlp-rss-progress|"@ + ("%(progress.status|)s"@
        + "|%(progress.downloaded_bytes|)s"@ + "|%(progress.total_bytes|)s"@
        + "|%(progress.total_bytes_estimate|)s"@ + "|%(progress.speed|)s"@
        + "|%(progress.eta|)s"@)));
}

/// The items of a playlist are its entries that are no sets or playlists, each of
/// them once and in their order: the item at `k` is the entry at `at[k]`, with its
/// id, its title, its page and its artwork; it says who uploaded it where that is
/// known; and its date and size are not known.
pub proof fn lemma_items_are_their_entries(entries: Seq<PlaylistEntry>) -> (at: Seq<int>)
    ensures
        at.len() == items_of(entries).len(),
        forall|k: int|
            0 <= k < at.len() ==> 0 <= #[trigger] at[k] < entries.len() && !is_playlist_url(
                entries[at[k]].url@,
            ),
        forall|j: int, k: int| 0 <= j < k < at.len() ==> #[trigger] at[j] < #[trigger] at[k],
        forall|i: int|
            0 <= i < entries.len() && !is_playlist_url((#[trigger] entries[i]).url@)
                ==> at.contains(i),
        forall|k: int|
            0 <= k < at.len() ==> {
                let item = #[trigger] items_of(entries)[k];
                let entry = entries[at[k]];
                &&& item.id == entry.id@
                &&& item.title == entry.title@
                &&& item.webpage_url == entry.url@
                &&& item.thumbnail_url is Some <==> entry.thumbnail is Some
                &&& entry.thumbnail is Some ==> item.thumbnail_url->0 == entry.thumbnail->0@
                &&& item.description is Some <==> entry.uploader is Some
                &&& entry.uploader is Some ==> item.description->0 == "Uploaded by "@
                    + entry.uploader->0@
                &&& item.published_at is None
                &&& item.content_length is None
            },
    decreases entries.len(),
{
    if entries.len() == 0 {
        Seq::empty()
    } else {
        let front = entries.drop_last();
        let before = lemma_items_are_their_entries(front);
        let last = entries.len() - 1;
        let at = if is_playlist_url(entries.last().url@) {
            before
        } else {
            before.push(last)
        };
        assert forall|k: int| 0 <= k < at.len() implies 0 <= #[trigger] at[k] < entries.len()
            && !is_playlist_url(entries[at[k]].url@) by {
            if k < before.len() {
                assert(at[k] == before[k]);
                assert(front[before[k]] == entries[at[k]]);
            }
        }
        assert forall|j: int, k: int| 0 <= j < k < at.len() implies #[trigger] at[j]
            < #[trigger] at[k] by {
            assert(at[j] == before[j]);
            if k < before.len() {
                assert(at[k] == before[k]);
            }
        }
        assert forall|i: int|
            0 <= i < entries.len() && !is_playlist_url((#[trigger] entries[i]).url@) implies at.contains(
            i,
        ) by {
            if i == last {
                assert(at[at.len() - 1] == last);
            } else {
                assert(front[i] == entries[i]);
                assert(before.contains(i));
                let k = choose|k: int| 0 <= k < before.len() && before[k] == i;
                assert(at[k] == i);
            }
        }
        assert forall|k: int| 0 <= k < at.len() implies {
            let item = #[trigger] items_of(entries)[k];
            let entry = entries[at[k]];
            &&& item.id == entry.id@
            &&& item.title == entry.title@
            &&& item.webpage_url == entry.url@
            &&& item.thumbnail_url is Some <==> entry.thumbnail is Some
            &&& entry.thumbnail is Some ==> item.thumbnail_url->0 == entry.thumbnail->0@
            &&& item.description is Some <==> entry.uploader is Some
            &&& entry.uploader is Some ==> item.description->0 == "Uploaded by "@
                + entry.uploader->0@
            &&& item.published_at is None
            &&& item.content_length is None
        } by {
            if k < before.len() {
                assert(at[k] == before[k]);
                assert(front[before[k]] == entries[at[k]]);
                assert(items_of(entries)[k] == items_of(front)[k]);
            }
        }
        at
    }
}

proof fn lemma_query_is_found(path: Seq<char>, query: Seq<char>)
    requires
        !path.contains('?'),
        !path.contains('#'),
        query.len() > 0 ==> query[0] == '?' || query[0] == '#',
    ensures
        query_start(path + query) == path.len(),
    decreases path.len(),
{
    let whole = path + query;
    if path.len() == 0 {
        assert(whole =~= query);
    } else {
        assert(path.contains(path[0]));
        let rest = path.skip(1);
        assert(!rest.contains('?')) by {
            if rest.contains('?') {
                let k = choose|k: int| 0 <= k < rest.len() && rest[k] == '?';
                assert(path[k + 1] == '?');
            }
        }
        assert(!rest.contains('#')) by {
            if rest.contains('#') {
                let k = choose|k: int| 0 <= k < rest.len() && rest[k] == '#';
                assert(path[k + 1] == '#');
            }
        }
        lemma_query_is_found(rest, query);
        assert(whole.skip(1) =~= rest + query);
    }
}

/// Which pages are sets or playlists, by the parts of their URLs: on
/// `soundcloud.com` and `www.soundcloud.com` those with a component `sets` in
/// their path, on `api-v2.soundcloud.com` those whose path begins with the
/// component `playlists`, and on no other host any. Neither the user and the port
/// beside the host nor the query and the fragment behind the path matter.
pub proof fn lemma_sets_and_playlists(
    scheme: Seq<char>,
    user: Seq<char>,
    host: Seq<char>,
    port: Seq<char>,
    path: Seq<char>,
    query: Seq<char>,
)
    requires
        !scheme.contains(':'),
        user.len() > 0 ==> user.last() == '@',
        !user.contains('/'),
        !host.contains('@') && !host.contains(':') && !host.contains('/'),
        port.len() > 0 ==> port[0] == ':',
        !port.contains('@') && !port.contains('/'),
        !path.contains('?') && !path.contains('#'),
        query.len() > 0 ==> query[0] == '?' || query[0] == '#',
    ensures
        is_playlist_url(
            scheme + "://"@ + ((user + (host + port)) + "/"@ + (path + query)),
        ) <==> {
            let parts = text::split_on(path, '/');
            ||| (host == "soundcloud.com"@ || host == "www.soundcloud.com"@) && parts.contains(
                "sets"@,
            )
            ||| host == "api-v2.soundcloud.com"@ && parts[0] == "playlists"@
        },
{
    reveal_strlit("://");
    reveal_strlit("/");
    reveal_strlit("soundcloud.com");
    reveal_strlit("www.soundcloud.com");
    reveal_strlit("api-v2.soundcloud.com");
    let authority = user + (host + port);
    let rest = authority + "/"@ + (path + query);
    text::lemma_parts_around_pattern(scheme, "://"@, rest);
    assert(!authority.contains('/')) by {
        if authority.contains('/') {
            let k = choose|k: int| 0 <= k < authority.len() && authority[k] == '/';
            if k < user.len() {
                assert(user[k] == '/');
            } else if k < user.len() + host.len() {
                assert(host[k - user.len()] == '/');
            } else {
                assert(port[k - user.len() - host.len()] == '/');
            }
        }
    }
    text::lemma_parts_around_pattern(authority, "/"@, path + query);
    assert(!(host + port).contains('@')) by {
        if (host + port).contains('@') {
            let k = choose|k: int| 0 <= k < (host + port).len() && (host + port)[k] == '@';
            if k < host.len() {
                assert(host[k] == '@');
            } else {
                assert(port[k - host.len()] == '@');
            }
        }
    }
    text::lemma_last_part(user, host + port, '@');
    text::lemma_first_part(host, port, ':');
    assert(host_of(authority) == host);
    lemma_query_is_found(path, query);
    assert((path + query).take(path.len() as int) =~= path);
    text::lemma_split_on_is_not_empty(path, '/');
}

/// The temporary file of a media file stands in the same directory, under the
/// media file's name with `.download.m4a` behind it.
pub proof fn lemma_temp_file_stands_beside(directory: Seq<char>, name: Seq<char>)
    requires
        paths::is_component(name),
        directory.len() > 0,
        directory.last() != '/',
        directory.last() == '.' ==> directory.len() > 1 && directory[directory.len() - 2] != '/',
    ensures
        temp_path_of(directory.push('/') + name) == Some(
            directory.push('/') + name + ".download.m4a"@,
        ),
{
    reveal_strlit(".download.m4a");
    assert(name[0] != '/');
    assert(directory.push('/') + name == paths::joined(directory, name));
    paths::lemma_joined_file_name(directory, name);
    paths::lemma_joined_parent(directory, name);
    assert((name + ".download.m4a"@)[0] == name[0]);
    assert(temp_path_of(directory.push('/') + name)->0 =~= directory.push('/') + name
        + ".download.m4a"@);
}

/// Media of a key is kept in the directory `media` of the data directory, in the
/// file with the key's name and `.m4a` behind it; so different keys have different
/// files.
pub proof fn lemma_media_file_of_key(data_dir: Seq<char>, key: Seq<char>, other: Seq<char>)
    requires
        is_cache_key(key),
        is_cache_key(other),
    ensures
        text::ends_with(media_path_of(data_dir, key), "media/"@ + key + ".m4a"@),
        text::begins_with(media_path_of(data_dir, key), data_dir),
        media_path_of(data_dir, key) == media_path_of(data_dir, other) ==> key == other,
{
    reveal_strlit("media");
    reveal_strlit("media/");
    reveal_strlit(".m4a");
    let path = media_path_of(data_dir, key);
    let tail = "media/"@ + key + ".m4a"@;
    assert('0' <= key[0] <= '9' || 'a' <= key[0] <= 'f');
    assert('0' <= other[0] <= '9' || 'a' <= other[0] <= 'f');
    assert((key + ".m4a"@)[0] == key[0]);
    assert((other + ".m4a"@)[0] == other[0]);
    assert(path.skip(path.len() - tail.len()) =~= tail);
    assert(path.take(data_dir.len() as int) =~= data_dir);
    if path == media_path_of(data_dir, other) {
        let at = path.len() - 68;
        assert(key =~= path.subrange(at, at + 64));
        assert(other =~= path.subrange(at, at + 64));
    }
}

/// The first file that is there is one of the candidates, it is there, and none
/// before it is; where none is found, none is there.
pub proof fn lemma_first_present_is_first(candidates: Seq<(String, bool)>)
    ensures
        match first_present(candidates) {
            Some(path) => exists|i: int|
                {
                    &&& 0 <= i < candidates.len()
                    &&& (#[trigger] candidates[i]).1
                    &&& candidates[i].0@ == path
                    &&& forall|j: int| 0 <= j < i ==> !(#[trigger] candidates[j]).1
                },
            None => forall|j: int| 0 <= j < candidates.len() ==> !(#[trigger] candidates[j]).1,
        },
    decreases candidates.len(),
{
    if candidates.len() > 0 && !candidates[0].1 {
        let rest = candidates.skip(1);
        lemma_first_present_is_first(rest);
        match first_present(candidates) {
            Some(path) => {
                let k = choose|i: int|
                    {
                        &&& 0 <= i < rest.len()
                        &&& (#[trigger] rest[i]).1
                        &&& rest[i].0@ == path
                        &&& forall|j: int| 0 <= j < i ==> !(#[trigger] rest[j]).1
                    };
                assert(candidates[k + 1] == rest[k]);
                assert forall|j: int| 0 <= j < k + 1 implies !(#[trigger] candidates[j]).1 by {
                    if j > 0 {
                        assert(candidates[j] == rest[j - 1]);
                    }
                }
            },
            None => {
                assert forall|j: int| 0 <= j < candidates.len() implies !(
                #[trigger] candidates[j]).1 by {
                    if j > 0 {
                        assert(candidates[j] == rest[j - 1]);
                    }
                }
            },
        }
    } else if candidates.len() > 0 {
        assert(candidates[0].1);
    }
}

/// A tool is looked for under its name, and on Windows under its name with `.exe`
/// behind it.
pub proof fn lemma_tool_file_names(name: Seq<char>)
    ensures
        tool_file(name, false) == name,
        tool_file(name, true) == name + ".exe"@,
{
}

/// What is said of a tool that is nowhere names the tool and the file where it was
/// expected.
pub proof fn lemma_missing_tool_is_named(command_name: Seq<char>, preferred_path: Seq<char>)
    ensures
        text::begins_with(
            missing_tool_text(command_name, preferred_path),
            "could not find "@ + command_name,
        ),
        text::occurs_in(
            missing_tool_text(command_name, preferred_path),
            "; expected "@ + preferred_path + " or a "@ + command_name,
        ),
{
    let whole = missing_tool_text(command_name, preferred_path);
    let head = "could not find "@ + command_name;
    let part = "; expected "@ + preferred_path + " or a "@ + command_name;
    let tail = " executable on PATH"@;
    assert(whole =~= head + part + tail);
    text::lemma_part_stands(head, part, tail);
    assert(whole.take(head.len() as int) =~= head);
}

/// A tool is taken from the preferred file wherever there is one; only where there
/// is none does it matter what was found on the path, and only where nothing was is
/// the tool missing.
pub proof fn lemma_preferred_tool_is_taken(
    preferred_path: Seq<char>,
    found: Option<Seq<char>>,
)
    ensures
        resolved_tool(preferred_path, true, found) == Some(preferred_path),
        resolved_tool(preferred_path, false, found) == found,
        forall|is_file: bool|
            #[trigger] resolved_tool(preferred_path, is_file, found) is None <==> !is_file && found
                is None,
{
}

} // verus!
