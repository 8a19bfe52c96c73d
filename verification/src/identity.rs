//! What a feed is known by, the files named after it, and tables keyed by it.
use vstd::prelude::*;

use crate::config::ServiceConfig;
use crate::config::ServiceKind;
use crate::config::SoundCloudFeedKind;
use crate::digest;
use crate::paths;
use crate::text;

verus! {

/// A feed of a service of a user.
#[derive(Debug, PartialEq, Eq, Hash)]
pub struct FeedIdentity {
    pub user: String,
    pub service: ServiceKind,
    pub name: String,
    pub feed: SoundCloudFeedKind,
}

/// What a feed is known by.
#[verifier::ext_equal]
pub struct IdentityView {
    pub user: Seq<char>,
    pub service: ServiceKind,
    pub name: Seq<char>,
    pub feed: SoundCloudFeedKind,
}

impl View for FeedIdentity {
    type V = IdentityView;

    open spec fn view(&self) -> IdentityView {
        IdentityView {
            user: self.user@,
            service: self.service,
            name: self.name@,
            feed: self.feed,
        }
    }
}

impl Clone for FeedIdentity {
    fn clone(&self) -> (copy: FeedIdentity)
        ensures
            copy@ == self@,
    {
        FeedIdentity {
            user: self.user.clone(),
            service: self.service,
            name: self.name.clone(),
            feed: self.feed,
        }
    }
}

impl FeedIdentity {
    /// Whether two identities are of the same feed.
    pub fn same(&self, other: &FeedIdentity) -> (yes: bool)
        ensures
            yes == (self@ == other@),
    {
        self.service == other.service && self.feed == other.feed && text::same_text(
            self.user.as_str(),
            other.user.as_str(),
        ) && text::same_text(self.name.as_str(), other.name.as_str())
    }
}

/// The identity of a feed of a service of a user.
pub fn identity_for(user: &str, service: &ServiceConfig, feed: SoundCloudFeedKind) -> (identity:
    FeedIdentity)
    ensures
        identity@ == (IdentityView {
            user: user@,
            service: service.kind,
            name: service.name@,
            feed,
        }),
{
    FeedIdentity {
        user: user.to_owned(),
        service: service.kind,
        name: service.name.clone(),
        feed,
    }
}

/// Whether a character may stand in a file's name as it is.
pub open spec fn is_safe(ch: char) -> bool {
    'a' <= ch <= 'z' || 'A' <= ch <= 'Z' || '0' <= ch <= '9' || ch == '-' || ch == '_'
}

/// A character as it stands in a file's name.
pub open spec fn safe_char(ch: char) -> char {
    if is_safe(ch) {
        ch
    } else {
        '_'
    }
}

/// A label as it stands in a file's name.
pub open spec fn safe_text(label: Seq<char>) -> Seq<char> {
    if label.len() == 0 {
        "empty"@
    } else {
        label.map_values(|ch: char| safe_char(ch))
    }
}

/// A label as it stands in a file's name: letters, digits, `-` and `_` stay, any
/// other character becomes `_`, and the empty label becomes a word.
pub fn safe_part(input: &str) -> (output: String)
    ensures
        output@ == safe_text(input@),
{
    let chars: Vec<char> = text::chars_of(input);
    if chars.len() == 0 {
        return "empty".to_owned();
    }
    let mut output: String = String::new();
    let mut i: usize = 0;
    assert(output@ =~= chars@.take(0).map_values(|ch: char| safe_char(ch)));
    while i < chars.len()
        invariant
            i <= chars@.len(),
            output@ == chars@.take(i as int).map_values(|ch: char| safe_char(ch)),
        decreases chars@.len() - i,
    {
        let ch: char = chars[i];
        if ('a' <= ch && ch <= 'z') || ('A' <= ch && ch <= 'Z') || ('0' <= ch && ch <= '9') || ch
            == '-' || ch == '_' {
            output.push(ch);
        } else {
            output.push('_');
        }
        assert(output@ =~= chars@.take(i + 1).map_values(|ch: char| safe_char(ch)));
        i = i + 1;
    }
    assert(chars@.take(chars@.len() as int) == chars@);
    output
}

/// The digest of an identity.
pub open spec fn identity_digest(identity: IdentityView) -> Seq<char> {
    digest::label_digest(
        identity.user,
        identity.service.path(),
        identity.name,
        identity.feed.slug_text(),
    )
}

/// The digest of an identity.
pub fn identity_hash(identity: &FeedIdentity) -> (hash: String)
    ensures
        hash@ == identity_digest(identity@),
        hash@.len() == 64,
        digest::is_hex(hash@),
{
    digest::digest_labels(
        identity.user.as_str(),
        identity.service.as_path(),
        identity.name.as_str(),
        identity.feed.slug(),
    )
}

/// The name, without its extension, of the file that a feed's metadata is kept
/// in: what it is known by, readable, and the start of its digest.
pub open spec fn file_stem(identity: IdentityView) -> Seq<char> {
    safe_text(identity.user) + "__"@ + safe_text(identity.service.path()) + "__"@ + safe_text(
        identity.name,
    ) + "__"@ + safe_text(identity.feed.slug_text()) + "__"@ + identity_digest(identity).take(12)
}

/// The name, without its extension, of the file that a feed's metadata is kept
/// in. Whatever the feed is called, it holds nothing but letters, digits, `-`
/// and `_`.
pub fn cache_file_stem(identity: &FeedIdentity) -> (stem: String)
    ensures
        stem@ == file_stem(identity@),
        all_safe(stem@),
        stem@.len() > 0,
{
    let mut stem: String = safe_part(identity.user.as_str());
    stem.append("__");
    let service: String = safe_part(identity.service.as_path());
    stem.append(service.as_str());
    stem.append("__");
    let name: String = safe_part(identity.name.as_str());
    stem.append(name.as_str());
    stem.append("__");
    let feed: String = safe_part(identity.feed.slug());
    stem.append(feed.as_str());
    stem.append("__");
    let hash: String = identity_hash(identity);
    let chars: Vec<char> = text::chars_of(hash.as_str());
    let start: &[char] = vstd::slice::slice_subrange(chars.as_slice(), 0, 12);
    assert(start@ =~= hash@.take(12));
    let start: String = text::text_of(start);
    stem.append(start.as_str());
    proof {
        lemma_file_stem_is_safe(identity@);
    }
    stem
}

/// Whether all characters of a text may stand in a file's name.
pub open spec fn all_safe(s: Seq<char>) -> bool {
    forall|i: int| 0 <= i < s.len() ==> is_safe(#[trigger] s[i])
}

proof fn lemma_safe_text_is_safe(label: Seq<char>)
    ensures
        all_safe(safe_text(label)),
        safe_text(label).len() > 0,
{
    reveal_strlit("empty");
}

proof fn lemma_safe_sum(left: Seq<char>, right: Seq<char>)
    requires
        all_safe(left),
        all_safe(right),
    ensures
        all_safe(left + right),
{
    assert forall|i: int| 0 <= i < (left + right).len() implies is_safe(
        #[trigger] (left + right)[i],
    ) by {
        if i < left.len() {
            assert(is_safe(left[i]));
        } else {
            assert(is_safe(right[i - left.len()]));
        }
    }
}

proof fn lemma_file_stem_is_safe(identity: IdentityView)
    requires
        identity_digest(identity).len() == 64,
        digest::is_hex(identity_digest(identity)),
    ensures
        all_safe(file_stem(identity)),
        file_stem(identity).len() > 0,
{
    let user = safe_text(identity.user);
    let service = safe_text(identity.service.path());
    let name = safe_text(identity.name);
    let feed = safe_text(identity.feed.slug_text());
    let start = identity_digest(identity).take(12);
    reveal_strlit("__");
    lemma_safe_text_is_safe(identity.user);
    lemma_safe_text_is_safe(identity.service.path());
    lemma_safe_text_is_safe(identity.name);
    lemma_safe_text_is_safe(identity.feed.slug_text());
    assert forall|i: int| 0 <= i < start.len() implies is_safe(#[trigger] start[i]) by {
        assert(start[i] == identity_digest(identity)[i]);
    }
    lemma_safe_sum(user, "__"@);
    lemma_safe_sum(user + "__"@, service);
    lemma_safe_sum(user + "__"@ + service, "__"@);
    lemma_safe_sum(user + "__"@ + service + "__"@, name);
    lemma_safe_sum(user + "__"@ + service + "__"@ + name, "__"@);
    lemma_safe_sum(user + "__"@ + service + "__"@ + name + "__"@, feed);
    lemma_safe_sum(user + "__"@ + service + "__"@ + name + "__"@ + feed, "__"@);
    lemma_safe_sum(user + "__"@ + service + "__"@ + name + "__"@ + feed + "__"@, start);
}

/// A file with a safe name lies in its directory, whatever that is.
pub proof fn lemma_safe_file_is_inside(directory: Seq<char>, stem: Seq<char>, extension: Seq<char>)
    requires
        all_safe(stem),
        stem.len() > 0,
        extension == ".json"@ || extension == ".json.tmp"@,
    ensures
        paths::file_name_of(paths::joined(directory, stem + extension)) == Some(stem + extension),
{
    let name = stem + extension;
    reveal_strlit(".json");
    reveal_strlit(".json.tmp");
    assert(seq!['.'].len() == 1 && seq!['.', '.'].len() == 2);
    assert forall|i: int| 0 <= i < name.len() implies #[trigger] name[i] != '/' by {
        if i < stem.len() {
            assert(is_safe(stem[i]));
        } else {
            assert(name[i] == extension[i - stem.len()]);
        }
    }
    paths::lemma_joined_file_name(directory, name);
}

/// The file that a feed's metadata is kept in. Whatever the feed is called, it
/// lies in the directory of feed metadata.
pub fn cache_path(directory: &str, identity: &FeedIdentity) -> (path: String)
    ensures
        path@ == paths::joined(directory@, file_stem(identity@) + ".json"@),
        paths::file_name_of(path@) == Some(file_stem(identity@) + ".json"@),
{
    let mut name: String = cache_file_stem(identity);
    proof {
        lemma_safe_file_is_inside(directory@, name@, ".json"@);
    }
    name.append(".json");
    paths::join(directory, name.as_str())
}

/// The file that a feed's metadata is written into before it takes the place of
/// the one in service.
pub fn temp_cache_path(directory: &str, identity: &FeedIdentity) -> (path: String)
    ensures
        path@ == paths::joined(directory@, file_stem(identity@) + ".json.tmp"@),
        paths::file_name_of(path@) == Some(file_stem(identity@) + ".json.tmp"@),
{
    let mut name: String = cache_file_stem(identity);
    proof {
        lemma_safe_file_is_inside(directory@, name@, ".json.tmp"@);
    }
    name.append(".json.tmp");
    paths::join(directory, name.as_str())
}

/// Values kept for feeds, at most one for each.
pub struct FeedTable<T> {
    entries: Vec<(FeedIdentity, T)>,
}

/// What entries hold for feeds: the last one for a feed counts.
pub open spec fn table_map<T>(entries: Seq<(FeedIdentity, T)>) -> Map<IdentityView, T>
    decreases entries.len(),
{
    if entries.len() == 0 {
        Map::empty()
    } else {
        table_map(entries.drop_last()).insert(entries.last().0@, entries.last().1)
    }
}

/// Whether no feed has two entries.
pub open spec fn distinct_keys<T>(entries: Seq<(FeedIdentity, T)>) -> bool {
    forall|i: int, j: int|
        0 <= i < j < entries.len() ==> (#[trigger] entries[i]).0@ != (#[trigger] entries[j]).0@
}

proof fn lemma_absent<T>(entries: Seq<(FeedIdentity, T)>, key: IdentityView)
    requires
        forall|i: int| 0 <= i < entries.len() ==> (#[trigger] entries[i]).0@ != key,
    ensures
        !table_map(entries).contains_key(key),
    decreases entries.len(),
{
    if entries.len() > 0 {
        assert(entries[entries.len() - 1].0@ != key);
        assert forall|i: int| 0 <= i < entries.len() - 1 implies (#[trigger] entries.drop_last()[i]).0@
            != key by {
            assert(entries[i].0@ != key);
        }
        lemma_absent(entries.drop_last(), key);
    }
}

proof fn lemma_present<T>(entries: Seq<(FeedIdentity, T)>, at: int)
    requires
        distinct_keys(entries),
        0 <= at < entries.len(),
    ensures
        table_map(entries).contains_key(entries[at].0@),
        table_map(entries)[entries[at].0@] == entries[at].1,
    decreases entries.len(),
{
    if at < entries.len() - 1 {
        assert(entries.drop_last()[at] == entries[at]);
        assert(entries[at].0@ != entries[entries.len() - 1].0@);
        assert(distinct_keys(entries.drop_last())) by {
            assert forall|i: int, j: int| 0 <= i < j < entries.len() - 1 implies (
            #[trigger] entries.drop_last()[i]).0@ != (#[trigger] entries.drop_last()[j]).0@ by {
                assert(entries[i].0@ != entries[j].0@);
            }
        }
        lemma_present(entries.drop_last(), at);
    }
}

proof fn lemma_update<T>(entries: Seq<(FeedIdentity, T)>, at: int, entry: (FeedIdentity, T))
    requires
        distinct_keys(entries),
        0 <= at < entries.len(),
        entry.0@ == entries[at].0@,
    ensures
        distinct_keys(entries.update(at, entry)),
        table_map(entries.update(at, entry)) == table_map(entries).insert(entry.0@, entry.1),
    decreases entries.len(),
{
    let updated = entries.update(at, entry);
    assert forall|i: int, j: int| 0 <= i < j < updated.len() implies (#[trigger] updated[i]).0@ != (
    #[trigger] updated[j]).0@ by {
        assert(entries[i].0@ != entries[j].0@);
    }
    if at == entries.len() - 1 {
        assert(updated.drop_last() == entries.drop_last());
        assert(table_map(updated) =~= table_map(entries).insert(entry.0@, entry.1));
    } else {
        let front = entries.drop_last();
        assert(distinct_keys(front)) by {
            assert forall|i: int, j: int| 0 <= i < j < front.len() implies (#[trigger] front[i]).0@
                != (#[trigger] front[j]).0@ by {
                assert(entries[i].0@ != entries[j].0@);
            }
        }
        lemma_update(front, at, entry);
        assert(updated.drop_last() == front.update(at, entry));
        assert(entries[at].0@ != entries[entries.len() - 1].0@);
        assert(table_map(updated) =~= table_map(entries).insert(entry.0@, entry.1));
    }
}

impl<T> View for FeedTable<T> {
    type V = Map<IdentityView, T>;

    closed spec fn view(&self) -> Map<IdentityView, T> {
        table_map(self.entries@)
    }
}

impl<T> FeedTable<T> {
    #[verifier::type_invariant]
    spec fn has_distinct_keys(self) -> bool {
        distinct_keys(self.entries@)
    }

    /// A table with nothing in it.
    pub fn new() -> (table: FeedTable<T>)
        ensures
            table@ == Map::<IdentityView, T>::empty(),
    {
        FeedTable { entries: Vec::new() }
    }

    fn position(&self, identity: &FeedIdentity) -> (at: Option<usize>)
        ensures
            match at {
                Some(i) => i < self.entries@.len() && self.entries@[i as int].0@ == identity@,
                None => forall|i: int|
                    0 <= i < self.entries@.len() ==> (#[trigger] self.entries@[i]).0@ != identity@,
            },
    {
        let mut i: usize = 0;
        while i < self.entries.len()
            invariant
                i <= self.entries@.len(),
                forall|j: int| 0 <= j < i ==> (#[trigger] self.entries@[j]).0@ != identity@,
            decreases self.entries@.len() - i,
        {
            if self.entries[i].0.same(identity) {
                return Some(i);
            }
            i = i + 1;
        }
        None
    }

    /// The value that is kept for a feed.
    pub fn get(&self, identity: &FeedIdentity) -> (value: Option<&T>)
        ensures
            match value {
                Some(kept) => self@.contains_key(identity@) && self@[identity@] == *kept,
                None => !self@.contains_key(identity@),
            },
    {
        proof {
            use_type_invariant(self);
        }
        match self.position(identity) {
            Some(i) => {
                proof {
                    lemma_present(self.entries@, i as int);
                }
                Some(&self.entries[i].1)
            },
            None => {
                proof {
                    lemma_absent(self.entries@, identity@);
                }
                None
            },
        }
    }

    /// Keeps a value for a feed, in the place of the one that is kept.
    pub fn insert(&mut self, identity: FeedIdentity, value: T)
        ensures
            final(self)@ == old(self)@.insert(identity@, value),
    {
        proof {
            use_type_invariant(&*self);
        }
        let at: Option<usize> = self.position(&identity);
        let mut entries: Vec<(FeedIdentity, T)> = Vec::new();
        std::mem::swap(&mut entries, &mut self.entries);
        let ghost before = entries@;
        match at {
            Some(i) => {
                proof {
                    lemma_update(before, i as int, (identity, value));
                }
                entries.set(i, (identity, value));
            },
            None => {
                entries.push((identity, value));
                assert(entries@.drop_last() == before);
                assert forall|i: int, j: int| 0 <= i < j < entries@.len() implies (
                #[trigger] entries@[i]).0@ != (#[trigger] entries@[j]).0@ by {
                    assert(entries@[i] == before[i]);
                    if j < before.len() {
                        assert(entries@[j] == before[j]);
                    }
                }
            },
        }
        self.entries = entries;
    }
}

/// A label that holds nothing but what may stand in a file's name stands there as
/// it is; any other keeps its length and its safe characters, and has `_` in the
/// place of each of the others.
pub proof fn lemma_safe_labels_are_kept(label: Seq<char>)
    requires
        label.len() > 0,
    ensures
        all_safe(safe_text(label)),
        safe_text(label).len() == label.len(),
        forall|i: int|
            0 <= i < label.len() ==> if is_safe(label[i]) {
                #[trigger] safe_text(label)[i] == label[i]
            } else {
                safe_text(label)[i] == '_'
            },
        all_safe(label) ==> safe_text(label) == label,
{
    if all_safe(label) {
        assert forall|i: int| 0 <= i < label.len() implies #[trigger] safe_text(label)[i]
            == label[i] by {
            assert(is_safe(label[i]));
        }
        assert(safe_text(label) =~= label);
    }
}

/// What may stand in a file's name: letters and digits of ASCII, `-` and `_`. No
/// separator and no dot is among it.
pub proof fn lemma_safe_characters(ch: char)
    ensures
        is_safe(ch) ==> ch != '/' && ch != '.' && ch != '\\' && ch != ' ' && ch != '\0' && (
        ch as u32) < 0x80,
        is_safe('-') && is_safe('_'),
{
}

/// Different feeds have different digests, unless two different sequences of bytes
/// have the same SHA-256 digest. No name may hold a zero character.
pub proof fn lemma_feeds_have_their_own_digests(left: IdentityView, right: IdentityView)
    requires
        digest::has_no_nul(left.user) && digest::has_no_nul(left.name),
        digest::has_no_nul(right.user) && digest::has_no_nul(right.name),
        identity_digest(left) == identity_digest(right),
    ensures
        left == right || exists|a: Seq<u8>, b: Seq<u8>| digest::is_collision(a, b),
{
    reveal_strlit("soundcloud");
    reveal_strlit("profile");
    reveal_strlit("likes");
    assert("profile"@.len() == 7 && "likes"@.len() == 5);
    digest::lemma_digests_tell_labels_apart(
        (left.user, left.service.path(), left.name, left.feed.slug_text()),
        (right.user, right.service.path(), right.name, right.feed.slug_text()),
    );
}

/// The file of a feed's metadata is named after the user, the service, the account
/// and the feed, in this order, and ends with the start of the feed's digest.
pub proof fn lemma_file_is_named_after_its_feed(identity: IdentityView)
    requires
        identity_digest(identity).len() == 64,
    ensures
        text::begins_with(
            file_stem(identity),
            safe_text(identity.user) + "__soundcloud__"@ + safe_text(identity.name) + "__"@
                + identity.feed.slug_text() + "__"@,
        ),
        text::ends_with(file_stem(identity), "__"@ + identity_digest(identity).take(12)),
        file_stem(identity).len() == (safe_text(identity.user) + "__soundcloud__"@ + safe_text(
            identity.name,
        ) + "__"@ + identity.feed.slug_text() + "__"@).len() + 12,
{
    reveal_strlit("soundcloud");
    reveal_strlit("profile");
    reveal_strlit("likes");
    reveal_strlit("__");
    reveal_strlit("__soundcloud__");
    let stem = file_stem(identity);
    lemma_safe_labels_are_kept("soundcloud"@);
    lemma_safe_labels_are_kept(identity.feed.slug_text());
    assert(identity.service.path() == "soundcloud"@);
    assert("__"@ + "soundcloud"@ + "__"@ =~= "__soundcloud__"@);
    let head = safe_text(identity.user) + "__soundcloud__"@ + safe_text(identity.name) + "__"@
        + identity.feed.slug_text() + "__"@;
    assert(stem =~= head + identity_digest(identity).take(12));
    assert(stem.take(head.len() as int) =~= head);
    assert(stem.skip(head.len() - 2) =~= "__"@ + identity_digest(identity).take(12));
}

} // verus!
