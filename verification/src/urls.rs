//! The routes of feeds and their items.
use vstd::prelude::*;

use crate::config::SoundCloudFeedKind;
use crate::text;

verus! {

/// Whether a byte stands for itself in a URL.
pub open spec fn is_unreserved(byte: u8) -> bool {
    ||| '0' as u32 <= byte <= '9' as u32
    ||| 'A' as u32 <= byte <= 'Z' as u32
    ||| 'a' as u32 <= byte <= 'z' as u32
    ||| byte == '-' as u32
    ||| byte == '.' as u32
    ||| byte == '_' as u32
    ||| byte == '~' as u32
}

/// The character that writes four bits in upper-case hexadecimal.
pub open spec fn upper_hex_digit(bits: int) -> char {
    if bits < 10 {
        ('0' as u32 + bits) as char
    } else {
        ('A' as u32 + (bits - 10)) as char
    }
}

/// A byte as it stands in a URL: itself, or `%` and its number in hexadecimal.
pub open spec fn percent_byte(byte: u8) -> Seq<char> {
    if is_unreserved(byte) {
        seq![byte as char]
    } else {
        seq!['%', upper_hex_digit(byte as int / 16), upper_hex_digit(byte as int % 16)]
    }
}

/// Bytes as they stand in a URL.
pub open spec fn percent_text(bytes: Seq<u8>) -> Seq<char>
    decreases bytes.len(),
{
    if bytes.len() == 0 {
        Seq::empty()
    } else {
        percent_byte(bytes[0]) + percent_text(bytes.skip(1))
    }
}

/// A label as it stands in a URL.
pub open spec fn encoded(label: Seq<char>) -> Seq<char> {
    percent_text(vstd::utf8::encode_utf8(label))
}

/// Calls `urlencoding::encode`: every byte of the text in UTF-8 becomes `%` and
/// two upper-case hexadecimal characters, except letters, digits, `-`, `_`, `.`
/// and `~`.
#[verifier::external_body]
pub(crate) fn encode(label: &str) -> (part: String)
    ensures
        part@ == encoded(label@),
{
    urlencoding::encode(label).into_owned()
}

/// Whether a text can stand between two `/` of a URL's path.
pub open spec fn is_segment(s: Seq<char>) -> bool {
    forall|i: int|
        0 <= i < s.len() ==> {
            ||| '0' <= #[trigger] s[i] <= '9'
            ||| 'A' <= s[i] <= 'Z'
            ||| 'a' <= s[i] <= 'z'
            ||| s[i] == '-'
            ||| s[i] == '.'
            ||| s[i] == '_'
            ||| s[i] == '~'
            ||| s[i] == '%'
        }
}

/// Whatever a label holds, it is one segment of a URL's path.
pub proof fn lemma_encoded_is_segment(bytes: Seq<u8>)
    ensures
        is_segment(percent_text(bytes)),
    decreases bytes.len(),
{
    if bytes.len() > 0 {
        let head = percent_byte(bytes[0]);
        let tail = percent_text(bytes.skip(1));
        lemma_encoded_is_segment(bytes.skip(1));
        assert(is_segment(head));
        assert forall|i: int| 0 <= i < percent_text(bytes).len() implies {
            ||| '0' <= #[trigger] percent_text(bytes)[i] <= '9'
            ||| 'A' <= percent_text(bytes)[i] <= 'Z'
            ||| 'a' <= percent_text(bytes)[i] <= 'z'
            ||| percent_text(bytes)[i] == '-'
            ||| percent_text(bytes)[i] == '.'
            ||| percent_text(bytes)[i] == '_'
            ||| percent_text(bytes)[i] == '~'
            ||| percent_text(bytes)[i] == '%'
        } by {
            if i < head.len() {
                assert(percent_text(bytes)[i] == head[i]);
            } else {
                assert(percent_text(bytes)[i] == tail[i - head.len()]);
            }
        }
    }
}

/// Different labels stand differently in URLs.
pub proof fn lemma_percent_is_injective(left: Seq<u8>, right: Seq<u8>)
    requires
        percent_text(left) == percent_text(right),
    ensures
        left == right,
    decreases left.len(),
{
    let text = percent_text(left);
    if left.len() == 0 {
        if right.len() > 0 {
            assert(percent_byte(right[0]).len() > 0);
        }
        assert(left =~= right);
    } else {
        assert(percent_byte(left[0]).len() > 0);
        assert(right.len() > 0);
        let head = percent_byte(left[0]);
        let other = percent_byte(right[0]);
        assert(text[0] == head[0]);
        assert(text[0] == other[0]);
        assert(is_unreserved(left[0]) == is_unreserved(right[0]));
        if !is_unreserved(left[0]) {
            assert(text[1] == head[1] && text[1] == other[1]);
            assert(text[2] == head[2] && text[2] == other[2]);
        }
        assert(left[0] == right[0]);
        assert(percent_text(left.skip(1)) =~= text.skip(head.len() as int));
        assert(percent_text(right.skip(1)) =~= text.skip(head.len() as int));
        lemma_percent_is_injective(left.skip(1), right.skip(1));
        assert(left =~= seq![left[0]] + left.skip(1));
        assert(right =~= seq![right[0]] + right.skip(1));
    }
}

/// The route of an account's service.
pub open spec fn account_path(user: Seq<char>, service: Seq<char>, account: Seq<char>) -> Seq<char> {
    "/users/"@ + encoded(user) + "/"@ + encoded(service) + "/"@ + encoded(account) + "/"@
}

fn write_account_path(user: &str, service: &str, account: &str) -> (path: String)
    ensures
        path@ == account_path(user@, service@, account@),
{
    let mut path: String = "/users/".to_owned();
    let part: String = encode(user);
    path.append(part.as_str());
    path.append("/");
    let part: String = encode(service);
    path.append(part.as_str());
    path.append("/");
    let part: String = encode(account);
    path.append(part.as_str());
    path.append("/");
    path
}

/// The route of a feed.
pub open spec fn feed_route(
    user: Seq<char>,
    service: Seq<char>,
    account: Seq<char>,
    feed: SoundCloudFeedKind,
) -> Seq<char> {
    account_path(user, service, account) + feed.path()
}

/// The route of a feed.
pub fn feed_path(user: &str, service: &str, account: &str, feed: SoundCloudFeedKind) -> (path: String)
    ensures
        path@ == feed_route(user@, service@, account@, feed),
{
    let mut path: String = write_account_path(user, service, account);
    path.append(feed.as_path());
    path
}

/// The route of an item's audio.
pub open spec fn audio_route(
    user: Seq<char>,
    service: Seq<char>,
    account: Seq<char>,
    item_id: Seq<char>,
) -> Seq<char> {
    account_path(user, service, account) + "items/"@ + encoded(item_id) + "/audio.m4a"@
}

/// The route of an item's audio.
pub fn audio_path(user: &str, service: &str, account: &str, item_id: &str) -> (path: String)
    ensures
        path@ == audio_route(user@, service@, account@, item_id@),
{
    let mut path: String = write_account_path(user, service, account);
    path.append("items/");
    let part: String = encode(item_id);
    path.append(part.as_str());
    path.append("/audio.m4a");
    path
}

/// Whether a character can stand in a route.
pub open spec fn is_route_char(ch: char) -> bool {
    ||| '0' <= ch <= '9'
    ||| 'A' <= ch <= 'Z'
    ||| 'a' <= ch <= 'z'
    ||| ch == '-'
    ||| ch == '.'
    ||| ch == '_'
    ||| ch == '~'
    ||| ch == '%'
    ||| ch == '/'
}

/// Whether all characters of a text can stand in a route.
pub open spec fn is_route(s: Seq<char>) -> bool {
    forall|i: int| 0 <= i < s.len() ==> is_route_char(#[trigger] s[i])
}

proof fn lemma_route_sum(left: Seq<char>, right: Seq<char>)
    requires
        is_route(left),
        is_route(right),
    ensures
        is_route(left + right),
{
    assert forall|i: int| 0 <= i < (left + right).len() implies is_route_char(
        #[trigger] (left + right)[i],
    ) by {
        if i < left.len() {
            assert(is_route_char(left[i]));
        } else {
            assert(is_route_char(right[i - left.len()]));
        }
    }
}

proof fn lemma_encoded_is_route(label: Seq<char>)
    ensures
        is_route(encoded(label)),
{
    lemma_encoded_is_segment(vstd::utf8::encode_utf8(label));
}

proof fn lemma_account_path_is_route(user: Seq<char>, service: Seq<char>, account: Seq<char>)
    ensures
        is_route(account_path(user, service, account)),
{
    reveal_strlit("/users/");
    reveal_strlit("/");
    lemma_encoded_is_route(user);
    lemma_encoded_is_route(service);
    lemma_encoded_is_route(account);
    lemma_route_sum("/users/"@, encoded(user));
    lemma_route_sum("/users/"@ + encoded(user), "/"@);
    lemma_route_sum("/users/"@ + encoded(user) + "/"@, encoded(service));
    lemma_route_sum("/users/"@ + encoded(user) + "/"@ + encoded(service), "/"@);
    lemma_route_sum("/users/"@ + encoded(user) + "/"@ + encoded(service) + "/"@, encoded(account));
    lemma_route_sum(
        "/users/"@ + encoded(user) + "/"@ + encoded(service) + "/"@ + encoded(account),
        "/"@,
    );
}

/// Whatever the labels hold, routes are written with letters, digits, `/`, `%`
/// and the few signs that stand for themselves.
pub proof fn lemma_routes_are_routes(
    user: Seq<char>,
    service: Seq<char>,
    account: Seq<char>,
    feed: SoundCloudFeedKind,
    item_id: Seq<char>,
)
    ensures
        is_route(feed_route(user, service, account, feed)),
        is_route(audio_route(user, service, account, item_id)),
{
    reveal_strlit("feed.xml");
    reveal_strlit("likes.xml");
    reveal_strlit("items/");
    reveal_strlit("/audio.m4a");
    let account_route = account_path(user, service, account);
    lemma_account_path_is_route(user, service, account);
    lemma_route_sum(account_route, feed.path());
    lemma_encoded_is_route(item_id);
    lemma_route_sum(account_route, "items/"@);
    lemma_route_sum(account_route + "items/"@, encoded(item_id));
    lemma_route_sum(account_route + "items/"@ + encoded(item_id), "/audio.m4a"@);
}

proof fn lemma_same_segment(a: Seq<char>, x: Seq<char>, b: Seq<char>, y: Seq<char>)
    requires
        is_segment(a),
        is_segment(b),
        a.push('/') + x == b.push('/') + y,
    ensures
        a == b,
        x == y,
{
    let whole = a.push('/') + x;
    let other = b.push('/') + y;
    assert(whole[a.len() as int] == '/');
    assert(other[b.len() as int] == '/');
    if a.len() < b.len() {
        assert(other[a.len() as int] == b[a.len() as int]);
    }
    if b.len() < a.len() {
        assert(whole[b.len() as int] == a[b.len() as int]);
    }
    assert forall|i: int| 0 <= i < a.len() implies a[i] == b[i] by {
        assert(whole[i] == a[i]);
        assert(other[i] == b[i]);
    }
    assert(a =~= b);
    assert(x =~= whole.skip(a.len() as int + 1));
    assert(y =~= other.skip(b.len() as int + 1));
}

proof fn lemma_same_label(left: Seq<char>, right: Seq<char>)
    requires
        encoded(left) == encoded(right),
    ensures
        left == right,
{
    lemma_percent_is_injective(
        vstd::utf8::encode_utf8(left),
        vstd::utf8::encode_utf8(right),
    );
    vstd::utf8::encode_utf8_decode_utf8(left);
    vstd::utf8::encode_utf8_decode_utf8(right);
}

/// No two items have the same audio route.
#[verifier::spinoff_prover]
#[verifier::rlimit(60)]
pub proof fn lemma_audio_routes_differ(
    left: (Seq<char>, Seq<char>, Seq<char>, Seq<char>),
    right: (Seq<char>, Seq<char>, Seq<char>, Seq<char>),
)
    requires
        audio_route(left.0, left.1, left.2, left.3) == audio_route(
            right.0,
            right.1,
            right.2,
            right.3,
        ),
    ensures
        left == right,
{
    reveal_strlit("/users/");
    reveal_strlit("/");
    reveal_strlit("items/");
    reveal_strlit("/audio.m4a");
    let tail = "audio.m4a"@;
    reveal_strlit("audio.m4a");
    let (a, b) = (encoded(left.0), encoded(right.0));
    let (c, d) = (encoded(left.1), encoded(right.1));
    let (e, f) = (encoded(left.2), encoded(right.2));
    let (g, h) = (encoded(left.3), encoded(right.3));
    lemma_encoded_is_segment(vstd::utf8::encode_utf8(left.0));
    lemma_encoded_is_segment(vstd::utf8::encode_utf8(left.1));
    lemma_encoded_is_segment(vstd::utf8::encode_utf8(left.2));
    lemma_encoded_is_segment(vstd::utf8::encode_utf8(left.3));
    lemma_encoded_is_segment(vstd::utf8::encode_utf8(right.0));
    lemma_encoded_is_segment(vstd::utf8::encode_utf8(right.1));
    lemma_encoded_is_segment(vstd::utf8::encode_utf8(right.2));
    lemma_encoded_is_segment(vstd::utf8::encode_utf8(right.3));
    let left_item = g.push('/') + tail;
    let right_item = h.push('/') + tail;
    let left_rest = e.push('/') + ("items/"@ + left_item);
    let right_rest = f.push('/') + ("items/"@ + right_item);
    let left_path = audio_route(left.0, left.1, left.2, left.3);
    let right_path = audio_route(right.0, right.1, right.2, right.3);
    assert(left_path =~= "/users/"@ + (a.push('/') + (c.push('/') + left_rest)));
    assert(right_path =~= "/users/"@ + (b.push('/') + (d.push('/') + right_rest)));
    assert(a.push('/') + (c.push('/') + left_rest) =~= left_path.skip(7));
    assert(b.push('/') + (d.push('/') + right_rest) =~= right_path.skip(7));
    lemma_same_segment(a, c.push('/') + left_rest, b, d.push('/') + right_rest);
    lemma_same_segment(c, left_rest, d, right_rest);
    lemma_same_segment(e, "items/"@ + left_item, f, "items/"@ + right_item);
    assert(left_item =~= ("items/"@ + left_item).skip(6));
    assert(right_item =~= ("items/"@ + right_item).skip(6));
    lemma_same_segment(g, tail, h, tail);
    lemma_same_label(left.0, right.0);
    lemma_same_label(left.1, right.1);
    lemma_same_label(left.2, right.2);
    lemma_same_label(left.3, right.3);
}

proof fn lemma_segment_has_no_slash(label: Seq<char>)
    ensures
        !encoded(label).contains('/'),
{
    lemma_encoded_is_segment(vstd::utf8::encode_utf8(label));
}

/// The route of a feed has these components, from the root: `users`, the user, the
/// service, the account, and the file name of the feed, each of the labels as one
/// component whatever it holds.
pub proof fn lemma_feed_route_components(
    user: Seq<char>,
    service: Seq<char>,
    account: Seq<char>,
    feed: SoundCloudFeedKind,
)
    ensures
        text::split_on(feed_route(user, service, account, feed), '/') == seq![
            Seq::<char>::empty(),
            "users"@,
            encoded(user),
            encoded(service),
            encoded(account),
            if feed == SoundCloudFeedKind::Profile {
                "feed.xml"@
            } else {
                "likes.xml"@
            },
        ],
{
    reveal_strlit("/users/");
    reveal_strlit("users");
    reveal_strlit("/");
    reveal_strlit("feed.xml");
    reveal_strlit("likes.xml");
    let file = if feed == SoundCloudFeedKind::Profile {
        "feed.xml"@
    } else {
        "likes.xml"@
    };
    let account_parts = seq![
        Seq::<char>::empty(),
        "users"@,
        encoded(user),
        encoded(service),
        encoded(account),
    ];
    let parts = account_parts.push(file);
    lemma_segment_has_no_slash(user);
    lemma_segment_has_no_slash(service);
    lemma_segment_has_no_slash(account);
    assert forall|i: int| 0 <= i < parts.len() implies !(#[trigger] parts[i]).contains('/') by {
    }
    lemma_account_parts_join(user, service, account);
    assert(parts.drop_last() =~= account_parts);
    assert(text::joined_by(parts, '/') =~= feed_route(user, service, account, feed));
    text::lemma_joined_parts_split_back(parts, '/');
}

proof fn lemma_account_parts_join(user: Seq<char>, service: Seq<char>, account: Seq<char>)
    ensures
        text::joined_by(
            seq![
                Seq::<char>::empty(),
                "users"@,
                encoded(user),
                encoded(service),
                encoded(account),
            ],
            '/',
        ).push('/') == account_path(user, service, account),
{
    reveal_strlit("/users/");
    reveal_strlit("users");
    reveal_strlit("/");
    let one = seq![Seq::<char>::empty()];
    let two = one.push("users"@);
    let three = two.push(encoded(user));
    let four = three.push(encoded(service));
    let five = four.push(encoded(account));
    assert(two.drop_last() =~= one);
    assert(three.drop_last() =~= two);
    assert(four.drop_last() =~= three);
    assert(five.drop_last() =~= four);
    assert(text::joined_by(one, '/') =~= Seq::<char>::empty());
    assert(text::joined_by(two, '/') =~= seq!['/'] + "users"@);
    assert(text::joined_by(three, '/') =~= "/users/"@ + encoded(user));
    assert(text::joined_by(four, '/') =~= "/users/"@ + encoded(user) + "/"@ + encoded(service));
    assert(text::joined_by(five, '/') =~= "/users/"@ + encoded(user) + "/"@ + encoded(service)
        + "/"@ + encoded(account));
    assert(five =~= seq![
        Seq::<char>::empty(),
        "users"@,
        encoded(user),
        encoded(service),
        encoded(account),
    ]);
    assert(text::joined_by(five, '/').push('/') =~= account_path(user, service, account));
}

/// The route of an item's audio has these components, from the root: `users`, the
/// user, the service, the account, `items`, the item's id and `audio.m4a`.
pub proof fn lemma_audio_route_components(
    user: Seq<char>,
    service: Seq<char>,
    account: Seq<char>,
    item_id: Seq<char>,
)
    ensures
        text::split_on(audio_route(user, service, account, item_id), '/') == seq![
            Seq::<char>::empty(),
            "users"@,
            encoded(user),
            encoded(service),
            encoded(account),
            "items"@,
            encoded(item_id),
            "audio.m4a"@,
        ],
{
    reveal_strlit("users");
    reveal_strlit("items");
    reveal_strlit("items/");
    reveal_strlit("audio.m4a");
    reveal_strlit("/audio.m4a");
    let five = seq![
        Seq::<char>::empty(),
        "users"@,
        encoded(user),
        encoded(service),
        encoded(account),
    ];
    let six = five.push("items"@);
    let seven = six.push(encoded(item_id));
    let parts = seven.push("audio.m4a"@);
    lemma_segment_has_no_slash(user);
    lemma_segment_has_no_slash(service);
    lemma_segment_has_no_slash(account);
    lemma_segment_has_no_slash(item_id);
    assert forall|i: int| 0 <= i < parts.len() implies !(#[trigger] parts[i]).contains('/') by {
    }
    lemma_account_parts_join(user, service, account);
    let start = account_path(user, service, account);
    assert(six.drop_last() =~= five);
    assert(seven.drop_last() =~= six);
    assert(parts.drop_last() =~= seven);
    assert(text::joined_by(six, '/') =~= start + "items"@);
    assert(text::joined_by(seven, '/') =~= start + "items/"@ + encoded(item_id));
    assert(text::joined_by(parts, '/') =~= audio_route(user, service, account, item_id));
    text::lemma_joined_parts_split_back(parts, '/');
    assert(parts =~= seq![
        Seq::<char>::empty(),
        "users"@,
        encoded(user),
        encoded(service),
        encoded(account),
        "items"@,
        encoded(item_id),
        "audio.m4a"@,
    ]);
}

/// No two feeds have the same route, and no feed has that of an item's audio.
pub proof fn lemma_feed_routes_differ(
    left: (Seq<char>, Seq<char>, Seq<char>, SoundCloudFeedKind),
    right: (Seq<char>, Seq<char>, Seq<char>, SoundCloudFeedKind),
    item_id: Seq<char>,
)
    ensures
        feed_route(left.0, left.1, left.2, left.3) == feed_route(
            right.0,
            right.1,
            right.2,
            right.3,
        ) ==> left == right,
        feed_route(left.0, left.1, left.2, left.3) != audio_route(
            right.0,
            right.1,
            right.2,
            item_id,
        ),
{
    reveal_strlit("feed.xml");
    reveal_strlit("likes.xml");
    assert("feed.xml"@.len() == 8 && "likes.xml"@.len() == 9);
    lemma_feed_route_components(left.0, left.1, left.2, left.3);
    lemma_feed_route_components(right.0, right.1, right.2, right.3);
    lemma_audio_route_components(right.0, right.1, right.2, item_id);
    let parts = text::split_on(feed_route(left.0, left.1, left.2, left.3), '/');
    let others = text::split_on(feed_route(right.0, right.1, right.2, right.3), '/');
    assert(parts.len() == 6);
    assert(text::split_on(audio_route(right.0, right.1, right.2, item_id), '/').len() == 8);
    if feed_route(left.0, left.1, left.2, left.3) == feed_route(
        right.0,
        right.1,
        right.2,
        right.3,
    ) {
        assert(parts[2] == encoded(left.0) && others[2] == encoded(right.0));
        assert(parts[3] == encoded(left.1) && others[3] == encoded(right.1));
        assert(parts[4] == encoded(left.2) && others[4] == encoded(right.2));
        assert(parts[5] == others[5]);
        lemma_same_label(left.0, right.0);
        lemma_same_label(left.1, right.1);
        lemma_same_label(left.2, right.2);
    }
}

} // verus!
