//! HTTP requests and responses as plain values.
use vstd::prelude::*;

use crate::text;

verus! {

/// The methods that routes tell apart.
#[derive(Debug, Clone, Copy, PartialEq, Eq, Structural)]
pub enum Method {
    Get,
    Head,
    Other,
}

/// The headers of a request, in order, under names in lower case.
#[derive(Debug)]
pub struct Headers {
    entries: Vec<(String, Vec<u8>)>,
}

/// What the headers of a request are.
pub open spec fn entries_view(entries: Seq<(String, Vec<u8>)>) -> Seq<(Seq<char>, Seq<u8>)> {
    entries.map_values(|entry: (String, Vec<u8>)| (entry.0@, entry.1@))
}

impl View for Headers {
    type V = Seq<(Seq<char>, Seq<u8>)>;

    closed spec fn view(&self) -> Seq<(Seq<char>, Seq<u8>)> {
        entries_view(self.entries@)
    }
}

/// The value of the first header with a name.
pub open spec fn header_value(entries: Seq<(Seq<char>, Seq<u8>)>, name: Seq<char>) -> Option<
    Seq<u8>,
>
    decreases entries.len(),
{
    if entries.len() == 0 {
        None
    } else if entries[0].0 == name {
        Some(entries[0].1)
    } else {
        header_value(entries.skip(1), name)
    }
}

/// Whether a byte of a header is a visible ASCII character, a space or a tab.
pub open spec fn is_readable(byte: u8) -> bool {
    32 <= byte < 127 || byte == 9
}

/// Whether all bytes of a header can be read.
pub open spec fn all_readable(bytes: Seq<u8>) -> bool {
    forall|i: int| 0 <= i < bytes.len() ==> is_readable(#[trigger] bytes[i])
}

/// The text of bytes, each of which is a character.
pub open spec fn ascii_text(bytes: Seq<u8>) -> Seq<char> {
    bytes.map_values(|byte: u8| byte as char)
}

/// The text of a header's value; none where not all of it can be read.
pub open spec fn readable_text(value: Option<Seq<u8>>) -> Option<Seq<char>> {
    match value {
        Some(bytes) => if all_readable(bytes) {
            Some(ascii_text(bytes))
        } else {
            None
        },
        None => None,
    }
}

/// The text of the first header with a name; none where there is no such
/// header, or not all of it can be read.
pub open spec fn header_text(entries: Seq<(Seq<char>, Seq<u8>)>, name: Seq<char>) -> Option<
    Seq<char>,
> {
    readable_text(header_value(entries, name))
}

impl Headers {
    /// No headers.
    pub fn new() -> (headers: Headers)
        ensures
            headers@ == Seq::<(Seq<char>, Seq<u8>)>::empty(),
    {
        let headers: Headers = Headers { entries: Vec::new() };
        assert(headers@ =~= Seq::<(Seq<char>, Seq<u8>)>::empty());
        headers
    }

    /// Adds a header behind the others. Its name is put in lower case.
    pub fn add(&mut self, name: &str, value: Vec<u8>)
        ensures
            final(self)@ == old(self)@.push(
                (name@.map_values(|ch: char| text::ascii_lower(ch)), value@),
            ),
    {
        let chars: Vec<char> = text::chars_of(name);
        let lower: Vec<char> = text::ascii_lowercase(chars.as_slice());
        let name: String = text::text_of(lower.as_slice());
        let ghost before = self@;
        self.entries.push((name, value));
        assert(self@ =~= before.push((name@, value@)));
    }

    /// The value of the first header with a name, which is in lower case.
    pub fn get(&self, name: &str) -> (value: Option<&Vec<u8>>)
        ensures
            match value {
                Some(bytes) => header_value(self@, name@) == Some(bytes@),
                None => header_value(self@, name@) is None,
            },
    {
        let mut i: usize = 0;
        assert(self@.skip(0) == self@);
        while i < self.entries.len()
            invariant
                i <= self.entries@.len(),
                self@ == entries_view(self.entries@),
                header_value(self@, name@) == header_value(self@.skip(i as int), name@),
            decreases self.entries@.len() - i,
        {
            assert(self@.skip(i as int)[0] == (self.entries@[i as int].0@, self.entries@[i as int].1@));
            if text::same_text(self.entries[i].0.as_str(), name) {
                return Some(&self.entries[i].1);
            }
            assert(self@.skip(i as int).skip(1) == self@.skip(i + 1));
            i = i + 1;
        }
        None
    }

    /// Whether there is a header with a name.
    pub fn has(&self, name: &str) -> (yes: bool)
        ensures
            yes == (header_value(self@, name@) is Some),
    {
        self.get(name).is_some()
    }

    /// The text of the first header with a name.
    pub fn get_text(&self, name: &str) -> (value: Option<String>)
        ensures
            text::optional(value) == header_text(self@, name@),
    {
        match self.get(name) {
            Some(bytes) => read_bytes(bytes),
            None => None,
        }
    }
}

fn read_bytes(bytes: &Vec<u8>) -> (read: Option<String>)
    ensures
        text::optional(read) == readable_text(Some(bytes@)),
{
    let mut read: String = String::new();
    let mut i: usize = 0;
    assert(read@ =~= ascii_text(bytes@.take(0)));
    while i < bytes.len()
        invariant
            i <= bytes@.len(),
            read@ == ascii_text(bytes@.take(i as int)),
            forall|j: int| 0 <= j < i ==> is_readable(#[trigger] bytes@[j]),
        decreases bytes@.len() - i,
    {
        let byte: u8 = bytes[i];
        if !((32 <= byte && byte < 127) || byte == 9) {
            assert(!is_readable(bytes@[i as int]));
            return None;
        }
        read.push(byte as char);
        assert(read@ =~= ascii_text(bytes@.take(i + 1)));
        i = i + 1;
    }
    assert(bytes@.take(bytes@.len() as int) == bytes@);
    Some(read)
}

/// A response with a text for its body. Header names are in lower case.
#[derive(Debug, PartialEq, Eq)]
pub struct Response {
    pub status: u16,
    pub headers: Vec<(String, String)>,
    pub body: String,
}

/// What a response is.
#[verifier::ext_equal]
pub struct ResponseView {
    pub status: u16,
    pub headers: Seq<(Seq<char>, Seq<char>)>,
    pub body: Seq<char>,
}

/// What the headers of a response are.
pub open spec fn fields_view(fields: Seq<(String, String)>) -> Seq<(Seq<char>, Seq<char>)> {
    fields.map_values(|field: (String, String)| (field.0@, field.1@))
}

impl View for Response {
    type V = ResponseView;

    open spec fn view(&self) -> ResponseView {
        ResponseView {
            status: self.status,
            headers: fields_view(self.headers@),
            body: self.body@,
        }
    }
}

/// A response that is nothing but its status.
pub open spec fn status_only(status: u16) -> ResponseView {
    ResponseView { status, headers: Seq::empty(), body: Seq::empty() }
}

/// A response with one header, which says what the body is.
pub open spec fn with_content(status: u16, content_type: Seq<char>, body: Seq<char>) -> ResponseView {
    ResponseView { status, headers: seq![("content-type"@, content_type)], body }
}

/// A response with plain text.
pub open spec fn plain_text(status: u16, body: Seq<char>) -> ResponseView {
    with_content(status, "text/plain; charset=utf-8"@, body)
}

/// A response with one more header.
pub open spec fn with_header(
    response: ResponseView,
    name: Seq<char>,
    value: Seq<char>,
) -> ResponseView {
    ResponseView { headers: response.headers.push((name, value)), ..response }
}

impl Response {
    /// A response that is nothing but its status.
    pub fn of_status(status: u16) -> (response: Response)
        ensures
            response@ == status_only(status),
    {
        let response: Response = Response { status, headers: Vec::new(), body: String::new() };
        assert(response@ =~= status_only(status));
        response
    }

    /// A response with a body of some type.
    pub fn of_content(status: u16, content_type: &str, body: String) -> (response: Response)
        ensures
            response@ == with_content(status, content_type@, body@),
    {
        let mut headers: Vec<(String, String)> = Vec::new();
        headers.push(("content-type".to_owned(), content_type.to_owned()));
        let response: Response = Response { status, headers, body };
        assert(response@ =~= with_content(status, content_type@, body@));
        response
    }

    /// A response with plain text.
    pub fn of_text(status: u16, body: String) -> (response: Response)
        ensures
            response@ == plain_text(status, body@),
    {
        Response::of_content(status, "text/plain; charset=utf-8", body)
    }

    /// Adds a header behind the others.
    pub fn add_header(&mut self, name: &str, value: String)
        ensures
            final(self)@ == with_header(old(self)@, name@, value@),
    {
        let ghost before = self@;
        self.headers.push((name.to_owned(), value));
        assert(self@ =~= with_header(before, name@, value@));
    }
}

/// The value of a header is that of the first one with its name; where there is no
/// value, no header has the name.
pub proof fn lemma_first_header_counts(entries: Seq<(Seq<char>, Seq<u8>)>, name: Seq<char>)
    ensures
        match header_value(entries, name) {
            Some(value) => exists|i: int|
                {
                    &&& 0 <= i < entries.len()
                    &&& #[trigger] entries[i] == (name, value)
                    &&& forall|j: int| 0 <= j < i ==> (#[trigger] entries[j]).0 != name
                },
            None => forall|j: int| 0 <= j < entries.len() ==> (#[trigger] entries[j]).0 != name,
        },
    decreases entries.len(),
{
    if entries.len() > 0 && entries[0].0 != name {
        let rest = entries.skip(1);
        lemma_first_header_counts(rest, name);
        match header_value(entries, name) {
            Some(value) => {
                let k = choose|i: int|
                    {
                        &&& 0 <= i < rest.len()
                        &&& #[trigger] rest[i] == (name, value)
                        &&& forall|j: int| 0 <= j < i ==> (#[trigger] rest[j]).0 != name
                    };
                assert(entries[k + 1] == (name, value));
                assert forall|j: int| 0 <= j < k + 1 implies (#[trigger] entries[j]).0 != name by {
                    if j > 0 {
                        assert(entries[j] == rest[j - 1]);
                    }
                }
            },
            None => {
                assert forall|j: int| 0 <= j < entries.len() implies (#[trigger] entries[j]).0
                    != name by {
                    if j > 0 {
                        assert(entries[j] == rest[j - 1]);
                    }
                }
            },
        }
    } else if entries.len() > 0 {
        assert(entries[0] == (name, entries[0].1));
    }
}

/// A header that is added does not change the value of any that was there, and has
/// its own value where none of its name was.
pub proof fn lemma_added_header_is_last(
    entries: Seq<(Seq<char>, Seq<u8>)>,
    added: (Seq<char>, Seq<u8>),
    name: Seq<char>,
)
    ensures
        header_value(entries, name) is Some ==> header_value(entries.push(added), name)
            == header_value(entries, name),
        header_value(entries, added.0) is None ==> header_value(entries.push(added), added.0)
            == Some(added.1),
        header_value(entries, name) is None && name != added.0 ==> header_value(
            entries.push(added),
            name,
        ) is None,
    decreases entries.len(),
{
    let more = entries.push(added);
    if entries.len() > 0 {
        lemma_added_header_is_last(entries.skip(1), added, name);
        assert(more.skip(1) =~= entries.skip(1).push(added));
    } else {
        assert(more.skip(1) =~= Seq::<(Seq<char>, Seq<u8>)>::empty());
        assert(header_value(more.skip(1), name) is None);
    }
}

/// The text of a header is its bytes, one character each, where all of them are
/// visible ASCII characters, spaces or tabs; otherwise it has none.
pub proof fn lemma_header_text_is_ascii(bytes: Seq<u8>)
    ensures
        readable_text(Some(bytes)) matches Some(read) ==> read.len() == bytes.len() && forall|i: int|
            0 <= i < bytes.len() ==> #[trigger] read[i] as u32 == bytes[i] && (read[i] == '\t'
                || ' ' <= read[i] <= '~'),
        readable_text(Some(bytes)) is None <==> exists|i: int|
            0 <= i < bytes.len() && !(#[trigger] bytes[i] == 9 || 32 <= bytes[i] <= 126),
{
    if readable_text(Some(bytes)) is Some {
        let read = readable_text(Some(bytes))->0;
        assert forall|i: int| 0 <= i < bytes.len() implies #[trigger] read[i] as u32 == bytes[i]
            && (read[i] == '\t' || ' ' <= read[i] <= '~') by {
            assert(is_readable(bytes[i]));
        }
        assert forall|i: int| 0 <= i < bytes.len() implies #[trigger] bytes[i] == 9 || 32
            <= bytes[i] <= 126 by {
            assert(is_readable(bytes[i]));
        }
    } else {
        let i = choose|i: int| 0 <= i < bytes.len() && !is_readable(#[trigger] bytes[i]);
        assert(!(bytes[i] == 9 || 32 <= bytes[i] <= 126));
    }
}

/// A response keeps its status and its body whatever header is added, and the
/// header stands behind the others.
pub proof fn lemma_headers_are_added(
    response: ResponseView,
    name: Seq<char>,
    value: Seq<char>,
    status: u16,
    body: Seq<char>,
)
    ensures
        with_header(response, name, value).status == response.status,
        with_header(response, name, value).body == response.body,
        with_header(response, name, value).headers.last() == (name, value),
        with_header(response, name, value).headers.drop_last() == response.headers,
        plain_text(status, body).status == status && plain_text(status, body).body == body,
        status_only(status).status == status && status_only(status).body.len() == 0,
        status_only(status).headers.len() == 0,
{
    assert(with_header(response, name, value).headers.drop_last() =~= response.headers);
}

} // verus!
