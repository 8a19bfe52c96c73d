//! HTTP Basic auth.
use base64::Engine;
use vstd::prelude::*;

use crate::config::AuthConfig;
use crate::exchange;
use crate::exchange::Headers;
use crate::exchange::Response;
use crate::text;

verus! {

/// The user that a request was authenticated as.
#[derive(Debug, PartialEq, Eq)]
pub struct AuthenticatedUser(pub String);

/// Makes services ask for credentials.
#[derive(Debug)]
pub struct AuthLayer {
    config: AuthConfig,
}

/// A service that asks for credentials.
#[derive(Debug)]
pub struct AuthService<S> {
    inner: S,
    config: AuthConfig,
}

/// What becomes of a request.
#[derive(Debug, PartialEq, Eq)]
pub enum AuthDecision {
    /// It is handed on, with the user where one was asked for.
    Forward { user: Option<AuthenticatedUser> },
    /// It is answered.
    Reject { response: Response },
}

/// What credentials are configured.
pub struct AuthView {
    pub enabled: bool,
    pub username: Option<Seq<char>>,
    pub password: Option<Seq<char>>,
}

impl View for AuthConfig {
    type V = AuthView;

    open spec fn view(&self) -> AuthView {
        AuthView {
            enabled: self.enabled,
            username: text::optional(self.username),
            password: text::optional(self.password),
        }
    }
}

fn copy_config(config: &AuthConfig) -> (copy: AuthConfig)
    ensures
        copy@ == config@,
{
    AuthConfig {
        enabled: config.enabled,
        username: text::copy_optional(&config.username),
        password: text::copy_optional(&config.password),
    }
}

/// The character that writes six bits in base64.
pub open spec fn base64_digit(bits: int) -> char {
    if bits < 26 {
        ('A' as u32 + bits) as char
    } else if bits < 52 {
        ('a' as u32 + (bits - 26)) as char
    } else if bits < 62 {
        ('0' as u32 + (bits - 52)) as char
    } else if bits == 62 {
        '+'
    } else {
        '/'
    }
}

/// Bytes in base64: four characters for each three bytes, the last four filled
/// up with `=`.
pub open spec fn base64_text(bytes: Seq<u8>) -> Seq<char>
    decreases bytes.len(),
{
    let a = bytes[0] as int;
    let b = bytes[1] as int;
    let c = bytes[2] as int;
    if bytes.len() == 0 {
        Seq::empty()
    } else if bytes.len() == 1 {
        seq![base64_digit(a / 4), base64_digit(a % 4 * 16), '=', '=']
    } else if bytes.len() == 2 {
        seq![
            base64_digit(a / 4),
            base64_digit(a % 4 * 16 + b / 16),
            base64_digit(b % 16 * 4),
            '=',
        ]
    } else {
        seq![
            base64_digit(a / 4),
            base64_digit(a % 4 * 16 + b / 16),
            base64_digit(b % 16 * 4 + c / 64),
            base64_digit(c % 64),
        ] + base64_text(bytes.skip(3))
    }
}

/// Calls `decode` of `base64::engine::general_purpose::STANDARD`: the bytes
/// that a text writes in base64. Only a text that is the base64 of some bytes is
/// decoded: the padding must be there, and unused bits must be zero.
#[verifier::external_body]
fn decode_base64(encoded: &str) -> (decoded: Option<Vec<u8>>)
    ensures
        match decoded {
            Some(bytes) => encoded@ == base64_text(bytes@),
            None => forall|bytes: Seq<u8>| encoded@ != #[trigger] base64_text(bytes),
        },
{
    match base64::engine::general_purpose::STANDARD.decode(encoded) {
        Ok(bytes) => Some(bytes),
        Err(_) => None,
    }
}

/// The credentials as one text.
pub open spec fn credentials(username: Seq<char>, password: Seq<char>) -> Seq<char> {
    username.push(':') + password
}

/// Whether a request carries the configured credentials: its first
/// `authorization` header is `Basic` and their base64.
pub open spec fn is_authorized(config: AuthView, headers: Seq<(Seq<char>, Seq<u8>)>) -> bool {
    match (config.username, config.password) {
        (Some(username), Some(password)) => exchange::header_text(headers, "authorization"@)
            == Some(
            "Basic "@ + base64_text(vstd::utf8::encode_utf8(credentials(username, password))),
        ),
        _ => false,
    }
}

fn same_bytes(left: &[u8], right: &[u8]) -> (same: bool)
    ensures
        same == (left@ == right@),
{
    if left.len() != right.len() {
        return false;
    }
    let mut i: usize = 0;
    while i < left.len()
        invariant
            i <= left@.len() == right@.len(),
            forall|j: int| 0 <= j < i ==> left@[j] == right@[j],
        decreases left@.len() - i,
    {
        if left[i] != right[i] {
            assert(left@[i as int] != right@[i as int]);
            return false;
        }
        i = i + 1;
    }
    assert(left@ =~= right@);
    true
}

/// Whether a request carries the configured credentials.
pub fn request_is_authorized(config: &AuthConfig, headers: &Headers) -> (yes: bool)
    ensures
        yes == is_authorized(config@, headers@),
{
    let (username, password): (&String, &String) = match (&config.username, &config.password) {
        (Some(username), Some(password)) => (username, password),
        _ => {
            return false;
        },
    };
    let value: String = match headers.get_text("authorization") {
        Some(value) => value,
        None => {
            return false;
        },
    };
    let mut expected: String = username.clone();
    expected.push(':');
    expected.append(password.as_str());
    let ghost wanted = vstd::utf8::encode_utf8(expected@);
    let chars: Vec<char> = text::chars_of(value.as_str());
    let scheme: Vec<char> = text::chars_of("Basic ");
    match text::strip_head(chars.as_slice(), scheme.as_slice()) {
        Some(rest) => {
            let encoded: String = text::text_of(rest);
            assert(value@ =~= "Basic "@ + encoded@);
            match decode_base64(encoded.as_str()) {
                Some(decoded) => {
                    let same: bool = same_bytes(decoded.as_slice(), expected.as_str().as_bytes());
                    proof {
                        if value@ == "Basic "@ + base64_text(wanted) {
                            assert(encoded@ =~= base64_text(wanted));
                            lemma_base64_is_injective(decoded@, wanted);
                        }
                    }
                    same
                },
                None => {
                    proof {
                        if value@ == "Basic "@ + base64_text(wanted) {
                            assert(encoded@ =~= base64_text(wanted));
                        }
                    }
                    false
                },
            }
        },
        None => {
            proof {
                if value@ == "Basic "@ + base64_text(wanted) {
                    assert(value@.take("Basic "@.len() as int) =~= "Basic "@);
                }
            }
            false
        },
    }
}

proof fn lemma_digit_is_injective(left: int, right: int)
    requires
        0 <= left < 64,
        0 <= right < 64,
        base64_digit(left) == base64_digit(right),
    ensures
        left == right,
{
}

proof fn lemma_base64_shape(bytes: Seq<u8>)
    ensures
        bytes.len() == 0 <==> base64_text(bytes).len() == 0,
        bytes.len() > 0 ==> base64_text(bytes).len() >= 4,
        bytes.len() > 0 ==> (bytes.len() == 1 <==> base64_text(bytes)[2] == '='),
        bytes.len() > 0 ==> (bytes.len() <= 2 <==> base64_text(bytes)[3] == '='),
        bytes.len() > 0 ==> base64_text(bytes)[0] == base64_digit(bytes[0] as int / 4),
{
}

/// Different bytes have different base64 texts.
pub proof fn lemma_base64_is_injective(left: Seq<u8>, right: Seq<u8>)
    requires
        base64_text(left) == base64_text(right),
    ensures
        left == right,
    decreases left.len(),
{
    lemma_base64_shape(left);
    lemma_base64_shape(right);
    let text = base64_text(left);
    if left.len() > 0 {
        let (a, x) = (left[0] as int, right[0] as int);
        assert(text[0] == base64_digit(a / 4));
        assert(base64_text(right)[0] == base64_digit(x / 4));
        lemma_digit_is_injective(a / 4, x / 4);
        if left.len() == 1 {
            assert(text[1] == base64_digit(a % 4 * 16));
            assert(text[1] == base64_digit(x % 4 * 16));
            lemma_digit_is_injective(a % 4 * 16, x % 4 * 16);
        } else {
            let (b, y) = (left[1] as int, right[1] as int);
            assert(text[1] == base64_digit(a % 4 * 16 + b / 16));
            assert(text[1] == base64_digit(x % 4 * 16 + y / 16));
            lemma_digit_is_injective(a % 4 * 16 + b / 16, x % 4 * 16 + y / 16);
            if left.len() == 2 {
                assert(text[2] == base64_digit(b % 16 * 4));
                assert(text[2] == base64_digit(y % 16 * 4));
                lemma_digit_is_injective(b % 16 * 4, y % 16 * 4);
            } else {
                let (c, z) = (left[2] as int, right[2] as int);
                assert(text[2] == base64_digit(b % 16 * 4 + c / 64));
                assert(text[2] == base64_digit(y % 16 * 4 + z / 64));
                lemma_digit_is_injective(b % 16 * 4 + c / 64, y % 16 * 4 + z / 64);
                assert(text[3] == base64_digit(c % 64));
                assert(text[3] == base64_digit(z % 64));
                lemma_digit_is_injective(c % 64, z % 64);
                assert(base64_text(left.skip(3)) =~= text.skip(4));
                assert(base64_text(right.skip(3)) =~= text.skip(4));
                lemma_base64_is_injective(left.skip(3), right.skip(3));
                assert(left =~= left.take(3) + left.skip(3));
                assert(right =~= right.take(3) + right.skip(3));
                assert(left.take(3) =~= right.take(3));
            }
        }
        assert(left =~= right);
    }
}

impl AuthLayer {
    /// The credentials that are asked for.
    pub closed spec fn asked(self) -> AuthView {
        self.config@
    }

    /// A layer that asks for the configured credentials.
    pub fn new(config: AuthConfig) -> (layer: AuthLayer)
        ensures
            layer.asked() == config@,
    {
        AuthLayer { config }
    }

    /// A service behind the layer.
    pub fn layer<S>(&self, inner: S) -> (service: AuthService<S>)
        ensures
            service.within() == inner,
            service.asked() == self.asked(),
    {
        AuthService { inner, config: copy_config(&self.config) }
    }
}

/// The answer to a request without the right credentials.
pub open spec fn rejection() -> exchange::ResponseView {
    exchange::ResponseView {
        status: 401,
        headers: seq![("www-authenticate"@, "Basic realm=\"yt-dlp-rss\""@)],
        body: "authentication required"@,
    }
}

/// Whether a request is handed on: auth is off, or its credentials are right.
pub open spec fn lets_through(config: AuthView, headers: Seq<(Seq<char>, Seq<u8>)>) -> bool {
    !config.enabled || is_authorized(config, headers)
}

impl<S> AuthService<S> {
    /// The service that requests are handed on to.
    pub closed spec fn within(self) -> S {
        self.inner
    }

    /// The service that requests are handed on to.
    pub fn inner(&self) -> (inner: &S)
        ensures
            *inner == self.within(),
    {
        &self.inner
    }

    /// The credentials that are asked for.
    pub closed spec fn asked(self) -> AuthView {
        self.config@
    }

    /// Decides on a request: it is handed on where auth is off or its
    /// credentials are right, and rejected otherwise.
    pub fn decide(&self, headers: &Headers) -> (decision: AuthDecision)
        ensures
            if !self.asked().enabled {
                decision matches AuthDecision::Forward { user } && user is None
            } else if is_authorized(self.asked(), headers@) {
                &&& decision matches AuthDecision::Forward { user: Some(user) }
                &&& self.asked().username == Some(user.0@)
            } else {
                decision matches AuthDecision::Reject { response } && response@ == rejection()
            },
            decision is Forward <==> lets_through(self.asked(), headers@),
    {
        if !self.config.enabled {
            return AuthDecision::Forward { user: None };
        }
        if request_is_authorized(&self.config, headers) {
            return match &self.config.username {
                Some(username) => AuthDecision::Forward {
                    user: Some(AuthenticatedUser(username.clone())),
                },
                None => AuthDecision::Forward { user: None },
            };
        }
        let mut response: Response = Response::of_status(401);
        response.add_header("www-authenticate", "Basic realm=\"yt-dlp-rss\"".to_owned());
        response.body = "authentication required".to_owned();
        assert(response@ =~= rejection());
        AuthDecision::Reject { response }
    }
}

/// With auth on, credentials in HTTP Basic are accepted exactly where they are the
/// configured ones, as far as the user before the first colon goes: with names
/// that hold no colon, the name and the password must both be right.
pub proof fn lemma_right_credentials_are_accepted(
    config: AuthView,
    headers: Seq<(Seq<char>, Seq<u8>)>,
    username: Seq<char>,
    password: Seq<char>,
)
    requires
        config.username is Some && config.password is Some,
        !config.username->0.contains(':'),
        !username.contains(':'),
        exchange::header_text(headers, "authorization"@) == Some(
            "Basic "@ + base64_text(vstd::utf8::encode_utf8(username + seq![':'] + password)),
        ),
    ensures
        is_authorized(config, headers) <==> config.username == Some(username) && config.password
            == Some(password),
        lets_through(config, headers) <==> !config.enabled || config.username == Some(username)
            && config.password == Some(password),
{
    let given = username + seq![':'] + password;
    let wanted = credentials(config.username->0, config.password->0);
    assert(given =~= credentials(username, password));
    if is_authorized(config, headers) {
        let value = exchange::header_text(headers, "authorization"@)->0;
        let at = "Basic "@.len() as int;
        assert(value.skip(at) =~= base64_text(vstd::utf8::encode_utf8(given)));
        assert(value.skip(at) =~= base64_text(vstd::utf8::encode_utf8(wanted)));
        lemma_base64_is_injective(
            vstd::utf8::encode_utf8(given),
            vstd::utf8::encode_utf8(wanted),
        );
        vstd::utf8::encode_utf8_decode_utf8(given);
        vstd::utf8::encode_utf8_decode_utf8(wanted);
        assert(given == wanted);
        let name = config.username->0;
        assert(given[username.len() as int] == ':');
        assert(wanted[name.len() as int] == ':');
        if username.len() < name.len() {
            assert(wanted[username.len() as int] == name[username.len() as int]);
            assert(name.contains(':'));
        }
        if name.len() < username.len() {
            assert(given[name.len() as int] == username[name.len() as int]);
            assert(username.contains(':'));
        }
        assert(username =~= given.take(username.len() as int));
        assert(name =~= wanted.take(name.len() as int));
        assert(password =~= given.skip(username.len() as int + 1));
        assert(config.password->0 =~= wanted.skip(name.len() as int + 1));
    }
}

/// Nobody is authorized where no name or no password is configured, nor by a
/// request without a readable `authorization` header, nor by one that is not
/// `Basic`.
pub proof fn lemma_nobody_is_authorized_without_credentials(
    config: AuthView,
    headers: Seq<(Seq<char>, Seq<u8>)>,
)
    ensures
        config.username is None || config.password is None ==> !is_authorized(config, headers),
        exchange::header_text(headers, "authorization"@) is None ==> !is_authorized(
            config,
            headers,
        ),
        config.enabled && exchange::header_text(headers, "authorization"@) is None
            ==> !lets_through(config, headers),
        is_authorized(config, headers) ==> text::begins_with(
            exchange::header_text(headers, "authorization"@)->0,
            "Basic "@,
        ),
{
    if is_authorized(config, headers) {
        let value = exchange::header_text(headers, "authorization"@)->0;
        assert(value.take("Basic "@.len() as int) =~= "Basic "@);
    }
}

/// A request that is rejected is asked for credentials in HTTP Basic.
pub proof fn lemma_rejection_asks_for_basic()
    ensures
        rejection().status == 401,
        rejection().body == "authentication required"@,
        rejection().headers.len() == 1,
        rejection().headers[0].0 == "www-authenticate"@,
        text::begins_with(rejection().headers[0].1, "Basic realm="@),
{
    reveal_strlit("Basic realm=\"yt-dlp-rss\"");
    reveal_strlit("Basic realm=");
    assert("Basic realm=\"yt-dlp-rss\""@.take(12) =~= "Basic realm="@);
}

/// Base64 has four characters for each three bytes that are begun.
pub proof fn lemma_base64_length(bytes: Seq<u8>)
    ensures
        base64_text(bytes).len() == (bytes.len() + 2) / 3 * 4,
    decreases bytes.len(),
{
    if bytes.len() > 2 {
        lemma_base64_length(bytes.skip(3));
    }
}

} // verus!
