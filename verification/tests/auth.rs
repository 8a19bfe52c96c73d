use yt_dlp_feed::auth::{
    request_is_authorized, AuthDecision, AuthLayer, AuthenticatedUser,
};
use yt_dlp_feed::config::AuthConfig;
use yt_dlp_feed::exchange::Headers;

use base64::Engine;

fn credentials() -> AuthConfig {
    AuthConfig {
        enabled: true,
        username: Some("derek".to_string()),
        password: Some("secret".to_string()),
    }
}

fn with_authorization(value: &[u8]) -> Headers {
    let mut headers = Headers::new();
    headers.add("Authorization", value.to_vec());
    headers
}

#[test]
fn disabled_auth_does_not_require_credentials() {
    let config = AuthConfig::default();
    let headers = Headers::new();

    assert!(!request_is_authorized(&config, &headers));
    assert!(!config.enabled);
}

#[test]
fn validates_basic_auth_credentials() {
    let config = credentials();
    let token = base64::engine::general_purpose::STANDARD.encode("derek:secret");
    let headers = with_authorization(format!("Basic {token}").as_bytes());

    assert!(request_is_authorized(&config, &headers));
}

#[test]
fn rejects_whatever_is_not_the_credentials() {
    let config = credentials();
    for value in [
        "Basic ZGVyZWs6c2VjcmV0IA==",
        "Basic ZGVyZWs6c2VjcmV1",
        "Basic ZGVyZWs6c2VjcmV0=",
        "Basic !!!!",
        "Basic ",
        "basic ZGVyZWs6c2VjcmV0",
        "ZGVyZWs6c2VjcmV0",
        "",
    ] {
        assert!(
            !request_is_authorized(&config, &with_authorization(value.as_bytes())),
            "{value}"
        );
    }
    assert!(request_is_authorized(
        &config,
        &with_authorization(b"Basic ZGVyZWs6c2VjcmV0")
    ));
    assert!(!request_is_authorized(
        &config,
        &with_authorization(b"Basic ZGVyZWs6c2VjcmV0\xff")
    ));
    assert!(!request_is_authorized(&config, &Headers::new()));
}

#[test]
fn base64_is_decoded_with_padding_and_without_spare_bits() {
    let config = AuthConfig {
        enabled: true,
        username: Some("a".to_string()),
        password: Some(String::new()),
    };
    assert!(request_is_authorized(
        &config,
        &with_authorization(b"Basic YTo=")
    ));
    assert!(!request_is_authorized(
        &config,
        &with_authorization(b"Basic YTo")
    ));
    assert!(!request_is_authorized(
        &config,
        &with_authorization(b"Basic YTp=")
    ));
}

#[test]
fn auth_needs_both_credentials() {
    let mut config = credentials();
    config.password = None;
    assert!(!request_is_authorized(
        &config,
        &with_authorization(b"Basic ZGVyZWs6")
    ));
}

#[test]
fn the_layer_hands_on_authorized_requests_with_their_user() {
    let service = AuthLayer::new(credentials()).layer(7);
    assert_eq!(*service.inner(), 7);
    assert_eq!(
        service.decide(&with_authorization(b"Basic ZGVyZWs6c2VjcmV0")),
        AuthDecision::Forward {
            user: Some(AuthenticatedUser("derek".to_string()))
        }
    );
    match service.decide(&Headers::new()) {
        AuthDecision::Reject { response } => {
            assert_eq!(response.status, 401);
            assert_eq!(
                response.headers,
                vec![(
                    "www-authenticate".to_string(),
                    "Basic realm=\"yt-dlp-rss\"".to_string()
                )]
            );
            assert_eq!(response.body, "authentication required");
        }
        other => panic!("unexpected decision: {other:?}"),
    }
    let open = AuthLayer::new(AuthConfig::default()).layer(());
    assert_eq!(
        open.decide(&Headers::new()),
        AuthDecision::Forward { user: None }
    );
}
