use socks_tunnel::config::{ConfigError, Credentials, UpstreamConfig};

fn s(v: &str) -> Option<String> {
    Some(v.to_string())
}

#[test]
fn no_username_means_no_auth() {
    let c = UpstreamConfig::from_values(s("127.0.0.1:1080"), None, None).unwrap();
    assert_eq!(c.upstream, "127.0.0.1:1080");
    assert_eq!(c.credentials, None);
    assert!(!c.uses_auth());
}

#[test]
fn lone_password_is_ignored() {
    let c = UpstreamConfig::from_values(s("127.0.0.1:1080"), None, s("pw")).unwrap();
    assert_eq!(c.credentials, None);
}

#[test]
fn username_and_password_make_credentials() {
    let c = UpstreamConfig::from_values(s("10.0.0.2:1080"), s("alice"), s("pw")).unwrap();
    assert_eq!(
        c.credentials,
        Some(Credentials { username: "alice".to_string(), password: "pw".to_string() })
    );
    assert!(c.uses_auth());
}

#[test]
fn username_without_password_is_an_error() {
    assert_eq!(
        UpstreamConfig::from_values(s("10.0.0.2:1080"), s("alice"), None),
        Err(ConfigError::MissingPassword)
    );
}

#[test]
fn missing_upstream_is_an_error() {
    assert_eq!(
        UpstreamConfig::from_values(None, s("alice"), s("pw")),
        Err(ConfigError::MissingUpstream)
    );
    assert_eq!(UpstreamConfig::from_values(None, None, None), Err(ConfigError::MissingUpstream));
}
