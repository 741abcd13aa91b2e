use bearer_auth::auth::BearerTokenAuthenticator;
use bearer_auth::auth::Group;
use bearer_auth::auth::authorized_broadcaster;
use bearer_auth::auth::authorized_reader;
use bearer_auth::config::AuthConfig;
use bearer_auth::config::ConfigValue;
use bearer_auth::error::ConfigError;
use bearer_auth::error::HandlerErrorKind;
use bearer_auth::headers::Headers;

fn text(s: &str) -> ConfigValue {
    ConfigValue::Text(s.to_string())
}

fn tokens(ts: &[&str]) -> ConfigValue {
    ConfigValue::List(ts.iter().map(|t| text(t)).collect())
}

fn entry(user: &str, ts: &[&str]) -> (String, ConfigValue) {
    (user.to_string(), tokens(ts))
}

fn basic_config() -> AuthConfig {
    AuthConfig {
        broadcaster_auth: Some(vec![entry("foo", &["bar"]), entry("baz", &["quux"])]),
        reader_auth: Some(vec![entry("otto", &["push"])]),
    }
}

fn auth_headers(value: &str) -> Headers {
    let mut map = Headers::new();
    map.add_raw("Authorization", value);
    map
}

#[test]
fn test_basic() {
    let config = basic_config();
    let authenicator = BearerTokenAuthenticator::from_config(&config).unwrap();

    let map = auth_headers("Bearer quux");
    assert_eq!(
        authenicator.authenticated_user(&map).unwrap(),
        ("baz".into(), Group::Broadcaster)
    );
    let map = auth_headers("Bearer push");
    assert_eq!(
        authenicator.authenticated_user(&map).unwrap(),
        ("otto".into(), Group::Reader)
    );

    let map = auth_headers("Bearer mega");
    assert!(authenicator.authenticated_user(&map).is_err());
}

#[test]
fn test_dupe_token() {
    let config = AuthConfig {
        broadcaster_auth: Some(vec![entry("foo", &["bar"]), entry("baz", &["bar"])]),
        reader_auth: Some(vec![]),
    };
    assert!(BearerTokenAuthenticator::from_config(&config).is_err());
}

#[test]
fn test_dupe_token2() {
    let config = AuthConfig {
        broadcaster_auth: Some(vec![entry("foo", &["bar"])]),
        reader_auth: Some(vec![entry("baz", &["quux", "bar"])]),
    };
    assert!(BearerTokenAuthenticator::from_config(&config).is_err());
}

#[test]
fn test_dupe_user() {
    let config = AuthConfig {
        broadcaster_auth: Some(vec![entry("foo", &["bar"])]),
        reader_auth: Some(vec![entry("foo", &["baz"])]),
    };
    assert!(BearerTokenAuthenticator::from_config(&config).is_err());
}

#[test]
fn test_dupe_token_error_names_offenders() {
    let config = AuthConfig {
        broadcaster_auth: Some(vec![entry("foo", &["bar"]), entry("baz", &["bar"])]),
        reader_auth: Some(vec![]),
    };
    let err = BearerTokenAuthenticator::from_config(&config).unwrap_err();
    assert_eq!(
        err,
        ConfigError::DuplicateToken {
            name: "broadcaster_auth".to_string(),
            user_id: "baz".to_string(),
            existing_user: "foo".to_string(),
            token: "bar".to_string(),
        }
    );
}

#[test]
fn test_dupe_token_same_user() {
    let config = AuthConfig {
        broadcaster_auth: Some(vec![entry("foo", &["bar", "bar"])]),
        reader_auth: Some(vec![]),
    };
    assert!(BearerTokenAuthenticator::from_config(&config).is_err());
}

#[test]
fn test_dupe_user_same_table() {
    let config = AuthConfig {
        broadcaster_auth: Some(vec![entry("foo", &["bar"]), entry("foo", &["baz"])]),
        reader_auth: Some(vec![]),
    };
    let err = BearerTokenAuthenticator::from_config(&config).unwrap_err();
    assert_eq!(
        err,
        ConfigError::DuplicateUser {
            name: "broadcaster_auth".to_string(),
            user_id: "foo".to_string(),
            existing_name: "broadcaster_auth".to_string(),
        }
    );
}

#[test]
fn test_missing_broadcaster_table() {
    let config = AuthConfig {
        broadcaster_auth: None,
        reader_auth: Some(vec![entry("otto", &["push"])]),
    };
    let err = BearerTokenAuthenticator::from_config(&config).unwrap_err();
    assert_eq!(err, ConfigError::MissingTable { name: "broadcaster_auth".to_string() });
}

#[test]
fn test_missing_reader_table() {
    let config = AuthConfig {
        broadcaster_auth: Some(vec![entry("foo", &["bar"])]),
        reader_auth: None,
    };
    let err = BearerTokenAuthenticator::from_config(&config).unwrap_err();
    assert_eq!(err, ConfigError::MissingTable { name: "reader_auth".to_string() });
}

#[test]
fn test_invalid_token_array() {
    let config = AuthConfig {
        broadcaster_auth: Some(vec![("foo".to_string(), ConfigValue::Other)]),
        reader_auth: Some(vec![]),
    };
    let err = BearerTokenAuthenticator::from_config(&config).unwrap_err();
    assert_eq!(
        err,
        ConfigError::InvalidTokenArray {
            name: "broadcaster_auth".to_string(),
            user_id: "foo".to_string(),
        }
    );
}

#[test]
fn test_invalid_token_element() {
    let config = AuthConfig {
        broadcaster_auth: Some(vec![(
            "foo".to_string(),
            ConfigValue::List(vec![text("bar"), ConfigValue::Other]),
        )]),
        reader_auth: Some(vec![]),
    };
    let err = BearerTokenAuthenticator::from_config(&config).unwrap_err();
    assert_eq!(
        err,
        ConfigError::InvalidToken {
            name: "broadcaster_auth".to_string(),
            user_id: "foo".to_string(),
        }
    );
}

#[test]
fn test_missing_auth_header() {
    let authenicator = BearerTokenAuthenticator::from_config(&basic_config()).unwrap();
    let map = Headers::new();
    assert_eq!(
        authenicator.authenticated_user(&map).unwrap_err(),
        HandlerErrorKind::MissingAuth
    );
}

#[test]
fn test_basic_scheme_rejected() {
    let authenicator = BearerTokenAuthenticator::from_config(&basic_config()).unwrap();
    let map = auth_headers("Basic xyz");
    assert_eq!(
        authenicator.authenticated_user(&map).unwrap_err(),
        HandlerErrorKind::InvalidAuth
    );
}

#[test]
fn test_no_space_rejected() {
    let authenicator = BearerTokenAuthenticator::from_config(&basic_config()).unwrap();
    let map = auth_headers("Bearerquux");
    assert_eq!(
        authenicator.authenticated_user(&map).unwrap_err(),
        HandlerErrorKind::InvalidAuth
    );
}

#[test]
fn test_unregistered_token_rejected() {
    let authenicator = BearerTokenAuthenticator::from_config(&basic_config()).unwrap();
    let map = auth_headers("Bearer mega");
    assert_eq!(
        authenicator.authenticated_user(&map).unwrap_err(),
        HandlerErrorKind::InvalidAuth
    );
}

#[test]
fn test_empty_token_rejected() {
    let authenicator = BearerTokenAuthenticator::from_config(&basic_config()).unwrap();
    let map = auth_headers("Bearer ");
    assert_eq!(
        authenicator.authenticated_user(&map).unwrap_err(),
        HandlerErrorKind::InvalidAuth
    );
}

#[test]
fn test_scheme_case_insensitive() {
    let authenicator = BearerTokenAuthenticator::from_config(&basic_config()).unwrap();
    let map = auth_headers("bEaReR quux");
    assert_eq!(
        authenicator.authenticated_user(&map).unwrap(),
        ("baz".into(), Group::Broadcaster)
    );
}

#[test]
fn test_token_case_sensitive() {
    let authenicator = BearerTokenAuthenticator::from_config(&basic_config()).unwrap();
    let map = auth_headers("Bearer QUUX");
    assert_eq!(
        authenicator.authenticated_user(&map).unwrap_err(),
        HandlerErrorKind::InvalidAuth
    );
}

#[test]
fn test_header_name_case_insensitive() {
    let authenicator = BearerTokenAuthenticator::from_config(&basic_config()).unwrap();
    let mut map = Headers::new();
    map.add_raw("authorization", "Bearer push");
    assert_eq!(
        authenicator.authenticated_user(&map).unwrap(),
        ("otto".into(), Group::Reader)
    );
}

#[test]
fn test_first_header_wins() {
    let authenicator = BearerTokenAuthenticator::from_config(&basic_config()).unwrap();
    let mut map = Headers::new();
    map.add_raw("Authorization", "Bearer quux");
    map.add_raw("Authorization", "Bearer push");
    assert_eq!(
        authenicator.authenticated_user(&map).unwrap(),
        ("baz".into(), Group::Broadcaster)
    );
}

#[test]
fn test_token_may_hold_spaces() {
    let config = AuthConfig {
        broadcaster_auth: Some(vec![entry("foo", &["two words"])]),
        reader_auth: Some(vec![]),
    };
    let authenicator = BearerTokenAuthenticator::from_config(&config).unwrap();
    let map = auth_headers("Bearer two words");
    assert_eq!(
        authenicator.authenticated_user(&map).unwrap(),
        ("foo".into(), Group::Broadcaster)
    );
}

#[test]
fn test_authorized_broadcaster_own_namespace() {
    let authenicator = BearerTokenAuthenticator::from_config(&basic_config()).unwrap();
    let map = auth_headers("Bearer quux");
    let principal = authorized_broadcaster(&authenicator, &map, "baz").unwrap();
    assert_eq!(principal.id, "baz".to_string());
}

#[test]
fn test_authorized_broadcaster_foreign_namespace() {
    let authenicator = BearerTokenAuthenticator::from_config(&basic_config()).unwrap();
    let map = auth_headers("Bearer quux");
    assert_eq!(
        authorized_broadcaster(&authenicator, &map, "foo").unwrap_err(),
        HandlerErrorKind::Unauthorized
    );
}

#[test]
fn test_authorized_broadcaster_rejects_reader() {
    let authenicator = BearerTokenAuthenticator::from_config(&basic_config()).unwrap();
    let map = auth_headers("Bearer push");
    assert_eq!(
        authorized_broadcaster(&authenicator, &map, "otto").unwrap_err(),
        HandlerErrorKind::Unauthorized
    );
}

#[test]
fn test_authorized_broadcaster_propagates_auth_error() {
    let authenicator = BearerTokenAuthenticator::from_config(&basic_config()).unwrap();
    let map = Headers::new();
    assert_eq!(
        authorized_broadcaster(&authenicator, &map, "baz").unwrap_err(),
        HandlerErrorKind::MissingAuth
    );
}

#[test]
fn test_authorized_reader() {
    let authenicator = BearerTokenAuthenticator::from_config(&basic_config()).unwrap();
    let map = auth_headers("Bearer push");
    let principal = authorized_reader(&authenicator, &map).unwrap();
    assert_eq!(principal.id, "otto".to_string());
}

#[test]
fn test_authorized_reader_rejects_broadcaster() {
    let authenicator = BearerTokenAuthenticator::from_config(&basic_config()).unwrap();
    let map = auth_headers("Bearer quux");
    assert_eq!(
        authorized_reader(&authenicator, &map).unwrap_err(),
        HandlerErrorKind::Unauthorized
    );
}

#[test]
fn test_authorized_reader_propagates_auth_error() {
    let authenicator = BearerTokenAuthenticator::from_config(&basic_config()).unwrap();
    let map = auth_headers("Basic xyz");
    assert_eq!(
        authorized_reader(&authenicator, &map).unwrap_err(),
        HandlerErrorKind::InvalidAuth
    );
}

#[test]
fn test_config_name() {
    assert_eq!(Group::Broadcaster.config_name(), "broadcaster_auth");
    assert_eq!(Group::Reader.config_name(), "reader_auth");
}

#[test]
fn test_distinct_config_builds() {
    let config = AuthConfig {
        broadcaster_auth: Some(vec![
            entry("a", &["t1", "t2"]),
            entry("b", &["t3"]),
            entry("c", &[]),
        ]),
        reader_auth: Some(vec![entry("d", &["t4"]), entry("e", &["t5", "t6"])]),
    };
    let authenicator = BearerTokenAuthenticator::from_config(&config).unwrap();
    for (token, user, group) in [
        ("t1", "a", Group::Broadcaster),
        ("t2", "a", Group::Broadcaster),
        ("t3", "b", Group::Broadcaster),
        ("t4", "d", Group::Reader),
        ("t5", "e", Group::Reader),
        ("t6", "e", Group::Reader),
    ] {
        let map = auth_headers(&format!("Bearer {}", token));
        assert_eq!(
            authenicator.authenticated_user(&map).unwrap(),
            (user.to_string(), group)
        );
    }
}
