use atom_mqtt::auth::{
    parse_acl_line, topic_matches_filter, AclAccess, AclChecker, AclEntry, AuthErrorKind, AuthResult, Authenticator,
};
use atom_mqtt::config::AuthMethod;
use atom_mqtt::v3::types::ConnectReturnCode;
use atom_mqtt::v5::types::ReasonCode;

#[test]
fn test_topic_matches_filter() {
    assert!(topic_matches_filter("sensor/temp", "sensor/temp"));
    assert!(topic_matches_filter("sensor/temp", "sensor/+"));
    assert!(topic_matches_filter("sensor/room1/temp", "sensor/+/temp"));
    assert!(topic_matches_filter("a/b/c", "#"));
    assert!(topic_matches_filter("anything", "#"));
    assert!(!topic_matches_filter("sensor/temp", "sensor/humidity"));
    assert!(!topic_matches_filter("sensor/temp", "home/#"));
    assert!(topic_matches_filter("sensor/floor1/room1/temp", "sensor/#"));
    assert!(topic_matches_filter("a", "+"));
    assert!(!topic_matches_filter("a/b", "+"));
}

#[test]
fn test_parse_acl_line() {
    let entry = parse_acl_line("user admin topic readwrite #").unwrap();
    assert_eq!(entry.username, "admin");
    assert_eq!(entry.access, AclAccess::ReadWrite);
    assert_eq!(entry.filter, "#");

    let entry = parse_acl_line("user sensor01 topic publish sensor/#").unwrap();
    assert_eq!(entry.username, "sensor01");
    assert_eq!(entry.access, AclAccess::Publish);
    assert_eq!(entry.filter, "sensor/#");

    assert!(parse_acl_line("").is_none());
    assert!(parse_acl_line("# comment").is_none());
    assert!(parse_acl_line("user x topic unknown #").is_none());
}

#[test]
fn test_acl_checker_publish() {
    let checker = AclChecker {
        entries: vec![
            AclEntry { username: "admin".into(), filter: "#".into(), access: AclAccess::ReadWrite },
            AclEntry { username: "sensor".into(), filter: "sensor/#".into(), access: AclAccess::Publish },
            AclEntry { username: "app".into(), filter: "notifications/#".into(), access: AclAccess::Subscribe },
        ],
        enabled: true,
    };

    assert!(checker.authorize_publish("admin", "any/topic"));
    assert!(checker.authorize_publish("sensor", "sensor/temp"));
    assert!(!checker.authorize_publish("sensor", "home/temp")); // not in sensor/#
    assert!(!checker.authorize_publish("app", "notifications/1")); // subscribe only
    assert!(!checker.authorize_publish("unknown", "any/topic")); // no rule
}

#[test]
fn test_acl_checker_subscribe() {
    let checker = AclChecker {
        entries: vec![
            AclEntry { username: "admin".into(), filter: "#".into(), access: AclAccess::ReadWrite },
            AclEntry { username: "app".into(), filter: "notifications/#".into(), access: AclAccess::Subscribe },
        ],
        enabled: true,
    };

    assert!(checker.authorize_subscribe("admin", "any/topic"));
    assert!(checker.authorize_subscribe("app", "notifications/alerts"));
    assert!(!checker.authorize_subscribe("app", "sensor/data")); // not in notifications/#
    assert!(!checker.authorize_subscribe("unknown", "any/topic"));
}

#[test]
fn test_acl_disabled() {
    let checker = AclChecker { entries: vec![], enabled: false };
    assert!(checker.authorize_publish("anyone", "any/topic"));
    assert!(checker.authorize_subscribe("anyone", "any/topic"));
}

#[test]
fn acl_lines_keep_spaces_in_the_filter_and_trim() {
    let e = parse_acl_line("  user bob topic subscribe a b/c  ").unwrap();
    assert_eq!(e.username, "bob");
    assert_eq!(e.access, AclAccess::Subscribe);
    assert_eq!(e.filter, "a b/c");
    assert!(parse_acl_line("user bob topic publish").is_none());
    assert!(parse_acl_line("member bob topic publish x").is_none());
    assert!(parse_acl_line("user bob rule publish x").is_none());
}

#[test]
fn acl_checker_from_file_text() {
    let text = "# rules\nuser admin topic readwrite #\r\n\nbad line\nuser app topic subscribe notifications/#\n";
    let checker = AclChecker::new("acl.txt", Some(text));
    assert!(checker.enabled);
    assert_eq!(checker.entries.len(), 2);
    assert_eq!(checker.entries[0].filter, "#");
    assert!(checker.authorize_subscribe("app", "notifications/x"));
    assert!(!checker.authorize_publish("app", "notifications/x"));

    let disabled = AclChecker::new("", Some(text));
    assert!(!disabled.enabled);
    let unreadable = AclChecker::new("acl.txt", None);
    assert!(!unreadable.enabled);
    let empty = AclChecker::new("acl.txt", Some("# nothing\n"));
    assert!(!empty.enabled);
    assert!(empty.authorize_publish("anyone", "t"));
}

#[test]
fn a_later_rule_can_grant_what_an_earlier_one_does_not() {
    let checker = AclChecker {
        entries: vec![
            AclEntry { username: "u".into(), filter: "a/#".into(), access: AclAccess::Subscribe },
            AclEntry { username: "u".into(), filter: "a/#".into(), access: AclAccess::Publish },
        ],
        enabled: true,
    };
    assert!(checker.authorize_publish("u", "a/b"));
}

#[test]
fn authentication_without_a_password_file() {
    let auth = Authenticator::new(&AuthMethod::Disabled, "");
    assert_eq!(auth.authenticate(true, None, None), AuthResult::Success { username: "anonymous".into() });
    assert_eq!(auth.authenticate(true, Some("bob"), None), AuthResult::Success { username: "bob".into() });
    assert_eq!(auth.authenticate(false, Some("bob"), Some("x")), AuthResult::Success { username: "bob".into() });
    assert_eq!(
        auth.authenticate(false, None, None),
        AuthResult::Denied { reason: AuthErrorKind::AnonymousDisallowed }
    );
}

#[test]
fn authentication_with_a_password_file() {
    let auth = Authenticator::new(&AuthMethod::File { path: "passwd".into() }, " alice : secret \nbob:\nnocolon\n");
    assert_eq!(auth.authenticate(false, Some("alice"), Some("secret")), AuthResult::Success { username: "alice".into() });
    // Failed credentials fall back to anonymous access when it is allowed.
    assert_eq!(auth.authenticate(true, Some("alice"), Some("wrong")), AuthResult::Success { username: "anonymous".into() });
    assert_eq!(
        auth.authenticate(false, Some("alice"), Some("wrong")),
        AuthResult::Denied { reason: AuthErrorKind::BadUsernameOrPassword }
    );
    // A missing password is the empty password.
    assert_eq!(auth.authenticate(false, Some("bob"), None), AuthResult::Success { username: "bob".into() });
    assert_eq!(auth.authenticate(true, None, None), AuthResult::Success { username: "anonymous".into() });
    assert_eq!(
        auth.authenticate(false, None, None),
        AuthResult::Denied { reason: AuthErrorKind::BadUsernameOrPassword }
    );
}

#[test]
fn auth_errors_map_to_connack_codes() {
    assert_eq!(AuthErrorKind::BadUsernameOrPassword.to_v3_return_code(), ConnectReturnCode::NotAuthorized);
    assert_eq!(AuthErrorKind::AnonymousDisallowed.to_v3_return_code(), ConnectReturnCode::NotAuthorized);
    assert_eq!(AuthErrorKind::NotAuthorized.to_v3_return_code(), ConnectReturnCode::NotAuthorized);
    assert_eq!(AuthErrorKind::BadUsernameOrPassword.to_v5_reason_code(), ReasonCode::BadUserNameOrPassword);
    assert_eq!(AuthErrorKind::AnonymousDisallowed.to_v5_reason_code(), ReasonCode::NotAuthorized);
}

#[test]
fn star_rules_apply_to_every_user() {
    let checker = AclChecker {
        entries: vec![AclEntry { username: "*".into(), filter: "test/#".into(), access: AclAccess::Subscribe }],
        enabled: true,
    };
    assert!(checker.authorize_subscribe("anyone", "test/x"));
    assert!(checker.authorize_subscribe("*", "test/x"));
    assert!(!checker.authorize_publish("anyone", "test/x"));
    assert!(!checker.authorize_subscribe("anyone", "other/x"));
}
