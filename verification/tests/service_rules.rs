use icloud_calendar_private_api::caldav::CalendarInfo;
use icloud_calendar_private_api::service::{
    access_after_validation, authorize_request, calendar_disposition, calendar_list_response,
    credentials_from_decoded, decode_calendar_name, default_auth_method, default_host,
    default_port, default_stalwart_url, parse_basic_credentials, stalwart_credential_check,
    AccessOutcome, AuthDecision, CredentialCheck, StalwartConfig, AUTH_REQUIRED_MESSAGE,
    AUTH_SERVICE_ERROR_MESSAGE, BASIC_CHALLENGE,
};

fn stalwart(enabled: bool, method: &str) -> StalwartConfig {
    StalwartConfig {
        enabled,
        server_url: "https://mail.example.org".to_string(),
        auth_method: method.to_string(),
    }
}

#[test]
fn defaults() {
    assert_eq!(default_host(), "127.0.0.1");
    assert_eq!(default_port(), 8888);
    assert_eq!(default_stalwart_url(), "http://localhost:8080");
    assert_eq!(default_auth_method(), "jmap");
    let d = StalwartConfig::default();
    assert!(!d.enabled);
    assert_eq!(d.server_url, "http://localhost:8080");
    assert_eq!(d.auth_method, "jmap");
}

#[test]
fn credential_check_by_method() {
    assert!(matches!(stalwart_credential_check(&stalwart(false, "jmap")), CredentialCheck::AllowWithoutCheck));
    match stalwart_credential_check(&stalwart(true, "jmap")) {
        CredentialCheck::QueryJmap { url, imap_fallback } => {
            assert_eq!(url, "https://mail.example.org/.well-known/jmap");
            assert!(!imap_fallback);
        }
        _ => panic!("expected a JMAP query"),
    }
    match stalwart_credential_check(&stalwart(true, "imap")) {
        CredentialCheck::QueryJmap { url, imap_fallback } => {
            assert_eq!(url, "https://mail.example.org/.well-known/jmap");
            assert!(imap_fallback);
        }
        _ => panic!("expected a JMAP query"),
    }
    assert!(matches!(stalwart_credential_check(&stalwart(true, "ldap")), CredentialCheck::UnknownMethod));
}

#[test]
fn basic_credentials_are_decoded() {
    assert_eq!(
        parse_basic_credentials("Basic dXNlcjpwYXNz"),
        Some(("user".to_string(), "pass".to_string()))
    );
    // "a:b:c" keeps everything after the first colon as the password
    assert_eq!(
        parse_basic_credentials("Basic YTpiOmM="),
        Some(("a".to_string(), "b:c".to_string()))
    );
}

#[test]
fn basic_credentials_rejected() {
    assert_eq!(parse_basic_credentials("Bearer dXNlcjpwYXNz"), None);
    assert_eq!(parse_basic_credentials("Basic !!!"), None);
    // "nocolon"
    assert_eq!(parse_basic_credentials("Basic bm9jb2xvbg=="), None);
    assert_eq!(credentials_from_decoded(vec![0xff, b':', b'x']), None);
    assert_eq!(
        credentials_from_decoded(b"x:".to_vec()),
        Some(("x".to_string(), String::new()))
    );
}

#[test]
fn authorization_decisions() {
    assert!(matches!(authorize_request(&stalwart(false, "jmap"), None), AuthDecision::Proceed));
    assert!(matches!(authorize_request(&stalwart(true, "jmap"), None), AuthDecision::Reject));
    assert!(matches!(
        authorize_request(&stalwart(true, "jmap"), Some("Basic ???")),
        AuthDecision::Reject
    ));
    match authorize_request(&stalwart(true, "jmap"), Some("Basic dXNlcjpwYXNz")) {
        AuthDecision::Verify { username, password } => {
            assert_eq!(username, "user");
            assert_eq!(password, "pass");
        }
        _ => panic!("expected credentials to verify"),
    }
}

#[test]
fn calendar_list_entries_carry_name_and_href() {
    let cals = vec![
        CalendarInfo { url: "/1/calendars/home/".to_string(), display_name: "My Home".to_string() },
        CalendarInfo { url: "/1/calendars/w/".to_string(), display_name: "Work&Co".to_string() },
    ];
    let r = calendar_list_response(cals);
    assert_eq!(r.count, 2);
    assert_eq!(r.calendars.len(), 2);
    assert_eq!(r.calendars[0].display_name, "My Home");
    assert_eq!(r.calendars[0].url, "/1/calendars/home/");
    assert_eq!(r.calendars[1].display_name, "Work&Co");
    assert_eq!(r.calendars[1].url, "/1/calendars/w/");
}

#[test]
fn documented_list_example() {
    let cals = vec![CalendarInfo {
        url: "/1/calendars/work/".to_string(),
        display_name: "My Work".to_string(),
    }];
    let r = calendar_list_response(cals);
    assert_eq!(r.count, 1);
    assert_eq!(r.calendars[0].display_name, "My Work");
    assert_eq!(r.calendars[0].url, "/1/calendars/work/");
    assert_eq!(calendar_list_response(vec![]).count, 0);
}

#[test]
fn calendar_names_are_percent_decoded() {
    assert_eq!(decode_calendar_name("My%20Home"), Some("My Home".to_string()));
    assert_eq!(decode_calendar_name("plain"), Some("plain".to_string()));
    assert_eq!(decode_calendar_name("%FF"), None);
}

#[test]
fn malformed_escapes_are_kept_literally() {
    assert_eq!(decode_calendar_name("100%"), Some("100%".to_string()));
    assert_eq!(decode_calendar_name("%zz"), Some("%zz".to_string()));
    assert_eq!(decode_calendar_name("%4"), Some("%4".to_string()));
    assert_eq!(decode_calendar_name("%4g%41"), Some("%4gA".to_string()));
    assert_eq!(decode_calendar_name("a+b"), Some("a+b".to_string()));
    assert_eq!(decode_calendar_name("%C3%A9t%C3%A9"), Some("été".to_string()));
}

#[test]
fn checked_credentials_decide_access() {
    assert_eq!(access_after_validation::<()>(&Ok(true)), AccessOutcome::Serve);
    assert_eq!(access_after_validation::<()>(&Ok(false)), AccessOutcome::Challenge);
    assert_eq!(access_after_validation(&Err::<bool, &str>("down")), AccessOutcome::ServiceError);
    assert_eq!(AUTH_REQUIRED_MESSAGE, "Authentication required");
    assert_eq!(AUTH_SERVICE_ERROR_MESSAGE, "Authentication service error");
    assert_eq!(BASIC_CHALLENGE, "Basic realm=\"iCloud Calendar API\"");
}

#[test]
fn served_calendars_are_attachments() {
    assert_eq!(calendar_disposition("Work"), "attachment; filename=\"Work.ics\"");
    assert_eq!(calendar_disposition("My Home"), "attachment; filename=\"My Home.ics\"");
}
