use icloud_calendar_private_api::caldav::CalendarInfo;
use icloud_calendar_private_api::client::{
    CalDavMethod, CalDavResponse, ClientError, Depth, ICloudCalendarClient,
    CALENDAR_EVENTS_REPORT, CALENDAR_HOME_PROPFIND, CALENDAR_LIST_PROPFIND, PRINCIPAL_PROPFIND,
};
use icloud_calendar_private_api::export::{select_for_export, ExportError, ExportNote, ExportRun};

fn ok(body: &str) -> CalDavResponse {
    CalDavResponse { success: true, status: "207 Multi-Status".to_string(), body: body.to_string() }
}

fn cal(url: &str, name: &str) -> CalendarInfo {
    CalendarInfo { url: url.to_string(), display_name: name.to_string() }
}

#[test]
fn auth_header_is_basic_base64_of_credentials() {
    let c = ICloudCalendarClient::new("user".to_string(), "pass".to_string());
    assert_eq!(c.get_auth_header(), "Basic dXNlcjpwYXNz");
}

#[test]
fn auth_header_with_non_ascii_password() {
    let c = ICloudCalendarClient::new("a".to_string(), "é".to_string());
    assert_eq!(c.get_auth_header(), "Basic YTrDqQ==");
}

#[test]
fn build_url_keeps_absolute_urls() {
    let c = ICloudCalendarClient::new("u".to_string(), "p".to_string());
    assert_eq!(c.build_url("https://p1-caldav.icloud.com/x/"), "https://p1-caldav.icloud.com/x/");
    assert_eq!(c.build_url("http://example.org/"), "http://example.org/");
}

#[test]
fn build_url_resolves_relative_hrefs() {
    let c = ICloudCalendarClient::new("u".to_string(), "p".to_string());
    assert_eq!(c.build_url("/123/principal/"), "https://caldav.icloud.com/123/principal/");
    let once = c.build_url("/a/");
    assert_eq!(c.build_url(&once), once);
}

#[test]
fn headers_carry_auth_content_type_and_depth() {
    let c = ICloudCalendarClient::new("user".to_string(), "pass".to_string());
    let h = c.get_headers();
    assert_eq!(
        h,
        vec![
            ("authorization".to_string(), "Basic dXNlcjpwYXNz".to_string()),
            ("content-type".to_string(), "application/xml; charset=utf-8".to_string()),
            ("depth".to_string(), "0".to_string()),
        ]
    );
    let req = c.calendar_events_request("/1/calendars/w/");
    assert_eq!(c.request_headers(&req)[2], ("depth".to_string(), "1".to_string()));
}

#[test]
fn discovery_walks_principal_then_home() {
    let mut c = ICloudCalendarClient::new("u".to_string(), "p".to_string());
    let first = c.next_discovery_request().unwrap();
    assert_eq!(first.method, CalDavMethod::Propfind);
    assert_eq!(first.url, "https://caldav.icloud.com/");
    assert_eq!(first.depth, Depth::Zero);
    assert_eq!(first.body, PRINCIPAL_PROPFIND);
    c.record_discovery(&ok("<current-user-principal><href>/9/principal/</href></current-user-principal>")).unwrap();
    let second = c.next_discovery_request().unwrap();
    assert_eq!(second.url, "https://caldav.icloud.com/9/principal/");
    assert_eq!(second.body, CALENDAR_HOME_PROPFIND);
    c.record_discovery(&ok("<calendar-home-set><href>https://p5-caldav.icloud.com/9/calendars/</href></calendar-home-set>")).unwrap();
    assert!(c.next_discovery_request().is_none());
    let list = c.calendar_list_request().unwrap();
    assert_eq!(list.url, "https://p5-caldav.icloud.com/9/calendars/");
    assert_eq!(list.depth, Depth::One);
    assert_eq!(list.body, CALENDAR_LIST_PROPFIND);
}

#[test]
fn discovery_failure_reports_status_and_body() {
    let mut c = ICloudCalendarClient::new("u".to_string(), "p".to_string());
    let resp = CalDavResponse {
        success: false,
        status: "401 Unauthorized".to_string(),
        body: "denied".to_string(),
    };
    match c.record_principal(&resp) {
        Err(ClientError::DiscoverPrincipalFailed { status, body }) => {
            assert_eq!(status, "401 Unauthorized");
            assert_eq!(body, "denied");
        }
        _ => panic!("expected a failed discovery"),
    }
    assert!(matches!(c.record_principal(&ok("<multistatus/>")), Err(ClientError::PrincipalNotFound)));
    assert!(c.next_discovery_request().is_some());
}

#[test]
fn requests_need_discovered_urls() {
    let c = ICloudCalendarClient::new("u".to_string(), "p".to_string());
    assert!(matches!(c.calendar_home_request(), Err(ClientError::PrincipalNotSet)));
    assert!(matches!(c.calendar_list_request(), Err(ClientError::CalendarHomeNotSet)));
}

#[test]
fn events_request_is_a_report() {
    let c = ICloudCalendarClient::new("u".to_string(), "p".to_string());
    let r = c.calendar_events_request("/1/calendars/w/");
    assert_eq!(r.method, CalDavMethod::Report);
    assert_eq!(r.url, "https://caldav.icloud.com/1/calendars/w/");
    assert_eq!(r.body, CALENDAR_EVENTS_REPORT);
}

#[test]
fn calendars_from_failed_response() {
    let c = ICloudCalendarClient::new("u".to_string(), "p".to_string());
    let resp = CalDavResponse { success: false, status: "500".to_string(), body: String::new() };
    assert!(matches!(c.calendars_from_response(&resp), Err(ClientError::ListCalendarsFailed { .. })));
}

#[test]
fn find_calendar_takes_first_partial_match() {
    let cals = vec![cal("/a/", "Personal"), cal("/b/", "Work"), cal("/c/", "Work Travel")];
    let found = ICloudCalendarClient::find_calendar(&cals, "Wor").unwrap();
    assert_eq!(found.url, "/b/");
    match ICloudCalendarClient::find_calendar(&cals, "Gym") {
        Err(ClientError::CalendarNotFound { name }) => assert_eq!(name, "Gym"),
        _ => panic!("expected not found"),
    }
}

#[test]
fn events_from_response_passes_body() {
    let body = ICloudCalendarClient::events_from_response(ok("xyz")).ok().unwrap();
    assert_eq!(body, "xyz");
    let failed = CalDavResponse { success: false, status: "404 Not Found".to_string(), body: "no".to_string() };
    assert!(matches!(
        ICloudCalendarClient::events_from_response(failed),
        Err(ClientError::GetCalendarEventsFailed { .. })
    ));
}

#[test]
fn export_selection_filters_by_name() {
    let cals = vec![cal("/a/", "Personal"), cal("/b/", "Work"), cal("/c/", "Homework")];
    let sel = select_for_export(cals, Some("ork")).ok().unwrap();
    assert_eq!(sel.len(), 2);
    assert_eq!(sel[0].display_name, "Work");
    assert_eq!(sel[1].display_name, "Homework");
    let all = select_for_export(vec![cal("/a/", "A")], None).ok().unwrap();
    assert_eq!(all.len(), 1);
}

#[test]
fn export_selection_errors() {
    assert_eq!(select_for_export(vec![], None).err(), Some(ExportError::NoCalendars));
    assert_eq!(
        select_for_export(vec![cal("/a/", "A")], Some("zzz")).err(),
        Some(ExportError::NoMatchingCalendars)
    );
}

#[test]
fn export_run_gathers_calendars() {
    let c = ICloudCalendarClient::new("u".to_string(), "p".to_string());
    let mut run = ExportRun::new();
    let a = cal("/a/", "A");
    let b = cal("/b/", "B");
    let d = cal("/d/", "D");
    let xml = "<c:calendar-data>BEGIN:VEVENT\nUID:1\nEND:VEVENT</c:calendar-data>";
    assert_eq!(run.record(&c, &a, Some(xml)), ExportNote::Exported { events: 1 });
    assert_eq!(run.record(&c, &b, Some("<multistatus/>")), ExportNote::NoEvents);
    assert_eq!(run.record(&c, &d, None), ExportNote::FetchFailed);
    assert_eq!(run.exported_count(), 1);
    assert_eq!(run.failed_count(), 1);
    assert_eq!(
        run.finish().ok().unwrap(),
        "BEGIN:VCALENDAR\r\nVERSION:2.0\r\nPRODID:-//iCloud Calendar Export//EN\r\nCALSCALE:GREGORIAN\r\nX-WR-CALNAME:A\r\nX-WR-TIMEZONE:UTC\r\nBEGIN:VEVENT\nUID:1\nEND:VEVENT\r\nEND:VCALENDAR\r\n\r\n"
    );
}

#[test]
fn export_run_with_nothing_exported() {
    let c = ICloudCalendarClient::new("u".to_string(), "p".to_string());
    let mut run = ExportRun::new();
    run.record(&c, &cal("/a/", "A"), None);
    assert_eq!(run.finish().err(), Some(ExportError::NothingExported));
}

#[test]
fn ordinary_credentials_are_encodable() {
    assert!(ICloudCalendarClient::credentials_encodable("user@icloud.com", "abcd-efgh-ijkl-mnop"));
    assert!(ICloudCalendarClient::credentials_encodable("", ""));
}

#[test]
fn discovered_urls_are_remembered() {
    let mut c = ICloudCalendarClient::new("u".to_string(), "p".to_string());
    assert_eq!(c.principal_url(), None);
    c.record_principal(&ok("<current-user-principal><D:href>/5/principal/</D:href></current-user-principal>")).unwrap();
    assert_eq!(c.principal_url(), Some("/5/principal/".to_string()));
    assert_eq!(c.calendar_home_url(), None);
    c.record_calendar_home(&ok("<calendar-home-set><HREF>/5/calendars/</HREF></calendar-home-set>")).unwrap();
    assert_eq!(c.calendar_home_url(), Some("/5/calendars/".to_string()));
}

#[test]
fn failed_discovery_keeps_urls_unset() {
    let mut c = ICloudCalendarClient::new("u".to_string(), "p".to_string());
    let failed = CalDavResponse { success: false, status: "401 Unauthorized".to_string(), body: "no".to_string() };
    assert!(c.record_discovery(&failed).is_err());
    assert_eq!(c.principal_url(), None);
    assert_eq!(c.calendar_home_url(), None);
    c.record_discovery(&ok("<current-user-principal><href>/5/p/</href></current-user-principal>")).unwrap();
    assert!(c.record_discovery(&failed).is_err());
    assert_eq!(c.principal_url(), Some("/5/p/".to_string()));
    assert_eq!(c.calendar_home_url(), None);
    assert!(c.next_discovery_request().is_some());
}

#[test]
fn export_document_concatenates_exported_calendars_in_order() {
    let c = ICloudCalendarClient::new("u".to_string(), "p".to_string());
    let mut run = ExportRun::new();
    run.record(&c, &cal("/a/", "A"), Some("<calendar-data>BEGIN:VEVENT\r\nUID:a\r\nEND:VEVENT</calendar-data>"));
    run.record(&c, &cal("/x/", "X"), None);
    run.record(&c, &cal("/b/", "B"), Some("<calendar-data>BEGIN:VEVENT\r\nUID:b\r\nEND:VEVENT</calendar-data>"));
    let piece = |name: &str, uid: &str| {
        format!("BEGIN:VCALENDAR\r\nVERSION:2.0\r\nPRODID:-//iCloud Calendar Export//EN\r\nCALSCALE:GREGORIAN\r\nX-WR-CALNAME:{}\r\nX-WR-TIMEZONE:UTC\r\nBEGIN:VEVENT\r\nUID:{}\r\nEND:VEVENT\r\nEND:VCALENDAR\r\n\r\n", name, uid)
    };
    assert_eq!(run.exported_count(), 2);
    assert_eq!(run.finish().ok().unwrap(), piece("A", "a") + &piece("B", "b"));
}
