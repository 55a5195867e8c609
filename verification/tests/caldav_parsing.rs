use icloud_calendar_private_api::caldav::CalendarInfo;
use icloud_calendar_private_api::client::ICloudCalendarClient;

fn client() -> ICloudCalendarClient {
    ICloudCalendarClient::new("user@icloud.com".to_string(), "abcd-efgh".to_string())
}

const PRINCIPAL_RESPONSE: &str = r#"<?xml version="1.0" encoding="UTF-8"?>
<multistatus xmlns="DAV:">
  <response>
    <href>/</href>
    <propstat>
      <prop>
        <current-user-principal>
          <href>/123456789/principal/</href>
        </current-user-principal>
      </prop>
      <status>HTTP/1.1 200 OK</status>
    </propstat>
  </response>
</multistatus>"#;

#[test]
fn extract_href_finds_principal_after_its_property() {
    let c = client();
    assert_eq!(
        c.extract_href(PRINCIPAL_RESPONSE, "current-user-principal"),
        Some("/123456789/principal/".to_string())
    );
}

#[test]
fn extract_href_without_context_takes_first_href() {
    let c = client();
    assert_eq!(c.extract_href(PRINCIPAL_RESPONSE, "other"), Some("/".to_string()));
}

#[test]
fn extract_href_with_namespace_prefix_and_whitespace() {
    let c = client();
    let xml = "<d:multistatus><d:response><d:propstat><d:prop><cal:calendar-home-set>\
               <d:href>  https://p42-caldav.icloud.com/123/calendars/ \n</d:href>\
               </cal:calendar-home-set></d:prop></d:propstat></d:response></d:multistatus>";
    assert_eq!(
        c.extract_href(xml, "calendar-home-set"),
        Some("https://p42-caldav.icloud.com/123/calendars/".to_string())
    );
}

#[test]
fn extract_href_with_attributes() {
    let c = client();
    let xml = "<current-user-principal><href xmlns=\"DAV:\">/77/principal/</href></current-user-principal>";
    assert_eq!(
        c.extract_href(xml, "current-user-principal"),
        Some("/77/principal/".to_string())
    );
}

#[test]
fn extract_href_skips_empty_content() {
    let c = client();
    let xml = "<current-user-principal><d:href>   </d:href></current-user-principal>";
    assert_eq!(c.extract_href(xml, "current-user-principal"), None);
}

#[test]
fn extract_href_none_without_href() {
    let c = client();
    assert_eq!(c.extract_href("<multistatus/>", "current-user-principal"), None);
}

const CALENDAR_LIST: &str = r#"<?xml version="1.0" encoding="UTF-8"?>
<multistatus xmlns="DAV:">
<response xmlns="DAV:"><href>/123/calendars/</href><propstat><prop><resourcetype><collection/></resourcetype></prop></propstat></response>
<response xmlns="DAV:"><href>/123/calendars/home/</href><propstat><prop><resourcetype><collection/><calendar xmlns="urn:ietf:params:xml:ns:caldav"/></resourcetype><displayname xmlns="DAV:"> Home </displayname></prop></propstat></response>
<response xmlns="DAV:"><href>/123/calendars/inbox/</href><propstat><prop><resourcetype><schedule-inbox xmlns="urn:ietf:params:xml:ns:caldav"/><calendar/></resourcetype></prop></propstat></response>
<response xmlns="DAV:"><href>/123/calendars/work/</href><propstat><prop><resourcetype><calendar/></resourcetype></prop></propstat></response>
<response xmlns="DAV:"><href>/123/calendars/file.ics</href><propstat><prop><resourcetype><calendar/></resourcetype></prop></propstat></response>
</multistatus>"#;

#[test]
fn parse_calendars_lists_calendar_collections() {
    let c = client();
    let cals = c.parse_calendars(CALENDAR_LIST);
    assert_eq!(cals.len(), 2);
    assert_eq!(cals[0].url, "/123/calendars/home/");
    assert_eq!(cals[0].display_name, "Home");
    assert_eq!(cals[1].url, "/123/calendars/work/");
    assert_eq!(cals[1].display_name, "Unnamed Calendar");
}

#[test]
fn parse_calendars_with_prefixed_elements() {
    let c = client();
    let xml = "<d:multistatus><response><d:href>/1/calendars/abc/</d:href><d:prop><d:resourcetype><c:calendar/></d:resourcetype><d:displayname>Family</d:displayname></d:prop></response></d:multistatus>";
    let cals = c.parse_calendars(xml);
    assert_eq!(cals.len(), 1);
    assert_eq!(cals[0].url, "/1/calendars/abc/");
    assert_eq!(cals[0].display_name, "Family");
}

#[test]
fn parse_calendars_splits_only_at_unprefixed_response() {
    let c = client();
    let xml = "<d:multistatus><d:response><d:href>/1/calendars/abc/</d:href><c:calendar/></d:response></d:multistatus>";
    assert!(c.parse_calendars(xml).is_empty());
}

#[test]
fn parse_calendars_empty_without_responses() {
    let c = client();
    assert!(c.parse_calendars("<multistatus><calendar/></multistatus>").is_empty());
}

const REPORT_PLAIN: &str = "<multistatus><response><propstat><prop><calendar-data xmlns=\"urn:ietf:params:xml:ns:caldav\">BEGIN:VCALENDAR&#13;\nBEGIN:VEVENT&#13;\nSUMMARY:A &amp; B &lt;x&gt;&#13;\nEND:VEVENT&#13;\nEND:VCALENDAR</calendar-data></prop></propstat></response>\
<response><propstat><prop><calendar-data xmlns=\"urn:ietf:params:xml:ns:caldav\">not ical</calendar-data></prop></propstat></response></multistatus>";

#[test]
fn extract_ical_events_unescapes_entities() {
    let c = client();
    let events = c.extract_ical_events(REPORT_PLAIN);
    assert_eq!(
        events,
        vec!["BEGIN:VCALENDAR\r\nBEGIN:VEVENT\r\nSUMMARY:A & B <x>\r\nEND:VEVENT\r\nEND:VCALENDAR".to_string()]
    );
}

#[test]
fn extract_ical_events_unwraps_cdata() {
    let c = client();
    let xml = "<C:calendar-data><![CDATA[BEGIN:VEVENT\nUID:1\nEND:VEVENT\n]]></C:calendar-data>";
    let events = c.extract_ical_events(xml);
    assert_eq!(events, vec!["BEGIN:VEVENT\nUID:1\nEND:VEVENT\n".to_string()]);
}

#[test]
fn extract_ical_events_entity_order_is_sequential() {
    let c = client();
    let xml = "<c:calendar-data>BEGIN:VEVENT &amp;lt; END:VEVENT</c:calendar-data>";
    assert_eq!(c.extract_ical_events(xml), vec!["BEGIN:VEVENT &lt; END:VEVENT".to_string()]);
}

#[test]
fn extract_ical_events_none() {
    let c = client();
    assert!(c.extract_ical_events("<multistatus/>").is_empty());
}

#[test]
fn combine_ical_events_wraps_vevents() {
    let c = client();
    let events = vec![
        "BEGIN:VCALENDAR\r\nBEGIN:VEVENT\r\nUID:1\r\nEND:VEVENT\r\nBEGIN:VEVENT\r\nUID:2\r\nEND:VEVENT\r\nEND:VCALENDAR".to_string(),
        "BEGIN:VEVENT\nUID:3\nEND:VEVENT".to_string(),
    ];
    let doc = c.combine_ical_events(events, "Work");
    assert_eq!(
        doc,
        "BEGIN:VCALENDAR\r\nVERSION:2.0\r\nPRODID:-//iCloud Calendar Export//EN\r\nCALSCALE:GREGORIAN\r\nX-WR-CALNAME:Work\r\nX-WR-TIMEZONE:UTC\r\n\
BEGIN:VEVENT\r\nUID:1\r\nEND:VEVENT\r\nBEGIN:VEVENT\r\nUID:2\r\nEND:VEVENT\r\nBEGIN:VEVENT\nUID:3\nEND:VEVENT\r\nEND:VCALENDAR\r\n"
    );
}

#[test]
fn combine_ical_events_drops_unterminated_vevent() {
    let c = client();
    let doc = c.combine_ical_events(vec!["BEGIN:VEVENT\nUID:9".to_string()], "X");
    assert!(doc.ends_with("X-WR-TIMEZONE:UTC\r\nEND:VCALENDAR\r\n"));
}

#[test]
fn calendar_ical_without_events_is_empty_vcalendar() {
    let c = client();
    let cal = CalendarInfo { url: "/1/calendars/a/".to_string(), display_name: "Empty".to_string() };
    assert_eq!(
        c.calendar_ical(&cal, "<multistatus/>"),
        "BEGIN:VCALENDAR\r\nVERSION:2.0\r\nPRODID:-//iCloud Calendar Export//EN\r\nCALSCALE:GREGORIAN\r\nX-WR-CALNAME:Empty\r\nX-WR-TIMEZONE:UTC\r\nEND:VCALENDAR\r\n"
    );
}

#[test]
fn calendar_ical_with_events() {
    let c = client();
    let cal = CalendarInfo { url: "/1/calendars/a/".to_string(), display_name: "A".to_string() };
    let xml = "<cal:calendar-data>BEGIN:VEVENT\r\nUID:z\r\nEND:VEVENT</cal:calendar-data>";
    assert_eq!(
        c.calendar_ical(&cal, xml),
        "BEGIN:VCALENDAR\r\nVERSION:2.0\r\nPRODID:-//iCloud Calendar Export//EN\r\nCALSCALE:GREGORIAN\r\nX-WR-CALNAME:A\r\nX-WR-TIMEZONE:UTC\r\nBEGIN:VEVENT\r\nUID:z\r\nEND:VEVENT\r\nEND:VCALENDAR\r\n"
    );
}

#[test]
fn combine_ical_events_documented_example() {
    let c = client();
    let events = vec!["BEGIN:VCALENDAR\r\nBEGIN:VEVENT\r\nDTSTART:20240115T140000Z\r\nSUMMARY:Team Meeting\r\nEND:VEVENT\r\nEND:VCALENDAR".to_string()];
    assert_eq!(
        c.combine_ical_events(events, "Personal"),
        "BEGIN:VCALENDAR\r\nVERSION:2.0\r\nPRODID:-//iCloud Calendar Export//EN\r\nCALSCALE:GREGORIAN\r\nX-WR-CALNAME:Personal\r\nX-WR-TIMEZONE:UTC\r\nBEGIN:VEVENT\r\nDTSTART:20240115T140000Z\r\nSUMMARY:Team Meeting\r\nEND:VEVENT\r\nEND:VCALENDAR\r\n"
    );
}

#[test]
fn parse_calendars_one_entry_per_calendar_piece_trimmed() {
    let c = client();
    let xml = "<multistatus>\
<response><href>  /1/calendars/a/ </href><displayname>\n A \n</displayname><resourcetype><calendar/></resourcetype></response>\
<response><href>/1/notes/</href><displayname>Notes</displayname></response>\
<response><href>/1/calendars/b/</href><resourcetype><c:calendar/></resourcetype></response>\
</multistatus>";
    let cals = c.parse_calendars(xml);
    assert_eq!(cals.len(), 2);
    assert_eq!(cals[0].url, "/1/calendars/a/");
    assert_eq!(cals[0].display_name, "A");
    assert_eq!(cals[1].url, "/1/calendars/b/");
    assert_eq!(cals[1].display_name, "Unnamed Calendar");
    assert!(cals.len() <= xml.matches("<response").count());
}

#[test]
fn extract_ical_events_needs_calendar_data() {
    let c = client();
    assert!(c.extract_ical_events("<multistatus><response>BEGIN:VEVENT\nEND:VEVENT</response></multistatus>").is_empty());
}

#[test]
fn extracted_href_occurs_in_response() {
    let c = client();
    let xml = "<current-user-principal><d:href>\t/9/principal/ </d:href></current-user-principal>";
    let h = c.extract_href(xml, "current-user-principal").unwrap();
    assert_eq!(h, "/9/principal/");
    assert!(xml.contains(&h));
    assert_eq!(c.extract_href("<current-user-principal>/9/</current-user-principal>", "current-user-principal"), None);
}
