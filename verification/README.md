# icloud_calendar_private_api

A client for iCloud's CalDAV service that lists a user's calendars and
exports them as iCalendar (`.ics`) documents, with a command-line exporter
and a small REST server in front of it.

- `src/` is the verified library (Verus):
  - `text.rs`: the character-level model of search, trimming, splitting and
    replacement that the response scanners are specified with;
  - `caldav.rs`: reading PROPFIND/REPORT responses (hrefs, calendar
    collections, `calendar-data`) and assembling the VCALENDAR document;
  - `client.rs`: the session state and the decisions between requests
    (which request comes next, what a response means);
  - `export.rs`: calendar selection and gathering for the exporter;
  - `service.rs`: the REST server's defaults, authentication decisions and
    the answers of its calendar endpoints;
  - `external.rs`: the calls into `base64`, `urlencoding` and
    `String::from_utf8`, whose contracts are trusted;
  - `laws.rs`: properties proved of every input.
- `app/` performs the HTTP requests, the file and terminal I/O and the
  serving; `main.rs` runs the server when installed as
  `icloud_calendar_server` and the exporter otherwise.
- `tests/` exercises the library on concrete responses.
