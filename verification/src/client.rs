//! The state of a CalDAV session with iCloud and the decisions taken between
//! its requests: which request comes next, and what a response means.
//!
//! The caller performs each request and hands back the response; every
//! choice about what to send and what a reply means is made here.
use vstd::prelude::*;
use vstd::utf8::encode_utf8;
use crate::caldav::{
    CalendarInfo, CalendarRecord, calendar_views, combined_calendar, extracted_events,
    extracted_href, calendar_prodid, opt_string_view, parsed_calendars, string_views,
};
use crate::external::{base64_encode, base64_encoded_len, base64_standard_encoding};
use crate::text::{chars_of, contains, contains_chars, starts_with, starts_with_chars};

verus! {

/// The origin of iCloud's CalDAV service; relative hrefs are resolved against it.
pub const ICLOUD_CALDAV_ORIGIN: &'static str = "https://caldav.icloud.com";

/// Where principal discovery starts.
pub const ICLOUD_CALDAV_ROOT: &'static str = "https://caldav.icloud.com/";

/// The PROPFIND body that asks for the current user's principal.
pub const PRINCIPAL_PROPFIND: &'static str = "<?xml version=\"1.0\" encoding=\"UTF-8\"?>\n<d:propfind xmlns:d=\"DAV:\">\n  <d:prop>\n    <d:current-user-principal />\n  </d:prop>\n</d:propfind>";

/// The PROPFIND body that asks a principal for its calendar home.
pub const CALENDAR_HOME_PROPFIND: &'static str = "<?xml version=\"1.0\" encoding=\"UTF-8\"?>\n<d:propfind xmlns:d=\"DAV:\" xmlns:c=\"urn:ietf:params:xml:ns:caldav\">\n  <d:prop>\n    <c:calendar-home-set />\n  </d:prop>\n</d:propfind>";

/// The PROPFIND body that lists the collections of a calendar home.
pub const CALENDAR_LIST_PROPFIND: &'static str = "<?xml version=\"1.0\" encoding=\"UTF-8\"?>\n<d:propfind xmlns:d=\"DAV:\" xmlns:c=\"urn:ietf:params:xml:ns:caldav\" xmlns:cs=\"http://calendarserver.org/ns/\" xmlns:a=\"http://apple.com/ns/ical/\">\n  <d:prop>\n    <d:resourcetype />\n    <d:displayname />\n    <a:calendar-color />\n    <c:calendar-description />\n  </d:prop>\n</d:propfind>";

/// The calendar-query REPORT body that asks for every VEVENT of a calendar.
pub const CALENDAR_EVENTS_REPORT: &'static str = "<?xml version=\"1.0\" encoding=\"UTF-8\"?>\n<c:calendar-query xmlns:d=\"DAV:\" xmlns:c=\"urn:ietf:params:xml:ns:caldav\">\n  <d:prop>\n    <d:getetag />\n    <c:calendar-data />\n  </d:prop>\n  <c:filter>\n    <c:comp-filter name=\"VCALENDAR\">\n      <c:comp-filter name=\"VEVENT\" />\n    </c:comp-filter>\n  </c:filter>\n</c:calendar-query>";

/// The content type of every request body.
pub const XML_CONTENT_TYPE: &'static str = "application/xml; charset=utf-8";

/// The HTTP method of a CalDAV request.
#[derive(Debug, Clone, Copy, PartialEq, Eq, Structural)]
pub enum CalDavMethod {
    Propfind,
    Report,
}

/// The value of the `Depth` header of a CalDAV request.
#[derive(Debug, Clone, Copy, PartialEq, Eq, Structural)]
pub enum Depth {
    Zero,
    One,
}

/// A CalDAV request to perform.
#[derive(Debug)]
pub struct CalDavRequest {
    pub method: CalDavMethod,
    pub url: String,
    pub depth: Depth,
    pub body: String,
}

/// What the server answered: whether the status is a success (2xx), the
/// status as text, and the body.
#[derive(Debug)]
pub struct CalDavResponse {
    pub success: bool,
    pub status: String,
    pub body: String,
}

/// Why a CalDAV operation did not succeed.
#[derive(Debug)]
pub enum ClientError {
    DiscoverPrincipalFailed { status: String, body: String },
    DiscoverCalendarHomeFailed { status: String, body: String },
    ListCalendarsFailed { status: String, body: String },
    GetCalendarEventsFailed { status: String, body: String },
    /// The principal response names no principal.
    PrincipalNotFound,
    /// The principal's response names no calendar home.
    CalendarHomeNotFound,
    PrincipalNotSet,
    CalendarHomeNotSet,
    CalendarNotFound { name: String },
}

pub open spec fn depth_value(d: Depth) -> Seq<char> {
    match d {
        Depth::Zero => "0"@,
        Depth::One => "1"@,
    }
}

/// `r` is the request with these method, URL, depth and body.
pub open spec fn is_request(
    r: CalDavRequest,
    method: CalDavMethod,
    url: Seq<char>,
    depth: Depth,
    body: Seq<char>,
) -> bool {
    &&& r.method == method
    &&& r.url@ == url
    &&& r.depth == depth
    &&& r.body@ == body
}

/// The bytes that are base64-encoded for HTTP Basic authentication.
pub open spec fn credential_bytes(username: Seq<char>, password: Seq<char>) -> Seq<u8> {
    encode_utf8(username + ":"@ + password)
}

/// The encoded credentials fit in memory (base64 needs 4 bytes per 3).
pub open spec fn credentials_fit(username: Seq<char>, password: Seq<char>) -> bool {
    base64_encoded_len(credential_bytes(username, password).len()) <= usize::MAX
}

/// The `Authorization` header value for HTTP Basic authentication.
pub open spec fn basic_authorization(username: Seq<char>, password: Seq<char>) -> Seq<char> {
    "Basic "@ + base64_standard_encoding(credential_bytes(username, password))
}

/// `href` as an absolute URL: unchanged when it already is one, otherwise
/// resolved against the iCloud CalDAV origin.
pub open spec fn absolute_url(href: Seq<char>) -> Seq<char> {
    if starts_with(href, "http://"@) || starts_with(href, "https://"@) {
        href
    } else {
        ICLOUD_CALDAV_ORIGIN@ + href
    }
}

pub open spec fn header_views(h: Seq<(String, String)>) -> Seq<(Seq<char>, Seq<char>)> {
    h.map_values(|e: (String, String)| (e.0@, e.1@))
}

/// The headers of a request of the given depth.
pub open spec fn request_header_values(
    username: Seq<char>,
    password: Seq<char>,
    depth: Depth,
) -> Seq<(Seq<char>, Seq<char>)> {
    seq![
        ("authorization"@, basic_authorization(username, password)),
        ("content-type"@, XML_CONTENT_TYPE@),
        ("depth"@, depth_value(depth)),
    ]
}

/// The first index of a calendar in `cs` whose display name contains `name`.
pub open spec fn is_first_named(cs: Seq<CalendarRecord>, name: Seq<char>, i: int) -> bool {
    &&& 0 <= i < cs.len()
    &&& contains(cs[i].display_name, name)
    &&& forall|j: int| 0 <= j < i ==> !contains(#[trigger] cs[j].display_name, name)
}

/// A CalDAV client for one iCloud account. It remembers the principal and
/// the calendar home once they have been discovered.
pub struct ICloudCalendarClient {
    username: String,
    password: String,
    principal_url: Option<String>,
    calendar_home_url: Option<String>,
}

/// What a client holds, as plain values.
pub struct ClientView {
    pub username: Seq<char>,
    pub password: Seq<char>,
    pub principal_url: Option<Seq<char>>,
    pub calendar_home_url: Option<Seq<char>>,
}

impl View for ICloudCalendarClient {
    type V = ClientView;

    closed spec fn view(&self) -> ClientView {
        ClientView {
            username: self.username@,
            password: self.password@,
            principal_url: opt_string_view(self.principal_url),
            calendar_home_url: opt_string_view(self.calendar_home_url),
        }
    }
}

fn clone_string(s: &String) -> (r: String)
    ensures
        r@ == s@,
{
    s.clone()
}

fn request(method: CalDavMethod, url: String, depth: Depth, body: &str) -> (r: CalDavRequest)
    ensures
        is_request(r, method, url@, depth, body@),
{
    CalDavRequest { method, url, depth, body: String::from_str(body) }
}

impl ICloudCalendarClient {
    #[verifier::type_invariant]
    spec fn holds_encodable_credentials(self) -> bool {
        credentials_fit(self.username@, self.password@)
    }

    /// Whether the Basic credentials made of `username` and `password` can be
    /// base64-encoded in memory, as `new` requires.
    pub fn credentials_encodable(username: &str, password: &str) -> (r: bool)
        ensures
            r == credentials_fit(username@, password@),
    {
        let mut joined = String::from_str(username);
        joined.append(":");
        joined.append(password);
        let n = joined.as_str().as_bytes().len();
        assert(n == credential_bytes(username@, password@).len());
        match (n / 3).checked_mul(4) {
            None => false,
            Some(m) => {
                if n % 3 > 0 {
                    m.checked_add(4).is_some()
                } else {
                    true
                }
            },
        }
    }

    /// A client for the given account that has discovered nothing yet.
    pub fn new(username: String, password: String) -> (c: Self)
        requires
            credentials_fit(username@, password@),
        ensures
            c@.username == username@,
            c@.password == password@,
            c@.principal_url is None,
            c@.calendar_home_url is None,
    {
        ICloudCalendarClient { username, password, principal_url: None, calendar_home_url: None }
    }

    /// The principal's href, once discovered.
    pub fn principal_url(&self) -> (r: Option<String>)
        ensures
            opt_string_view(r) == self@.principal_url,
    {
        match &self.principal_url {
            Some(p) => Some(clone_string(p)),
            None => None,
        }
    }

    /// The calendar home's href, once discovered.
    pub fn calendar_home_url(&self) -> (r: Option<String>)
        ensures
            opt_string_view(r) == self@.calendar_home_url,
    {
        match &self.calendar_home_url {
            Some(h) => Some(clone_string(h)),
            None => None,
        }
    }

    /// The `Authorization` header value for HTTP Basic authentication with
    /// this client's credentials.
    pub fn get_auth_header(&self) -> (r: String)
        ensures
            r@ == basic_authorization(self@.username, self@.password),
    {
        proof {
            use_type_invariant(self);
        }
        let mut credentials = String::new();
        credentials.append(self.username.as_str());
        credentials.append(":");
        credentials.append(self.password.as_str());
        let encoded = base64_encode(credentials.as_str().as_bytes());
        basic_authorization_value(encoded.as_str())
    }

    /// `href` as an absolute URL: unchanged when it starts with `http://` or
    /// `https://`, otherwise appended to the iCloud CalDAV origin.
    pub fn build_url(&self, href: &str) -> (r: String)
        ensures
            r@ == absolute_url(href@),
    {
        let h = chars_of(href);
        let http = chars_of("http://");
        let https = chars_of("https://");
        if starts_with_chars(h.as_slice(), http.as_slice()) || starts_with_chars(
            h.as_slice(),
            https.as_slice(),
        ) {
            String::from_str(href)
        } else {
            let mut url = String::from_str(ICLOUD_CALDAV_ORIGIN);
            url.append(href);
            url
        }
    }

    /// The headers of a request of depth 0: Basic authorization, the XML
    /// content type and `Depth: 0`.
    pub fn get_headers(&self) -> (r: Vec<(String, String)>)
        ensures
            header_views(r@) == request_header_values(self@.username, self@.password, Depth::Zero),
    {
        self.headers_with_depth(Depth::Zero)
    }

    /// The headers of `req`: those of `get_headers` with the request's depth.
    pub fn request_headers(&self, req: &CalDavRequest) -> (r: Vec<(String, String)>)
        ensures
            header_views(r@) == request_header_values(self@.username, self@.password, req.depth),
    {
        self.headers_with_depth(req.depth)
    }

    fn headers_with_depth(&self, depth: Depth) -> (r: Vec<(String, String)>)
        ensures
            header_views(r@) == request_header_values(self@.username, self@.password, depth),
    {
        let auth = self.get_auth_header();
        let depth_text = match depth {
            Depth::Zero => String::from_str("0"),
            Depth::One => String::from_str("1"),
        };
        let r = vec![
            (String::from_str("authorization"), auth),
            (String::from_str("content-type"), String::from_str(XML_CONTENT_TYPE)),
            (String::from_str("depth"), depth_text),
        ];
        assert(header_views(r@) =~= request_header_values(
            self@.username,
            self@.password,
            depth,
        ));
        r
    }

    /// The request that discovers the current user's principal.
    pub fn principal_request(&self) -> (r: CalDavRequest)
        ensures
            is_request(
                r,
                CalDavMethod::Propfind,
                ICLOUD_CALDAV_ROOT@,
                Depth::Zero,
                PRINCIPAL_PROPFIND@,
            ),
    {
        request(
            CalDavMethod::Propfind,
            String::from_str(ICLOUD_CALDAV_ROOT),
            Depth::Zero,
            PRINCIPAL_PROPFIND,
        )
    }

    /// The request that discovers the calendar home of the known principal.
    pub fn calendar_home_request(&self) -> (r: Result<CalDavRequest, ClientError>)
        ensures
            match self@.principal_url {
                Some(p) => r matches Ok(req) && is_request(
                    req,
                    CalDavMethod::Propfind,
                    absolute_url(p),
                    Depth::Zero,
                    CALENDAR_HOME_PROPFIND@,
                ),
                None => r matches Err(ClientError::PrincipalNotSet),
            },
    {
        match &self.principal_url {
            Some(p) => Ok(
                request(
                    CalDavMethod::Propfind,
                    self.build_url(p.as_str()),
                    Depth::Zero,
                    CALENDAR_HOME_PROPFIND,
                ),
            ),
            None => Err(ClientError::PrincipalNotSet),
        }
    }

    /// The request that lists the collections of the known calendar home.
    pub fn calendar_list_request(&self) -> (r: Result<CalDavRequest, ClientError>)
        ensures
            match self@.calendar_home_url {
                Some(h) => r matches Ok(req) && is_request(
                    req,
                    CalDavMethod::Propfind,
                    absolute_url(h),
                    Depth::One,
                    CALENDAR_LIST_PROPFIND@,
                ),
                None => r matches Err(ClientError::CalendarHomeNotSet),
            },
    {
        match &self.calendar_home_url {
            Some(h) => Ok(
                request(
                    CalDavMethod::Propfind,
                    self.build_url(h.as_str()),
                    Depth::One,
                    CALENDAR_LIST_PROPFIND,
                ),
            ),
            None => Err(ClientError::CalendarHomeNotSet),
        }
    }

    /// The request that fetches every VEVENT of the calendar at `calendar_url`.
    pub fn calendar_events_request(&self, calendar_url: &str) -> (r: CalDavRequest)
        ensures
            is_request(
                r,
                CalDavMethod::Report,
                absolute_url(calendar_url@),
                Depth::One,
                CALENDAR_EVENTS_REPORT@,
            ),
    {
        request(
            CalDavMethod::Report,
            self.build_url(calendar_url),
            Depth::One,
            CALENDAR_EVENTS_REPORT,
        )
    }

    /// The discovery request still to be made before calendars can be
    /// listed: the principal first, then the calendar home; none once both
    /// are known.
    pub fn next_discovery_request(&self) -> (r: Option<CalDavRequest>)
        ensures
            match (self@.principal_url, self@.calendar_home_url) {
                (None, _) => r matches Some(req) && is_request(
                    req,
                    CalDavMethod::Propfind,
                    ICLOUD_CALDAV_ROOT@,
                    Depth::Zero,
                    PRINCIPAL_PROPFIND@,
                ),
                (Some(p), None) => r matches Some(req) && is_request(
                    req,
                    CalDavMethod::Propfind,
                    absolute_url(p),
                    Depth::Zero,
                    CALENDAR_HOME_PROPFIND@,
                ),
                (Some(_), Some(_)) => r is None,
            },
    {
        if self.principal_url.is_none() {
            Some(self.principal_request())
        } else if self.calendar_home_url.is_none() {
            match self.calendar_home_request() {
                Ok(req) => Some(req),
                Err(_) => None,
            }
        } else {
            None
        }
    }

    /// Takes in the answer to the principal request: on success the
    /// principal named in it becomes known.
    pub fn record_principal(&mut self, resp: &CalDavResponse) -> (r: Result<(), ClientError>)
        ensures
            final(self)@.username == old(self)@.username,
            final(self)@.password == old(self)@.password,
            final(self)@.calendar_home_url == old(self)@.calendar_home_url,
            !resp.success ==> (r matches Err(ClientError::DiscoverPrincipalFailed { status, body })
                && status@ == resp.status@ && body@ == resp.body@) && final(self)@.principal_url
                == old(self)@.principal_url,
            resp.success ==> match extracted_href(resp.body@, "current-user-principal"@) {
                Some(h) => r is Ok && final(self)@.principal_url == Some(h),
                None => r matches Err(ClientError::PrincipalNotFound) && final(self)@.principal_url == old(self)@.principal_url,
            },
    {
        proof {
            use_type_invariant(&*self);
        }
        if !resp.success {
            return Err(
                ClientError::DiscoverPrincipalFailed {
                    status: clone_string(&resp.status),
                    body: clone_string(&resp.body),
                },
            );
        }
        match self.extract_href(resp.body.as_str(), "current-user-principal") {
            Some(h) => {
                self.principal_url = Some(h);
                Ok(())
            },
            None => Err(ClientError::PrincipalNotFound),
        }
    }

    /// Takes in the answer to the calendar-home request: on success the
    /// calendar home named in it becomes known.
    pub fn record_calendar_home(&mut self, resp: &CalDavResponse) -> (r: Result<(), ClientError>)
        ensures
            final(self)@.username == old(self)@.username,
            final(self)@.password == old(self)@.password,
            final(self)@.principal_url == old(self)@.principal_url,
            !resp.success ==> (r matches Err(
                ClientError::DiscoverCalendarHomeFailed { status, body },
            ) && status@ == resp.status@ && body@ == resp.body@) && final(self)@.calendar_home_url
                == old(self)@.calendar_home_url,
            resp.success ==> match extracted_href(resp.body@, "calendar-home-set"@) {
                Some(h) => r is Ok && final(self)@.calendar_home_url == Some(h),
                None => r matches Err(ClientError::CalendarHomeNotFound) && final(self)@.calendar_home_url == old(self)@.calendar_home_url,
            },
    {
        proof {
            use_type_invariant(&*self);
        }
        if !resp.success {
            return Err(
                ClientError::DiscoverCalendarHomeFailed {
                    status: clone_string(&resp.status),
                    body: clone_string(&resp.body),
                },
            );
        }
        match self.extract_href(resp.body.as_str(), "calendar-home-set") {
            Some(h) => {
                self.calendar_home_url = Some(h);
                Ok(())
            },
            None => Err(ClientError::CalendarHomeNotFound),
        }
    }

    /// Takes in the answer to the request that `next_discovery_request`
    /// gave: the principal's while it is unknown, else the calendar home's.
    pub fn record_discovery(&mut self, resp: &CalDavResponse) -> (r: Result<(), ClientError>)
        requires
            old(self)@.principal_url is None || old(self)@.calendar_home_url is None,
        ensures
            final(self)@.username == old(self)@.username,
            final(self)@.password == old(self)@.password,
            old(self)@.principal_url is None ==> {
                &&& final(self)@.calendar_home_url == old(self)@.calendar_home_url
                &&& !resp.success ==> (r matches Err(ClientError::DiscoverPrincipalFailed { status, body })
                    && status@ == resp.status@ && body@ == resp.body@ && final(self)@.principal_url is None)
                &&& resp.success ==> match extracted_href(resp.body@, "current-user-principal"@) {
                    Some(h) => r is Ok && final(self)@.principal_url == Some(h),
                    None => (r matches Err(ClientError::PrincipalNotFound)) && final(self)@.principal_url is None,
                }
            },
            old(self)@.principal_url is Some ==> {
                &&& final(self)@.principal_url == old(self)@.principal_url
                &&& !resp.success ==> (r matches Err(ClientError::DiscoverCalendarHomeFailed { status, body })
                    && status@ == resp.status@ && body@ == resp.body@ && final(self)@.calendar_home_url is None)
                &&& resp.success ==> match extracted_href(resp.body@, "calendar-home-set"@) {
                    Some(h) => r is Ok && final(self)@.calendar_home_url == Some(h),
                    None => (r matches Err(ClientError::CalendarHomeNotFound)) && final(self)@.calendar_home_url is None,
                }
            },
    {
        if self.principal_url.is_none() {
            self.record_principal(resp)
        } else {
            self.record_calendar_home(resp)
        }
    }

    /// The calendars listed in the answer to the calendar-list request.
    pub fn calendars_from_response(&self, resp: &CalDavResponse) -> (r: Result<
        Vec<CalendarInfo>,
        ClientError,
    >)
        ensures
            !resp.success ==> (r matches Err(ClientError::ListCalendarsFailed { status, body })
                && status@ == resp.status@ && body@ == resp.body@),
            resp.success ==> (r matches Ok(cs) && calendar_views(cs@) == parsed_calendars(
                resp.body@,
            )),
    {
        if !resp.success {
            return Err(
                ClientError::ListCalendarsFailed {
                    status: clone_string(&resp.status),
                    body: clone_string(&resp.body),
                },
            );
        }
        Ok(self.parse_calendars(resp.body.as_str()))
    }

    /// The first calendar whose display name contains `name`.
    pub fn find_calendar(calendars: &Vec<CalendarInfo>, name: &str) -> (r: Result<
        CalendarInfo,
        ClientError,
    >)
        ensures
            match r {
                Ok(c) => exists|i: int|
                    is_first_named(calendar_views(calendars@), name@, i) && c@
                        == calendars@[i]@,
                Err(e) => (e matches ClientError::CalendarNotFound { name: n } && n@ == name@)
                    && forall|j: int|
                    0 <= j < calendars@.len() ==> !contains(
                        #[trigger] calendars@[j].display_name@,
                        name@,
                    ),
            },
    {
        let wanted = chars_of(name);
        let mut i: usize = 0;
        while i < calendars.len()
            invariant
                wanted@ == name@,
                i <= calendars@.len(),
                forall|j: int|
                    0 <= j < i ==> !contains(#[trigger] calendars@[j].display_name@, name@),
            decreases calendars@.len() - i,
        {
            let c = &calendars[i];
            let dn = chars_of(c.display_name.as_str());
            if contains_chars(dn.as_slice(), wanted.as_slice()) {
                let found = CalendarInfo {
                    url: clone_string(&c.url),
                    display_name: clone_string(&c.display_name),
                };
                assert(is_first_named(calendar_views(calendars@), name@, i as int));
                return Ok(found);
            }
            i = i + 1;
        }
        Err(ClientError::CalendarNotFound { name: String::from_str(name) })
    }

    /// The body of the answer to a calendar-events request, when it succeeded.
    pub fn events_from_response(resp: CalDavResponse) -> (r: Result<String, ClientError>)
        ensures
            !resp.success ==> (r matches Err(ClientError::GetCalendarEventsFailed { status, body })
                && status@ == resp.status@ && body@ == resp.body@),
            resp.success ==> (r matches Ok(b) && b@ == resp.body@),
    {
        if !resp.success {
            return Err(ClientError::GetCalendarEventsFailed { status: resp.status, body: resp.body });
        }
        Ok(resp.body)
    }

    /// The iCalendar document served for `calendar`: every VEVENT of the
    /// calendar-events response in one VCALENDAR named after the calendar.
    /// A calendar without events gives the same document with no VEVENT.
    pub fn calendar_ical(&self, calendar: &CalendarInfo, xml: &str) -> (r: String)
        ensures
            r@ == combined_calendar(calendar_prodid(), calendar.display_name@, extracted_events(xml@)),
    {
        let events = self.extract_ical_events(xml);
        if events.len() == 0 {
            let r = empty_calendar_ical(calendar.display_name.as_str());
            assert(string_views(events@) =~= Seq::<Seq<char>>::empty());
            r
        } else {
            self.combine_ical_events(events, calendar.display_name.as_str())
        }
    }
}

/// The `Authorization` value for already encoded credentials.
pub fn basic_authorization_value(encoded: &str) -> (r: String)
    ensures
        r@ == "Basic "@ + encoded@,
{
    let mut header = String::from_str("Basic ");
    header.append(encoded);
    header
}

/// The iCalendar document of a calendar without events.
pub fn empty_calendar_ical(calendar_name: &str) -> (r: String)
    ensures
        r@ == combined_calendar(calendar_prodid(), calendar_name@, Seq::<Seq<char>>::empty()),
{
    let mut r = String::from_str(
        "BEGIN:VCALENDAR\r\nVERSION:2.0\r\nPRODID:-//iCloud Calendar Export//EN\r\nCALSCALE:GREGORIAN\r\nX-WR-CALNAME:",
    );
    r.append(calendar_name);
    r.append("\r\nX-WR-TIMEZONE:UTC\r\nEND:VCALENDAR\r\n");
    proof {
        reveal_strlit(
            "BEGIN:VCALENDAR\r\nVERSION:2.0\r\nPRODID:-//iCloud Calendar Export//EN\r\nCALSCALE:GREGORIAN\r\nX-WR-CALNAME:",
        );
        reveal_strlit("\r\nX-WR-TIMEZONE:UTC\r\nEND:VCALENDAR\r\n");
        reveal_strlit("BEGIN:VCALENDAR\r\n");
        reveal_strlit("VERSION:2.0\r\n");
        reveal_strlit("PRODID:");
        reveal_strlit("-//iCloud Calendar Export//EN");
        reveal_strlit("\r\n");
        reveal_strlit("CALSCALE:GREGORIAN\r\n");
        reveal_strlit("X-WR-CALNAME:");
        reveal_strlit("X-WR-TIMEZONE:UTC\r\n");
        reveal_strlit("END:VCALENDAR\r\n");
        assert(r@ =~= combined_calendar(
            calendar_prodid(),
            calendar_name@,
            Seq::<Seq<char>>::empty(),
        ));
    }
    r
}

} // verus!
