//! The decisions of the REST front end: its configuration defaults, who may
//! use the protected endpoints, and what its calendar endpoints answer.
use vstd::prelude::*;
use vstd::utf8::{decode_utf8, encode_utf8, valid_utf8};
use crate::caldav::CalendarInfo;
use crate::external::{
    base64_decode, base64_standard_decoding, percent_decoding, url_decode, utf8_to_string,
};
use crate::text::{
    chars_of, find_chars, find_from, lemma_find_from, same_chars, starts_with, starts_with_chars,
    substring,
};

verus! {

/// The address the server binds to unless configured otherwise.
pub fn default_host() -> (r: String)
    ensures
        r@ == "127.0.0.1"@,
{
    String::from_str("127.0.0.1")
}

/// The port the server listens on unless configured otherwise.
pub fn default_port() -> (r: u16)
    ensures
        r == 8888,
{
    8888
}

/// The Stalwart server asked to check credentials unless configured otherwise.
pub fn default_stalwart_url() -> (r: String)
    ensures
        r@ == "http://localhost:8080"@,
{
    String::from_str("http://localhost:8080")
}

/// How credentials are checked unless configured otherwise.
pub fn default_auth_method() -> (r: String)
    ensures
        r@ == "jmap"@,
{
    String::from_str("jmap")
}

/// Whether, and against which Stalwart server, API users are authenticated.
#[derive(Debug)]
pub struct StalwartConfig {
    pub enabled: bool,
    pub server_url: String,
    pub auth_method: String,
}

impl Default for StalwartConfig {
    /// Authentication off, against the default Stalwart URL with JMAP.
    fn default() -> (r: Self)
        ensures
            !r.enabled,
            r.server_url@ == "http://localhost:8080"@,
            r.auth_method@ == "jmap"@,
    {
        StalwartConfig {
            enabled: false,
            server_url: default_stalwart_url(),
            auth_method: default_auth_method(),
        }
    }
}

/// How a pair of credentials is to be checked.
#[derive(Debug)]
pub enum CredentialCheck {
    /// Authentication is off: everyone is let in.
    AllowWithoutCheck,
    /// Ask Stalwart's JMAP endpoint at `url` with HTTP Basic authentication;
    /// `imap_fallback` says that IMAP was configured and JMAP is used instead.
    QueryJmap { url: String, imap_fallback: bool },
    /// The configured method is unknown: the credentials are refused.
    UnknownMethod,
}

/// How credentials are checked under `config`.
pub fn stalwart_credential_check(config: &StalwartConfig) -> (r: CredentialCheck)
    ensures
        !config.enabled ==> r is AllowWithoutCheck,
        config.enabled && config.auth_method@ == "jmap"@ ==> (r matches CredentialCheck::QueryJmap {
            url,
            imap_fallback,
        } && url@ == config.server_url@ + "/.well-known/jmap"@ && !imap_fallback),
        config.enabled && config.auth_method@ == "imap"@ ==> (r matches CredentialCheck::QueryJmap {
            url,
            imap_fallback,
        } && url@ == config.server_url@ + "/.well-known/jmap"@ && imap_fallback),
        config.enabled && config.auth_method@ != "jmap"@ && config.auth_method@ != "imap"@
            ==> r is UnknownMethod,
{
    if !config.enabled {
        return CredentialCheck::AllowWithoutCheck;
    }
    proof {
        reveal_strlit("jmap");
        reveal_strlit("imap");
        assert("jmap"@[0] != "imap"@[0]);
    }
    let method = chars_of(config.auth_method.as_str());
    let jmap = chars_of("jmap");
    let imap = chars_of("imap");
    if same_chars(method.as_slice(), jmap.as_slice()) || same_chars(
        method.as_slice(),
        imap.as_slice(),
    ) {
        let imap_fallback = same_chars(method.as_slice(), imap.as_slice());
        let mut url = config.server_url.clone();
        url.append("/.well-known/jmap");
        CredentialCheck::QueryJmap { url, imap_fallback }
    } else {
        CredentialCheck::UnknownMethod
    }
}

/// The user name and password in decoded Basic credentials: the text up to
/// the first `:` and the text after it.
pub open spec fn split_at_colon(d: Seq<char>) -> Option<(Seq<char>, Seq<char>)> {
    match find_from(d, seq![':'], 0) {
        Some(i) => Some((d.take(i), d.skip(i + 1))),
        None => None,
    }
}

/// The credentials that decoded Basic bytes carry, if they are UTF-8 text
/// holding a `:`.
pub open spec fn credentials_in(b: Seq<u8>) -> Option<(Seq<char>, Seq<char>)> {
    if valid_utf8(b) {
        split_at_colon(decode_utf8(b))
    } else {
        None
    }
}

/// The credentials in an `Authorization` header value of the Basic scheme.
pub open spec fn basic_credentials(h: Seq<char>) -> Option<(Seq<char>, Seq<char>)> {
    if starts_with(h, "Basic "@) {
        match base64_standard_decoding(encode_utf8(h.skip("Basic "@.len() as int))) {
            Some(b) => credentials_in(b),
            None => None,
        }
    } else {
        None
    }
}

pub open spec fn pair_view(p: Option<(String, String)>) -> Option<(Seq<char>, Seq<char>)> {
    match p {
        Some((u, w)) => Some((u@, w@)),
        None => None,
    }
}

/// The credentials carried by decoded Basic bytes.
pub fn credentials_from_decoded(decoded: Vec<u8>) -> (r: Option<(String, String)>)
    ensures
        pair_view(r) == credentials_in(decoded@),
{
    let ghost bytes = decoded@;
    match utf8_to_string(decoded) {
        None => None,
        Some(text) => {
            let c = chars_of(text.as_str());
            let colon = vec![':'];
            assert(colon@ =~= seq![':']);
            proof {
                lemma_find_from(c@, colon@, 0);
            }
            match find_chars(c.as_slice(), colon.as_slice(), 0) {
                None => None,
                Some(i) => {
                    let n = c.len();
                    assert(colon@.len() == 1);
                    assert(i + colon@.len() <= c@.len());
                    let user = substring(text.as_str(), 0, i);
                    let password = substring(text.as_str(), i + 1, n);
                    assert(user@ =~= c@.take(i as int));
                    assert(password@ =~= c@.skip(i + 1));
                    Some((user, password))
                },
            }
        },
    }
}

/// The user name and password in an `Authorization` header value of the
/// Basic scheme; `None` when the value is not one.
pub fn parse_basic_credentials(authorization: &str) -> (r: Option<(String, String)>)
    ensures
        pair_view(r) == basic_credentials(authorization@),
{
    let h = chars_of(authorization);
    let prefix = chars_of("Basic ");
    if !starts_with_chars(h.as_slice(), prefix.as_slice()) {
        return None;
    }
    proof {
        reveal_strlit("Basic ");
    }
    let encoded = authorization.substring_char(6, h.len());
    assert(encoded@ =~= authorization@.skip("Basic "@.len() as int));
    match base64_decode(encoded.as_bytes()) {
        None => None,
        Some(bytes) => credentials_from_decoded(bytes),
    }
}

/// What is done with a request to a protected endpoint.
#[derive(Debug)]
pub enum AuthDecision {
    /// Serve it.
    Proceed,
    /// Serve it if Stalwart accepts these credentials.
    Verify { username: String, password: String },
    /// Answer 401 with a Basic challenge.
    Reject,
}

/// What is done with a request to a protected endpoint, given its
/// `Authorization` header value (when it has one that is visible ASCII).
pub fn authorize_request(config: &StalwartConfig, authorization: Option<&str>) -> (r: AuthDecision)
    ensures
        !config.enabled ==> r is Proceed,
        config.enabled ==> match authorization {
            None => r is Reject,
            Some(h) => match basic_credentials(h@) {
                Some((u, p)) => r matches AuthDecision::Verify { username, password }
                    && username@ == u && password@ == p,
                None => r is Reject,
            },
        },
{
    if !config.enabled {
        return AuthDecision::Proceed;
    }
    match authorization {
        None => AuthDecision::Reject,
        Some(h) => match parse_basic_credentials(h) {
            Some((username, password)) => AuthDecision::Verify { username, password },
            None => AuthDecision::Reject,
        },
    }
}

/// The body of the answer to a request whose credentials were refused.
pub const AUTH_REQUIRED_MESSAGE: &'static str = "Authentication required";

/// The challenge sent with a refusal.
pub const BASIC_CHALLENGE: &'static str = "Basic realm=\"iCloud Calendar API\"";

/// The error message when the credential check itself failed.
pub const AUTH_SERVICE_ERROR_MESSAGE: &'static str = "Authentication service error";

/// What a protected endpoint does once the credentials have been checked.
#[derive(Debug, Clone, Copy, PartialEq, Eq, Structural)]
pub enum AccessOutcome {
    /// Serve the request.
    Serve,
    /// Answer 401 with the Basic challenge and `AUTH_REQUIRED_MESSAGE`.
    Challenge,
    /// Answer 500 with `AUTH_SERVICE_ERROR_MESSAGE`.
    ServiceError,
}

/// What is done with a request whose credentials were checked: `validated`
/// is the answer of the check, `Ok(true)` for accepted credentials,
/// `Ok(false)` for refused ones and `Err` when the check could not be made.
pub fn access_after_validation<E>(validated: &Result<bool, E>) -> (r: AccessOutcome)
    ensures
        validated matches Ok(true) ==> r == AccessOutcome::Serve,
        validated matches Ok(false) ==> r == AccessOutcome::Challenge,
        validated is Err ==> r == AccessOutcome::ServiceError,
{
    match validated {
        Ok(true) => AccessOutcome::Serve,
        Ok(false) => AccessOutcome::Challenge,
        Err(_) => AccessOutcome::ServiceError,
    }
}

// ---------------------------------------------------------------------------
// the answers of the calendar endpoints
// ---------------------------------------------------------------------------

/// A calendar as the list endpoint presents it: its name and its href.
#[derive(Debug)]
pub struct CalendarEntry {
    pub display_name: String,
    pub url: String,
}

/// The answer of the list endpoint.
#[derive(Debug)]
pub struct CalendarListResponse {
    pub calendars: Vec<CalendarEntry>,
    pub count: usize,
}

/// The answer of the list endpoint for `calendars`: one entry per calendar,
/// in order, carrying its display name and href, and their number.
pub fn calendar_list_response(calendars: Vec<CalendarInfo>) -> (r: CalendarListResponse)
    ensures
        r.count == calendars@.len(),
        r.calendars@.len() == calendars@.len(),
        forall|i: int|
            0 <= i < calendars@.len() ==> {
                &&& (#[trigger] r.calendars@[i]).display_name@ == calendars@[i].display_name@
                &&& r.calendars@[i].url@ == calendars@[i].url@
            },
{
    let mut entries: Vec<CalendarEntry> = Vec::new();
    let mut i: usize = 0;
    while i < calendars.len()
        invariant
            i <= calendars@.len(),
            entries@.len() == i,
            forall|j: int|
                0 <= j < i ==> {
                    &&& (#[trigger] entries@[j]).display_name@ == calendars@[j].display_name@
                    &&& entries@[j].url@ == calendars@[j].url@
                },
        decreases calendars@.len() - i,
    {
        let c = &calendars[i];
        entries.push(CalendarEntry { display_name: c.display_name.clone(), url: c.url.clone() });
        i = i + 1;
    }
    let count = entries.len();
    CalendarListResponse { calendars: entries, count }
}

/// The calendar name in a request path, percent-decoded; `None` when the
/// decoded bytes are not UTF-8.
pub fn decode_calendar_name(name: &str) -> (r: Option<String>)
    ensures
        match r {
            Some(d) => percent_decoding(name@) == Some(d@),
            None => percent_decoding(name@) is None,
        },
{
    url_decode(name)
}

/// The `Content-Disposition` of a served calendar: an attachment named
/// after the requested calendar, with the `.ics` extension.
pub fn calendar_disposition(name: &str) -> (r: String)
    ensures
        r@ == "attachment; filename=\""@ + name@ + ".ics\""@,
{
    let mut r = String::from_str("attachment; filename=\"");
    r.append(name);
    r.append(".ics\"");
    r
}

} // verus!
