//! Reading CalDAV (WebDAV XML) responses from iCloud: hrefs, calendar
//! collections and embedded iCalendar data, and assembling the exported
//! iCalendar document.
use vstd::prelude::*;
use crate::client::ICloudCalendarClient;
use crate::text::{
    chars_of, contains, contains_chars, ends_with, ends_with_chars, find_chars, find_from,
    lemma_find_from, lemma_rfind_upto, starts_with_chars, replace_all, replace_text, rfind,
    rfind_chars, same_chars, starts_with, substring, trim, trim_bounds, views,
};

verus! {

/// A calendar collection on the server: its href and its display name.
#[derive(Debug, Clone)]
pub struct CalendarInfo {
    pub url: String,
    pub display_name: String,
}

/// A calendar collection as plain values.
pub struct CalendarRecord {
    pub url: Seq<char>,
    pub display_name: Seq<char>,
}

impl View for CalendarInfo {
    type V = CalendarRecord;

    open spec fn view(&self) -> CalendarRecord {
        CalendarRecord { url: self.url@, display_name: self.display_name@ }
    }
}

pub open spec fn calendar_views(v: Seq<CalendarInfo>) -> Seq<CalendarRecord> {
    v.map_values(|c: CalendarInfo| c@)
}

pub open spec fn string_views(v: Seq<String>) -> Seq<Seq<char>> {
    v.map_values(|s: String| s@)
}

// ---------------------------------------------------------------------------
// hrefs in discovery responses
// ---------------------------------------------------------------------------

/// The opening `href` tags that a discovery response is searched for, in order.
pub open spec fn href_start_patterns() -> Seq<Seq<char>> {
    seq!["<d:href>"@, "<D:href>"@, "<href>"@, "<href "@, "<HREF>"@, "<HREF "@]
}

/// The closing `href` tags, in the order in which they are tried.
pub open spec fn href_end_patterns() -> Seq<Seq<char>> {
    seq!["</d:href>"@, "</D:href>"@, "</href>"@, "</HREF>"@]
}

/// An opening-tag pattern that ends in a space stands for a tag with
/// attributes; its content begins after the next `>`.
pub open spec fn opens_with_attributes(sp: Seq<char>) -> bool {
    sp.len() > 0 && sp.last() == ' '
}

/// Where the content of an element begins, given the index just after its
/// opening-tag pattern `sp`.
pub open spec fn content_start(s: Seq<char>, sp: Seq<char>, after: int) -> Option<int> {
    if opens_with_attributes(sp) {
        match find_from(s, seq!['>'], after) {
            Some(c) => Some(c + 1),
            None => None,
        }
    } else {
        Some(after)
    }
}

/// The first non-empty trimmed content that ends at one of the closing tags
/// `ends` (tried in order), the content starting at `cs`.
pub open spec fn href_in_ends(s: Seq<char>, cs: int, ends: Seq<Seq<char>>) -> Option<Seq<char>>
    decreases ends.len(),
{
    if ends.len() == 0 {
        None
    } else {
        match find_from(s, ends[0], cs) {
            Some(e) => {
                let h = trim(s.subrange(cs, e));
                if h.len() > 0 {
                    Some(h)
                } else {
                    href_in_ends(s, cs, ends.drop_first())
                }
            },
            None => href_in_ends(s, cs, ends.drop_first()),
        }
    }
}

/// The href found by trying the opening tags `starts` in order, each at its
/// first occurrence at or after `from`.
pub open spec fn href_in_starts(
    s: Seq<char>,
    from: int,
    starts: Seq<Seq<char>>,
    ends: Seq<Seq<char>>,
) -> Option<Seq<char>>
    decreases starts.len(),
{
    if starts.len() == 0 {
        None
    } else {
        let rest = href_in_starts(s, from, starts.drop_first(), ends);
        match find_from(s, starts[0], from) {
            None => rest,
            Some(st) => match content_start(s, starts[0], st + starts[0].len()) {
                None => rest,
                Some(cs) => match href_in_ends(s, cs, ends) {
                    Some(h) => Some(h),
                    None => rest,
                },
            },
        }
    }
}

/// Where the href search begins: just at the property named by `context`
/// when the context is one of the two discovery properties and it occurs.
pub open spec fn href_search_start(xml: Seq<char>, context: Seq<char>) -> int {
    if context == "current-user-principal"@ {
        match find_from(xml, "current-user-principal"@, 0) {
            Some(i) => i,
            None => 0,
        }
    } else if context == "calendar-home-set"@ {
        match find_from(xml, "calendar-home-set"@, 0) {
            Some(i) => i,
            None => 0,
        }
    } else {
        0
    }
}

/// The href that a discovery response gives for the property `context`.
pub open spec fn extracted_href(xml: Seq<char>, context: Seq<char>) -> Option<Seq<char>> {
    href_in_starts(
        xml,
        href_search_start(xml, context),
        href_start_patterns(),
        href_end_patterns(),
    )
}

pub open spec fn opt_string_view(o: Option<String>) -> Option<Seq<char>> {
    match o {
        Some(s) => Some(s@),
        None => None,
    }
}

fn opens_with_attributes_exec(sp: &[char]) -> (r: bool)
    ensures
        r == opens_with_attributes(sp@),
{
    sp.len() > 0 && sp[sp.len() - 1] == ' '
}

/// `content_start`, computed.
fn content_start_exec(s: &[char], sp: &[char], after: usize) -> (r: Option<usize>)
    requires
        after <= s@.len(),
    ensures
        match r {
            Some(c) => content_start(s@, sp@, after as int) == Some(c as int) && after <= c
                <= s@.len(),
            None => content_start(s@, sp@, after as int) is None,
        },
{
    let n = s.len();
    assert(n == s@.len());
    if opens_with_attributes_exec(sp) {
        let close = vec!['>'];
        assert(close@ =~= seq!['>']);
        proof {
            lemma_find_from(s@, close@, after as int);
        }
        match find_chars(s, close.as_slice(), after) {
            Some(c) => Some(c + 1),
            None => None,
        }
    } else {
        Some(after)
    }
}

fn href_in_ends_exec(text: &str, s: &[char], cs: usize, ends: &Vec<Vec<char>>) -> (r: Option<
    String,
>)
    requires
        s@ == text@,
        cs <= s@.len(),
    ensures
        opt_string_view(r) == href_in_ends(s@, cs as int, views(ends@)),
{
    let ghost all = views(ends@);
    assert(all.skip(0) =~= all);
    let mut k: usize = 0;
    while k < ends.len()
        invariant
            s@ == text@,
            cs <= s@.len(),
            all == views(ends@),
            k <= ends@.len(),
            href_in_ends(s@, cs as int, all) == href_in_ends(s@, cs as int, all.skip(k as int)),
        decreases ends@.len() - k,
    {
        assert(all.skip(k as int)[0] == ends@[k as int]@);
        assert(all.skip(k as int).drop_first() =~= all.skip(k + 1));
        proof {
            lemma_find_from(s@, ends@[k as int]@, cs as int);
        }
        match find_chars(s, ends[k].as_slice(), cs) {
            Some(e) => {
                let (b0, b1) = trim_bounds(s, cs, e);
                if b1 > b0 {
                    return Some(substring(text, b0, b1));
                }
            },
            None => {},
        }
        k = k + 1;
    }
    None
}

fn href_in_starts_exec(
    text: &str,
    s: &[char],
    from: usize,
    starts: &Vec<Vec<char>>,
    ends: &Vec<Vec<char>>,
) -> (r: Option<String>)
    requires
        s@ == text@,
        from <= s@.len(),
    ensures
        opt_string_view(r) == href_in_starts(s@, from as int, views(starts@), views(ends@)),
{
    let ghost all = views(starts@);
    assert(all.skip(0) =~= all);
    let mut k: usize = 0;
    while k < starts.len()
        invariant
            s@ == text@,
            from <= s@.len(),
            all == views(starts@),
            k <= starts@.len(),
            href_in_starts(s@, from as int, all, views(ends@)) == href_in_starts(
                s@,
                from as int,
                all.skip(k as int),
                views(ends@),
            ),
        decreases starts@.len() - k,
    {
        assert(all.skip(k as int)[0] == starts@[k as int]@);
        assert(all.skip(k as int).drop_first() =~= all.skip(k + 1));
        let sp = starts[k].as_slice();
        proof {
            lemma_find_from(s@, sp@, from as int);
        }
        match find_chars(s, sp, from) {
            Some(st) => {
                assert(st + sp@.len() <= s@.len());
                assert(s@.len() == s.len());
                assert(sp@.len() == sp.len());
                match content_start_exec(s, sp, st + sp.len()) {
                    Some(cs) => {
                        match href_in_ends_exec(text, s, cs, ends) {
                            Some(h) => {
                                return Some(h);
                            },
                            None => {},
                        }
                    },
                    None => {},
                }
            },
            None => {},
        }
        k = k + 1;
    }
    None
}

fn href_start_pattern_vec() -> (v: Vec<Vec<char>>)
    ensures
        views(v@) == href_start_patterns(),
{
    let v = vec![
        chars_of("<d:href>"),
        chars_of("<D:href>"),
        chars_of("<href>"),
        chars_of("<href "),
        chars_of("<HREF>"),
        chars_of("<HREF "),
    ];
    assert(views(v@) =~= href_start_patterns());
    v
}

fn href_end_pattern_vec() -> (v: Vec<Vec<char>>)
    ensures
        views(v@) == href_end_patterns(),
{
    let v = vec![
        chars_of("</d:href>"),
        chars_of("</D:href>"),
        chars_of("</href>"),
        chars_of("</HREF>"),
    ];
    assert(views(v@) =~= href_end_patterns());
    v
}

impl ICloudCalendarClient {
    /// The href of the property `context` ("current-user-principal" or
    /// "calendar-home-set") in a PROPFIND response: the first non-empty,
    /// trimmed content of an `href` element found after the property's name.
    pub fn extract_href(&self, xml: &str, context: &str) -> (r: Option<String>)
        ensures
            opt_string_view(r) == extracted_href(xml@, context@),
    {
        let s = chars_of(xml);
        let ctx = chars_of(context);
        let principal_key = chars_of("current-user-principal");
        let home_key = chars_of("calendar-home-set");
        let search_start: usize = if same_chars(ctx.as_slice(), principal_key.as_slice()) {
            proof {
                lemma_find_from(s@, principal_key@, 0);
            }
            match find_chars(s.as_slice(), principal_key.as_slice(), 0) {
                Some(i) => i,
                None => 0,
            }
        } else if same_chars(ctx.as_slice(), home_key.as_slice()) {
            proof {
                lemma_find_from(s@, home_key@, 0);
            }
            match find_chars(s.as_slice(), home_key.as_slice(), 0) {
                Some(i) => i,
                None => 0,
            }
        } else {
            0
        };
        assert(search_start == href_search_start(xml@, context@));
        let starts = href_start_pattern_vec();
        let ends = href_end_pattern_vec();
        href_in_starts_exec(xml, s.as_slice(), search_start, &starts, &ends)
    }
}

// ---------------------------------------------------------------------------
// calendar collections in a PROPFIND (Depth: 1) response
// ---------------------------------------------------------------------------

/// The pieces of `s[start..]` between the occurrences of `pat`, as
/// `str::split` gives them.
pub open spec fn split_from(s: Seq<char>, pat: Seq<char>, start: int) -> Seq<Seq<char>>
    decreases s.len() - start,
{
    if pat.len() == 0 || start < 0 || start > s.len() {
        seq![]
    } else {
        match find_from(s, pat, start) {
            None => seq![s.subrange(start, s.len() as int)],
            Some(i) => {
                proof {
                    lemma_find_from(s, pat, start);
                }
                seq![s.subrange(start, i)] + split_from(s, pat, i + pat.len())
            },
        }
    }
}

/// `s` split at every occurrence of `pat`.
pub open spec fn split(s: Seq<char>, pat: Seq<char>) -> Seq<Seq<char>> {
    split_from(s, pat, 0)
}

/// The trimmed content of the first element of a `<response>` that opens
/// with `sp` and closes with `ep`.
pub open spec fn element_in(r: Seq<char>, sp: Seq<char>, ep: Seq<char>) -> Option<Seq<char>> {
    match find_from(r, sp, 0) {
        None => None,
        Some(st) => match content_start(r, sp, st + sp.len()) {
            None => None,
            Some(cs) => match find_from(r, ep, cs) {
                None => None,
                Some(e) => Some(trim(r.subrange(cs, e))),
            },
        },
    }
}

/// The content found by trying the tag pairs `(starts[k], ends[k])` in
/// order; empty when none of them is found.
pub open spec fn element_text(r: Seq<char>, starts: Seq<Seq<char>>, ends: Seq<Seq<char>>) -> Seq<
    char,
>
    decreases starts.len(),
{
    if starts.len() == 0 || ends.len() == 0 {
        seq![]
    } else {
        match element_in(r, starts[0], ends[0]) {
            Some(t) => t,
            None => element_text(r, starts.drop_first(), ends.drop_first()),
        }
    }
}

pub open spec fn response_href_starts() -> Seq<Seq<char>> {
    seq!["<href>"@, "<href "@, "<d:href>"@, "<d:href "@]
}

pub open spec fn response_href_ends() -> Seq<Seq<char>> {
    seq!["</href>"@, "</href>"@, "</d:href>"@, "</d:href>"@]
}

pub open spec fn displayname_starts() -> Seq<Seq<char>> {
    seq!["<displayname>"@, "<displayname "@, "<d:displayname>"@, "<d:displayname "@]
}

pub open spec fn displayname_ends() -> Seq<Seq<char>> {
    seq!["</displayname>"@, "</displayname>"@, "</d:displayname>"@, "</d:displayname>"@]
}

/// The collections that are never listed: the scheduling inbox and outbox,
/// the notification collection and the calendar home itself.
pub open spec fn skipped_collection(url: Seq<char>) -> bool {
    ||| ends_with(url, "/inbox/"@)
    ||| ends_with(url, "/outbox/"@)
    ||| ends_with(url, "/notification/"@)
    ||| ends_with(url, "/calendars/"@)
}

/// The calendar that one `<response` piece describes, if it describes one.
pub open spec fn calendar_in_response(r: Seq<char>) -> Option<CalendarRecord> {
    if !contains(r, "<calendar"@) && !contains(r, "<c:calendar"@) {
        None
    } else {
        let url = element_text(r, response_href_starts(), response_href_ends());
        let name = element_text(r, displayname_starts(), displayname_ends());
        if url.len() > 0 && ends_with(url, seq!['/']) && !skipped_collection(url) {
            Some(
                CalendarRecord {
                    url,
                    display_name: if name.len() == 0 {
                        "Unnamed Calendar"@
                    } else {
                        name
                    },
                },
            )
        } else {
            None
        }
    }
}

/// The calendars described by the pieces `rs`, in order.
pub open spec fn calendars_in(rs: Seq<Seq<char>>) -> Seq<CalendarRecord>
    decreases rs.len(),
{
    if rs.len() == 0 {
        seq![]
    } else {
        match calendar_in_response(rs[0]) {
            Some(c) => seq![c] + calendars_in(rs.drop_first()),
            None => calendars_in(rs.drop_first()),
        }
    }
}

/// The calendars that a calendar-home PROPFIND response lists: one per
/// `<response` element that describes a calendar collection.
pub open spec fn parsed_calendars(xml: Seq<char>) -> Seq<CalendarRecord> {
    calendars_in(split(xml, "<response"@).drop_first())
}

/// A listed calendar has a collection href (ending in `/`) that is not one
/// of the skipped collections, and a non-empty name.
pub open spec fn well_formed_calendar(c: CalendarRecord) -> bool {
    &&& c.url.len() > 0
    &&& ends_with(c.url, seq!['/'])
    &&& !skipped_collection(c.url)
    &&& c.display_name.len() > 0
}

fn element_text_exec(
    text: &str,
    s: &[char],
    starts: &Vec<Vec<char>>,
    ends: &Vec<Vec<char>>,
) -> (r: String)
    requires
        s@ == text@,
        starts@.len() == ends@.len(),
    ensures
        r@ == element_text(s@, views(starts@), views(ends@)),
{
    let ghost all_s = views(starts@);
    let ghost all_e = views(ends@);
    assert(all_s.skip(0) =~= all_s);
    assert(all_e.skip(0) =~= all_e);
    let n = s.len();
    assert(n == s@.len());
    let mut k: usize = 0;
    while k < starts.len()
        invariant
            s@ == text@,
            n == s@.len(),
            starts@.len() == ends@.len(),
            all_s == views(starts@),
            all_e == views(ends@),
            k <= starts@.len(),
            element_text(s@, all_s, all_e) == element_text(
                s@,
                all_s.skip(k as int),
                all_e.skip(k as int),
            ),
        decreases starts@.len() - k,
    {
        assert(all_s.skip(k as int)[0] == starts@[k as int]@);
        assert(all_e.skip(k as int)[0] == ends@[k as int]@);
        assert(all_s.skip(k as int).drop_first() =~= all_s.skip(k + 1));
        assert(all_e.skip(k as int).drop_first() =~= all_e.skip(k + 1));
        let sp = starts[k].as_slice();
        let ep = ends[k].as_slice();
        proof {
            lemma_find_from(s@, sp@, 0);
        }
        match find_chars(s, sp, 0) {
            Some(st) => {
                assert(sp@.len() == sp.len());
                match content_start_exec(s, sp, st + sp.len()) {
                    Some(cs) => {
                        proof {
                            lemma_find_from(s@, ep@, cs as int);
                        }
                        match find_chars(s, ep, cs) {
                            Some(e) => {
                                let (b0, b1) = trim_bounds(s, cs, e);
                                return substring(text, b0, b1);
                            },
                            None => {},
                        }
                    },
                    None => {},
                }
            },
            None => {},
        }
        k = k + 1;
    }
    assert(all_s.skip(k as int).len() == 0);
    String::new()
}

fn pattern_vec4(a: &str, b: &str, c: &str, d: &str) -> (v: Vec<Vec<char>>)
    ensures
        views(v@) == seq![a@, b@, c@, d@],
{
    let v = vec![chars_of(a), chars_of(b), chars_of(c), chars_of(d)];
    assert(views(v@) =~= seq![a@, b@, c@, d@]);
    v
}

fn skipped_collection_exec(url: &[char]) -> (r: bool)
    ensures
        r == skipped_collection(url@),
{
    let inbox = chars_of("/inbox/");
    let outbox = chars_of("/outbox/");
    let notification = chars_of("/notification/");
    let home = chars_of("/calendars/");
    ends_with_chars(url, inbox.as_slice()) || ends_with_chars(url, outbox.as_slice())
        || ends_with_chars(url, notification.as_slice()) || ends_with_chars(url, home.as_slice())
}

fn calendar_in_response_exec(text: &str) -> (r: Option<CalendarInfo>)
    ensures
        match r {
            Some(c) => calendar_in_response(text@) == Some(c@),
            None => calendar_in_response(text@) is None,
        },
{
    let s = chars_of(text);
    let cal = chars_of("<calendar");
    let c_cal = chars_of("<c:calendar");
    if !contains_chars(s.as_slice(), cal.as_slice()) && !contains_chars(
        s.as_slice(),
        c_cal.as_slice(),
    ) {
        return None;
    }
    let href_starts = pattern_vec4("<href>", "<href ", "<d:href>", "<d:href ");
    let href_ends = pattern_vec4("</href>", "</href>", "</d:href>", "</d:href>");
    let name_starts = pattern_vec4(
        "<displayname>",
        "<displayname ",
        "<d:displayname>",
        "<d:displayname ",
    );
    let name_ends = pattern_vec4(
        "</displayname>",
        "</displayname>",
        "</d:displayname>",
        "</d:displayname>",
    );
    let url = element_text_exec(text, s.as_slice(), &href_starts, &href_ends);
    let name = element_text_exec(text, s.as_slice(), &name_starts, &name_ends);
    let uc = chars_of(url.as_str());
    let slash = vec!['/'];
    assert(slash@ =~= seq!['/']);
    if uc.len() > 0 && ends_with_chars(uc.as_slice(), slash.as_slice()) && !skipped_collection_exec(
        uc.as_slice(),
    ) {
        let display_name = if name.as_str().is_empty() {
            String::from_str("Unnamed Calendar")
        } else {
            name
        };
        Some(CalendarInfo { url, display_name })
    } else {
        None
    }
}

impl ICloudCalendarClient {
    /// The calendars that a calendar-home PROPFIND response lists, in the
    /// order of their `<response>` elements.
    pub fn parse_calendars(&self, xml: &str) -> (r: Vec<CalendarInfo>)
        ensures
            calendar_views(r@) == parsed_calendars(xml@),
    {
        let s = chars_of(xml);
        let sep = chars_of("<response");
        proof {
            reveal_strlit("<response");
        }
        let n = s.len();
        let m = sep.len();
        let mut out: Vec<CalendarInfo> = Vec::new();
        proof {
            lemma_find_from(s@, sep@, 0);
        }
        match find_chars(s.as_slice(), sep.as_slice(), 0) {
            None => {
                assert(split(s@, sep@).drop_first() =~= Seq::<Seq<char>>::empty());
                assert(calendar_views(out@) =~= Seq::<CalendarRecord>::empty());
                out
            },
            Some(first) => {
                let mut cur: usize = first + m;
                assert(split(s@, sep@).drop_first() =~= split_from(s@, sep@, cur as int));
                assert(calendar_views(out@) =~= Seq::<CalendarRecord>::empty());
                loop
                    invariant
                        s@ == xml@,
                        sep@ == "<response"@,
                        n == s@.len(),
                        m == sep@.len(),
                        m == 9,
                        cur <= n,
                        calendar_views(out@) + calendars_in(split_from(s@, sep@, cur as int))
                            == parsed_calendars(xml@),
                    decreases n - cur,
                {
                    proof {
                        lemma_find_from(s@, sep@, cur as int);
                    }
                    let next = find_chars(s.as_slice(), sep.as_slice(), cur);
                    let end: usize = match next {
                        Some(i) => i,
                        None => n,
                    };
                    let piece = xml.substring_char(cur, end);
                    let found = calendar_in_response_exec(piece);
                    let ghost pieces = split_from(s@, sep@, cur as int);
                    let ghost rest = match next {
                        Some(i) => split_from(s@, sep@, i + m),
                        None => Seq::<Seq<char>>::empty(),
                    };
                    assert(pieces =~= seq![s@.subrange(cur as int, end as int)] + rest);
                    assert(pieces[0] == piece@);
                    assert(pieces.drop_first() =~= rest);
                    let ghost before = calendar_views(out@);
                    match found {
                        Some(c) => {
                            out.push(c);
                            assert(calendar_views(out@) =~= before + seq![c@]);
                        },
                        None => {},
                    }
                    match next {
                        None => {
                            assert(calendars_in(rest) =~= Seq::<CalendarRecord>::empty());
                            assert(calendar_views(out@) =~= calendar_views(out@) + calendars_in(
                                rest,
                            ));
                            return out;
                        },
                        Some(i) => {
                            cur = i + m;
                        },
                    }
                }
            },
        }
    }
}

// ---------------------------------------------------------------------------
// iCalendar data in a calendar-query REPORT response
// ---------------------------------------------------------------------------

/// The opening `calendar-data` tags, tried in this order.
pub open spec fn calendar_data_starts() -> Seq<Seq<char>> {
    seq![
        "<calendar-data xmlns="@,
        "<calendar-data>"@,
        "<c:calendar-data>"@,
        "<C:calendar-data>"@,
        "<cal:calendar-data>"@,
    ]
}

/// The closing `calendar-data` tags, tried in this order.
pub open spec fn calendar_data_ends() -> Seq<Seq<char>> {
    seq!["</calendar-data>"@, "</c:calendar-data>"@, "</C:calendar-data>"@, "</cal:calendar-data>"@]
}

/// An opening-tag pattern that holds a space or ends in `=` is followed by
/// attributes; the content begins after the next `>`.
pub open spec fn tag_has_attributes(sp: Seq<char>) -> bool {
    sp.contains(' ') || (sp.len() > 0 && sp.last() == '=')
}

/// Where the first of the closing tags `ends` (in list order, not in text
/// order) that occurs at or after `cs` begins.
pub open spec fn first_end(s: Seq<char>, cs: int, ends: Seq<Seq<char>>) -> Option<int>
    decreases ends.len(),
{
    if ends.len() == 0 {
        None
    } else {
        match find_from(s, ends[0], cs) {
            Some(e) => Some(e),
            None => first_end(s, cs, ends.drop_first()),
        }
    }
}

/// The text inside a CDATA section, when `d` begins with one.
pub open spec fn strip_cdata(d: Seq<char>) -> Seq<char> {
    if starts_with(d, "<![CDATA["@) {
        let inner = d.skip("<![CDATA["@.len() as int);
        match rfind(inner, "]]>"@) {
            Some(i) => inner.take(i),
            None => inner,
        }
    } else {
        d
    }
}

/// `d` with the XML entities `&lt;`, `&gt;`, `&amp;`, `&quot;` and `&#13;`
/// replaced, one after the other in this order.
pub open spec fn unescape_xml(d: Seq<char>) -> Seq<char> {
    replace_all(
        replace_all(
            replace_all(replace_all(replace_all(d, "&lt;"@, "<"@), "&gt;"@, ">"@), "&amp;"@, "&"@),
            "&quot;"@,
            "\""@,
        ),
        "&#13;"@,
        "\r"@,
    )
}

/// The iCalendar text held by the content of one `calendar-data` element.
pub open spec fn calendar_payload(d: Seq<char>) -> Seq<char> {
    unescape_xml(strip_cdata(d))
}

pub open spec fn looks_like_icalendar(u: Seq<char>) -> bool {
    contains(u, "BEGIN:VCALENDAR"@) || contains(u, "BEGIN:VEVENT"@)
}

/// The first occurrence of one of the closing tags, in list order, lies within `s` after `cs`.
pub proof fn lemma_first_end(s: Seq<char>, cs: int, ends: Seq<Seq<char>>)
    requires
        0 <= cs,
    ensures
        first_end(s, cs, ends) matches Some(e) ==> cs <= e <= s.len(),
    decreases ends.len(),
{
    if ends.len() > 0 {
        lemma_find_from(s, ends[0], cs);
        lemma_first_end(s, cs, ends.drop_first());
    }
}

/// The iCalendar payloads of the elements opened by `sp`, searched from `pos` on.
pub open spec fn events_for_pattern(s: Seq<char>, sp: Seq<char>, ends: Seq<Seq<char>>, pos: int) -> Seq<
    Seq<char>,
>
    decreases s.len() - pos,
{
    if sp.len() == 0 || pos < 0 || pos > s.len() {
        seq![]
    } else {
        match find_from(s, sp, pos) {
            None => seq![],
            Some(start) => {
                proof {
                    lemma_find_from(s, sp, pos);
                    lemma_find_from(s, seq!['>'], start + sp.len());
                }
                let after = start + sp.len();
                let cs: Option<int> = if tag_has_attributes(sp) {
                    match find_from(s, seq!['>'], after) {
                        Some(c) => Some(c + 1),
                        None => None,
                    }
                } else {
                    Some(after)
                };
                match cs {
                    None => events_for_pattern(s, sp, ends, after),
                    Some(c) => {
                        proof {
                            lemma_first_end(s, c, ends);
                        }
                        match first_end(s, c, ends) {
                            None => seq![],
                            Some(e) => {
                                let payload = calendar_payload(s.subrange(c, e));
                                (if looks_like_icalendar(payload) {
                                    seq![payload]
                                } else {
                                    seq![]
                                }) + events_for_pattern(s, sp, ends, e)
                            },
                        }
                    },
                }
            },
        }
    }
}

/// The payloads found with the first opening tag of `starts` that yields any.
pub open spec fn events_over(s: Seq<char>, starts: Seq<Seq<char>>, ends: Seq<Seq<char>>) -> Seq<
    Seq<char>,
>
    decreases starts.len(),
{
    if starts.len() == 0 {
        seq![]
    } else {
        let ev = events_for_pattern(s, starts[0], ends, 0);
        if ev.len() > 0 {
            ev
        } else {
            events_over(s, starts.drop_first(), ends)
        }
    }
}

/// The iCalendar texts that a calendar-query REPORT response carries.
pub open spec fn extracted_events(xml: Seq<char>) -> Seq<Seq<char>> {
    events_over(xml, calendar_data_starts(), calendar_data_ends())
}

fn tag_has_attributes_exec(sp: &[char]) -> (r: bool)
    ensures
        r == tag_has_attributes(sp@),
{
    let n = sp.len();
    let mut i: usize = 0;
    while i < n
        invariant
            n == sp@.len(),
            i <= n,
            forall|j: int| 0 <= j < i ==> sp@[j] != ' ',
        decreases n - i,
    {
        if sp[i] == ' ' {
            return true;
        }
        i = i + 1;
    }
    n > 0 && sp[n - 1] == '='
}

fn first_end_exec(s: &[char], cs: usize, ends: &Vec<Vec<char>>) -> (r: Option<usize>)
    ensures
        match r {
            Some(e) => first_end(s@, cs as int, views(ends@)) == Some(e as int),
            None => first_end(s@, cs as int, views(ends@)) is None,
        },
{
    let ghost all = views(ends@);
    assert(all.skip(0) =~= all);
    let mut k: usize = 0;
    while k < ends.len()
        invariant
            all == views(ends@),
            k <= ends@.len(),
            first_end(s@, cs as int, all) == first_end(s@, cs as int, all.skip(k as int)),
        decreases ends@.len() - k,
    {
        assert(all.skip(k as int)[0] == ends@[k as int]@);
        assert(all.skip(k as int).drop_first() =~= all.skip(k + 1));
        match find_chars(s, ends[k].as_slice(), cs) {
            Some(e) => {
                return Some(e);
            },
            None => {},
        }
        k = k + 1;
    }
    None
}

fn calendar_payload_exec(d: &str) -> (r: String)
    ensures
        r@ == calendar_payload(d@),
{
    let dc = chars_of(d);
    let open = chars_of("<![CDATA[");
    let stripped = if starts_with_chars(dc.as_slice(), open.as_slice()) {
        let inner = substring(d, open.len(), dc.len());
        let ic = chars_of(inner.as_str());
        let close = chars_of("]]>");
        match rfind_chars(ic.as_slice(), close.as_slice()) {
            Some(i) => {
                proof {
                    lemma_rfind_upto(ic@, close@, ic@.len() - close@.len());
                }
                substring(inner.as_str(), 0, i)
            },
            None => inner,
        }
    } else {
        String::from_str(d)
    };
    proof {
        reveal_strlit("&lt;");
        reveal_strlit("&gt;");
        reveal_strlit("&amp;");
        reveal_strlit("&quot;");
        reveal_strlit("&#13;");
    }
    let a = replace_text(stripped.as_str(), "&lt;", "<");
    let b = replace_text(a.as_str(), "&gt;", ">");
    let c = replace_text(b.as_str(), "&amp;", "&");
    let e = replace_text(c.as_str(), "&quot;", "\"");
    replace_text(e.as_str(), "&#13;", "\r")
}

fn looks_like_icalendar_exec(u: &str) -> (r: bool)
    ensures
        r == looks_like_icalendar(u@),
{
    let uc = chars_of(u);
    let whole = chars_of("BEGIN:VCALENDAR");
    let event = chars_of("BEGIN:VEVENT");
    contains_chars(uc.as_slice(), whole.as_slice()) || contains_chars(
        uc.as_slice(),
        event.as_slice(),
    )
}

fn events_for_pattern_exec(text: &str, s: &[char], sp: &[char], ends: &Vec<Vec<char>>) -> (r: Vec<
    String,
>)
    requires
        s@ == text@,
        sp@.len() > 0,
    ensures
        string_views(r@) == events_for_pattern(s@, sp@, views(ends@), 0),
{
    let ghost e_all = views(ends@);
    let n = s.len();
    assert(n == s@.len());
    assert(sp@.len() == sp.len());
    let has_attributes = tag_has_attributes_exec(sp);
    let close = vec!['>'];
    assert(close@ =~= seq!['>']);
    let mut out: Vec<String> = Vec::new();
    let mut pos: usize = 0;
    assert(string_views(out@) =~= Seq::<Seq<char>>::empty());
    loop
        invariant
            s@ == text@,
            n == s@.len(),
            sp@.len() == sp.len(),
            sp@.len() > 0,
            close@ == seq!['>'],
            e_all == views(ends@),
            has_attributes == tag_has_attributes(sp@),
            pos <= n,
            string_views(out@) + events_for_pattern(s@, sp@, e_all, pos as int)
                == events_for_pattern(s@, sp@, e_all, 0),
        decreases n - pos,
    {
        proof {
            lemma_find_from(s@, sp@, pos as int);
        }
        match find_chars(s, sp, pos) {
            None => {
                assert(string_views(out@) + events_for_pattern(s@, sp@, e_all, pos as int)
                    =~= string_views(out@));
                return out;
            },
            Some(start) => {
                let after = start + sp.len();
                proof {
                    lemma_find_from(s@, seq!['>'], after as int);
                }
                let cs: Option<usize> = if has_attributes {
                    match find_chars(s, close.as_slice(), after) {
                        Some(c) => Some(c + 1),
                        None => None,
                    }
                } else {
                    Some(after)
                };
                match cs {
                    None => {
                        pos = after;
                    },
                    Some(c) => {
                        proof {
                            lemma_first_end(s@, c as int, e_all);
                        }
                        match first_end_exec(s, c, ends) {
                            None => {
                                assert(string_views(out@) + events_for_pattern(
                                    s@,
                                    sp@,
                                    e_all,
                                    pos as int,
                                ) =~= string_views(out@));
                                return out;
                            },
                            Some(e) => {
                                let raw = substring(text, c, e);
                                let payload = calendar_payload_exec(raw.as_str());
                                let keep = looks_like_icalendar_exec(payload.as_str());
                                let ghost before = string_views(out@);
                                let ghost p = payload@;
                                if keep {
                                    out.push(payload);
                                    assert(string_views(out@) =~= before + seq![p]);
                                    assert(before + (seq![p] + events_for_pattern(
                                        s@,
                                        sp@,
                                        e_all,
                                        e as int,
                                    )) =~= string_views(out@) + events_for_pattern(
                                        s@,
                                        sp@,
                                        e_all,
                                        e as int,
                                    ));
                                } else {
                                    assert(before + (Seq::<Seq<char>>::empty() + events_for_pattern(
                                        s@,
                                        sp@,
                                        e_all,
                                        e as int,
                                    )) =~= string_views(out@) + events_for_pattern(
                                        s@,
                                        sp@,
                                        e_all,
                                        e as int,
                                    ));
                                }
                                pos = e;
                            },
                        }
                    },
                }
            },
        }
    }
}

fn calendar_data_start_vec() -> (v: Vec<Vec<char>>)
    ensures
        views(v@) == calendar_data_starts(),
        forall|i: int| 0 <= i < v@.len() ==> #[trigger] v@[i]@.len() > 0,
{
    proof {
        reveal_strlit("<calendar-data xmlns=");
        reveal_strlit("<calendar-data>");
        reveal_strlit("<c:calendar-data>");
        reveal_strlit("<C:calendar-data>");
        reveal_strlit("<cal:calendar-data>");
    }
    let v = vec![
        chars_of("<calendar-data xmlns="),
        chars_of("<calendar-data>"),
        chars_of("<c:calendar-data>"),
        chars_of("<C:calendar-data>"),
        chars_of("<cal:calendar-data>"),
    ];
    assert(views(v@) =~= calendar_data_starts());
    v
}

impl ICloudCalendarClient {
    /// The iCalendar texts carried by the `calendar-data` elements of a
    /// calendar-query REPORT response, with CDATA unwrapped and XML entities
    /// unescaped, keeping those that hold a VCALENDAR or a VEVENT.
    pub fn extract_ical_events(&self, xml_response: &str) -> (r: Vec<String>)
        ensures
            string_views(r@) == extracted_events(xml_response@),
    {
        let s = chars_of(xml_response);
        let starts = calendar_data_start_vec();
        let ends = pattern_vec4(
            "</calendar-data>",
            "</c:calendar-data>",
            "</C:calendar-data>",
            "</cal:calendar-data>",
        );
        let ghost all = views(starts@);
        assert(all.skip(0) =~= all);
        let mut k: usize = 0;
        while k < starts.len()
            invariant
                s@ == xml_response@,
                all == views(starts@),
                all == calendar_data_starts(),
                views(ends@) == calendar_data_ends(),
                forall|i: int| 0 <= i < starts@.len() ==> #[trigger] starts@[i]@.len() > 0,
                k <= starts@.len(),
                extracted_events(xml_response@) == events_over(
                    s@,
                    all.skip(k as int),
                    views(ends@),
                ),
            decreases starts@.len() - k,
        {
            assert(all.skip(k as int)[0] == starts@[k as int]@);
            assert(all.skip(k as int).drop_first() =~= all.skip(k + 1));
            let found = events_for_pattern_exec(
                xml_response,
                s.as_slice(),
                starts[k].as_slice(),
                &ends,
            );
            if found.len() > 0 {
                return found;
            }
            k = k + 1;
        }
        let none: Vec<String> = Vec::new();
        assert(string_views(none@) =~= Seq::<Seq<char>>::empty());
        none
    }
}

// ---------------------------------------------------------------------------
// the exported iCalendar document
// ---------------------------------------------------------------------------

/// The PRODID of every iCalendar document that the library assembles.
pub open spec fn calendar_prodid() -> Seq<char> {
    "-//iCloud Calendar Export//EN"@
}

/// The VEVENT components of `e` from `pos` on, each followed by CRLF.
pub open spec fn vevents_from(e: Seq<char>, pos: int) -> Seq<char>
    decreases e.len() - pos,
{
    if pos < 0 || pos > e.len() {
        seq![]
    } else {
        match find_from(e, "BEGIN:VEVENT"@, pos) {
            None => seq![],
            Some(start) => match find_from(e, "END:VEVENT"@, start) {
                None => seq![],
                Some(end) => {
                    proof {
                        lemma_find_from(e, "BEGIN:VEVENT"@, pos);
                        lemma_find_from(e, "END:VEVENT"@, start);
                        reveal_strlit("END:VEVENT");
                    }
                    e.subrange(start, end + "END:VEVENT"@.len()) + "\r\n"@ + vevents_from(
                        e,
                        end + "END:VEVENT"@.len(),
                    )
                },
            },
        }
    }
}

/// The VEVENT components of all of `events`, in order.
pub open spec fn vevents_of_all(events: Seq<Seq<char>>) -> Seq<char>
    decreases events.len(),
{
    if events.len() == 0 {
        seq![]
    } else {
        vevents_of_all(events.drop_last()) + vevents_from(events.last(), 0)
    }
}

/// The lines that open the exported VCALENDAR.
pub open spec fn calendar_header(prodid: Seq<char>, name: Seq<char>) -> Seq<char> {
    "BEGIN:VCALENDAR\r\n"@ + "VERSION:2.0\r\n"@ + "PRODID:"@ + prodid + "\r\n"@
        + "CALSCALE:GREGORIAN\r\n"@ + "X-WR-CALNAME:"@ + name + "\r\n"@ + "X-WR-TIMEZONE:UTC\r\n"@
}

/// One VCALENDAR named `name` holding every VEVENT of `events`.
pub open spec fn combined_calendar(prodid: Seq<char>, name: Seq<char>, events: Seq<Seq<char>>) -> Seq<
    char,
> {
    calendar_header(prodid, name) + vevents_of_all(events) + "END:VCALENDAR\r\n"@
}

fn append_vevents(out: &mut String, event: &str)
    ensures
        final(out)@ == old(out)@ + vevents_from(event@, 0),
{
    let e = chars_of(event);
    let begin = chars_of("BEGIN:VEVENT");
    let end_tag = chars_of("END:VEVENT");
    proof {
        reveal_strlit("BEGIN:VEVENT");
        reveal_strlit("END:VEVENT");
    }
    let n = e.len();
    let ghost base = out@;
    let mut pos: usize = 0;
    loop
        invariant
            e@ == event@,
            n == e@.len(),
            begin@ == "BEGIN:VEVENT"@,
            end_tag@ == "END:VEVENT"@,
            end_tag@.len() == 10,
            base == old(out)@,
            pos <= n,
            out@ + vevents_from(e@, pos as int) == base + vevents_from(e@, 0),
        decreases n - pos,
    {
        proof {
            lemma_find_from(e@, begin@, pos as int);
        }
        match find_chars(e.as_slice(), begin.as_slice(), pos) {
            None => {
                assert(out@ + vevents_from(e@, pos as int) =~= out@);
                return;
            },
            Some(start) => {
                proof {
                    lemma_find_from(e@, end_tag@, start as int);
                }
                match find_chars(e.as_slice(), end_tag.as_slice(), start) {
                    None => {
                        assert(out@ + vevents_from(e@, pos as int) =~= out@);
                        return;
                    },
                    Some(end) => {
                        let ghost before = out@;
                        let piece = substring(event, start, end + 10);
                        out.append(piece.as_str());
                        out.append("\r\n");
                        assert(before + (e@.subrange(start as int, end + 10) + "\r\n"@
                            + vevents_from(e@, end + 10)) =~= out@ + vevents_from(e@, end + 10));
                        pos = end + 10;
                    },
                }
            },
        }
    }
}

fn append_header(out: &mut String, prodid: &str, calendar_name: &str)
    ensures
        final(out)@ == old(out)@ + calendar_header(prodid@, calendar_name@),
{
    let ghost base = out@;
    out.append("BEGIN:VCALENDAR\r\n");
    out.append("VERSION:2.0\r\n");
    out.append("PRODID:");
    out.append(prodid);
    out.append("\r\n");
    out.append("CALSCALE:GREGORIAN\r\n");
    out.append("X-WR-CALNAME:");
    out.append(calendar_name);
    out.append("\r\n");
    out.append("X-WR-TIMEZONE:UTC\r\n");
    assert(out@ =~= base + calendar_header(prodid@, calendar_name@));
}

impl ICloudCalendarClient {
    /// One VCALENDAR named `calendar_name` that holds every VEVENT component
    /// found in `events`, in order.
    pub fn combine_ical_events(&self, events: Vec<String>, calendar_name: &str) -> (r: String)
        ensures
            r@ == combined_calendar(calendar_prodid(), calendar_name@, string_views(events@)),
    {
        let prodid = "-//iCloud Calendar Export//EN";
        let mut combined = String::new();
        append_header(&mut combined, prodid, calendar_name);
        let ghost header = combined@;
        let mut k: usize = 0;
        while k < events.len()
            invariant
                k <= events@.len(),
                header == calendar_header(prodid@, calendar_name@),
                combined@ == header + vevents_of_all(string_views(events@).take(k as int)),
            decreases events@.len() - k,
        {
            append_vevents(&mut combined, events[k].as_str());
            assert(string_views(events@).take(k + 1).drop_last() =~= string_views(events@).take(
                k as int,
            ));
            assert(string_views(events@).take(k + 1).last() == events@[k as int]@);
            assert(combined@ =~= header + vevents_of_all(string_views(events@).take(k + 1)));
            k = k + 1;
        }
        assert(string_views(events@).take(k as int) =~= string_views(events@));
        combined.append("END:VCALENDAR\r\n");
        combined
    }
}

} // verus!
