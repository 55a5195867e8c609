//! Properties that hold of the library as a whole, over every input.
use vstd::prelude::*;
use crate::caldav::{
    CalendarRecord, calendar_data_ends, calendar_data_starts, calendar_header, element_text,
    href_search_start, href_start_patterns, calendar_in_response, calendars_in, combined_calendar,
    content_start, events_for_pattern, events_over, extracted_events, extracted_href, first_end,
    href_in_ends, href_in_starts, lemma_first_end, looks_like_icalendar, parsed_calendars, split,
    tag_has_attributes, well_formed_calendar, calendar_payload, vevents_from, vevents_of_all,
};
use crate::client::{ICLOUD_CALDAV_ORIGIN, absolute_url};
use crate::export::{ExportStep, export_selection, export_piece, export_text, exported_in, failed_in, named_like};
use crate::text::{
    contains, ends_with, find_from, is_whitespace, lemma_find_from, occurs_at, replace_all,
    replace_from, starts_with, trim, trim_end, trim_start,
};

verus! {

/// Resolving an href that `build_url` has already resolved changes nothing:
/// every URL it gives is absolute.
pub proof fn law_build_url_idempotent(href: Seq<char>)
    ensures
        absolute_url(absolute_url(href)) == absolute_url(href),
        starts_with(absolute_url(href), "http://"@) || starts_with(absolute_url(href), "https://"@),
{
    reveal_strlit("https://caldav.icloud.com");
    reveal_strlit("https://");
    if !(starts_with(href, "http://"@) || starts_with(href, "https://"@)) {
        let u = ICLOUD_CALDAV_ORIGIN@ + href;
        assert(u.subrange(0, "https://"@.len() as int) =~= "https://"@);
    }
}

proof fn lemma_calendars_in_well_formed(rs: Seq<Seq<char>>)
    ensures
        forall|i: int|
            0 <= i < calendars_in(rs).len() ==> well_formed_calendar(#[trigger] calendars_in(rs)[i]),
    decreases rs.len(),
{
    reveal_strlit("Unnamed Calendar");
    if rs.len() > 0 {
        lemma_calendars_in_well_formed(rs.drop_first());
        let rest = calendars_in(rs.drop_first());
        match calendar_in_response(rs[0]) {
            Some(c) => {
                assert(well_formed_calendar(c));
                assert forall|i: int| 0 <= i < calendars_in(rs).len() implies well_formed_calendar(
                    #[trigger] calendars_in(rs)[i],
                ) by {
                    if i > 0 {
                        assert(calendars_in(rs)[i] == rest[i - 1]);
                    }
                }
            },
            None => {},
        }
    }
}

/// Every calendar that a listing yields is a collection (its href ends in
/// `/`), is not the inbox, outbox, notification collection or calendar home,
/// and has a non-empty name.
pub proof fn law_listed_calendars_well_formed(xml: Seq<char>)
    ensures
        forall|i: int|
            0 <= i < parsed_calendars(xml).len() ==> well_formed_calendar(
                #[trigger] parsed_calendars(xml)[i],
            ),
{
    lemma_calendars_in_well_formed(split(xml, "<response"@).drop_first());
}

proof fn lemma_events_for_pattern_icalendar(
    s: Seq<char>,
    sp: Seq<char>,
    ends: Seq<Seq<char>>,
    pos: int,
)
    ensures
        forall|i: int|
            0 <= i < events_for_pattern(s, sp, ends, pos).len() ==> looks_like_icalendar(
                #[trigger] events_for_pattern(s, sp, ends, pos)[i],
            ),
    decreases s.len() - pos,
{
    if sp.len() == 0 || pos < 0 || pos > s.len() {
    } else {
        match find_from(s, sp, pos) {
            None => {},
            Some(start) => {
                lemma_find_from(s, sp, pos);
                lemma_find_from(s, seq!['>'], start + sp.len());
                let after = start + sp.len();
                let cs: Option<int> = if tag_has_attributes(sp) {
                    match find_from(s, seq!['>'], after) {
                        Some(c) => Some(c + 1),
                        None => None,
                    }
                } else {
                    Some(after)
                };
                match cs {
                    None => {
                        lemma_events_for_pattern_icalendar(s, sp, ends, after);
                        assert(events_for_pattern(s, sp, ends, pos) == events_for_pattern(
                            s,
                            sp,
                            ends,
                            after,
                        ));
                    },
                    Some(c) => {
                        lemma_first_end(s, c, ends);
                        match first_end(s, c, ends) {
                            None => {
                                assert(events_for_pattern(s, sp, ends, pos).len() == 0);
                            },
                            Some(e) => {
                                lemma_events_for_pattern_icalendar(s, sp, ends, e);
                                let payload = calendar_payload(s.subrange(c, e));
                                let head: Seq<Seq<char>> = if looks_like_icalendar(payload) {
                                    seq![payload]
                                } else {
                                    seq![]
                                };
                                let rest = events_for_pattern(s, sp, ends, e);
                                assert(events_for_pattern(s, sp, ends, pos) == head + rest);
                                assert forall|i: int|
                                    0 <= i < events_for_pattern(
                                        s,
                                        sp,
                                        ends,
                                        pos,
                                    ).len() implies looks_like_icalendar(
                                    #[trigger] events_for_pattern(s, sp, ends, pos)[i],
                                ) by {
                                    if i >= head.len() {
                                        assert((head + rest)[i] == rest[i - head.len()]);
                                    }
                                }
                            },
                        }
                    },
                }
            },
        }
    }
}

proof fn lemma_events_over_icalendar(s: Seq<char>, starts: Seq<Seq<char>>, ends: Seq<Seq<char>>)
    ensures
        forall|i: int|
            0 <= i < events_over(s, starts, ends).len() ==> looks_like_icalendar(
                #[trigger] events_over(s, starts, ends)[i],
            ),
    decreases starts.len(),
{
    if starts.len() > 0 {
        lemma_events_for_pattern_icalendar(s, starts[0], ends, 0);
        lemma_events_over_icalendar(s, starts.drop_first(), ends);
        let ev = events_for_pattern(s, starts[0], ends, 0);
        if ev.len() > 0 {
            assert(events_over(s, starts, ends) == ev);
        } else {
            assert(events_over(s, starts, ends) == events_over(s, starts.drop_first(), ends));
        }
    }
}

/// Every iCalendar text taken from a calendar-query response holds a
/// VCALENDAR or a VEVENT.
pub proof fn law_extracted_events_are_icalendar(xml: Seq<char>)
    ensures
        forall|i: int|
            0 <= i < extracted_events(xml).len() ==> looks_like_icalendar(
                #[trigger] extracted_events(xml)[i],
            ),
{
    lemma_events_over_icalendar(
        xml,
        crate::caldav::calendar_data_starts(),
        crate::caldav::calendar_data_ends(),
    );
}

proof fn lemma_trim_start(s: Seq<char>)
    ensures
        trim_start(s).len() <= s.len(),
        trim_start(s).len() == 0 || !is_whitespace(trim_start(s)[0]),
        trim_start(s) == s.subrange(s.len() - trim_start(s).len(), s.len() as int),
    decreases s.len(),
{
    if s.len() > 0 && is_whitespace(s[0]) {
        let d = s.drop_first();
        lemma_trim_start(d);
        let r = trim_start(d);
        assert(trim_start(s) == r);
        assert(r =~= s.subrange(s.len() - r.len(), s.len() as int));
    } else {
        assert(s.subrange(0, s.len() as int) =~= s);
    }
}

proof fn lemma_trim_end(s: Seq<char>)
    ensures
        trim_end(s).len() <= s.len(),
        trim_end(s).len() == 0 || !is_whitespace(trim_end(s).last()),
        trim_end(s) == s.subrange(0, trim_end(s).len() as int),
    decreases s.len(),
{
    if s.len() > 0 && is_whitespace(s.last()) {
        let d = s.drop_last();
        lemma_trim_end(d);
        let r = trim_end(d);
        assert(trim_end(s) == r);
        assert(r =~= s.subrange(0, r.len() as int));
    } else {
        assert(s.subrange(0, s.len() as int) =~= s);
    }
}

/// Trimming text that is already trimmed changes nothing.
pub proof fn law_trim_idempotent(s: Seq<char>)
    ensures
        trim(trim(s)) == trim(s),
{
    let t = trim_start(s);
    let r = trim_end(t);
    lemma_trim_start(s);
    lemma_trim_end(t);
    if r.len() > 0 {
        assert(r[0] == t[0]);
    }
    assert(trim_start(r) == r);
    assert(trim_end(r) == r);
}

proof fn lemma_href_in_ends_trimmed(s: Seq<char>, cs: int, ends: Seq<Seq<char>>)
    ensures
        href_in_ends(s, cs, ends) matches Some(h) ==> h.len() > 0 && trim(h) == h,
    decreases ends.len(),
{
    if ends.len() > 0 {
        lemma_href_in_ends_trimmed(s, cs, ends.drop_first());
        if let Some(e) = find_from(s, ends[0], cs) {
            law_trim_idempotent(s.subrange(cs, e));
        }
    }
}

proof fn lemma_href_in_starts_trimmed(
    s: Seq<char>,
    from: int,
    starts: Seq<Seq<char>>,
    ends: Seq<Seq<char>>,
)
    ensures
        href_in_starts(s, from, starts, ends) matches Some(h) ==> h.len() > 0 && trim(h) == h,
    decreases starts.len(),
{
    if starts.len() > 0 {
        lemma_href_in_starts_trimmed(s, from, starts.drop_first(), ends);
        if let Some(st) = find_from(s, starts[0], from) {
            if let Some(cs) = content_start(s, starts[0], st + starts[0].len()) {
                lemma_href_in_ends_trimmed(s, cs, ends);
            }
        }
    }
}

/// A discovered href is never empty and has no leading or trailing whitespace.
pub proof fn law_extracted_href_trimmed(xml: Seq<char>, context: Seq<char>)
    ensures
        extracted_href(xml, context) matches Some(h) ==> h.len() > 0 && trim(h) == h,
{
    lemma_href_in_starts_trimmed(
        xml,
        crate::caldav::href_search_start(xml, context),
        crate::caldav::href_start_patterns(),
        crate::caldav::href_end_patterns(),
    );
}

/// Every document the library assembles is one VCALENDAR: it begins with
/// `BEGIN:VCALENDAR` and ends with `END:VCALENDAR`.
pub proof fn law_calendar_document_framing(
    prodid: Seq<char>,
    name: Seq<char>,
    events: Seq<Seq<char>>,
)
    ensures
        starts_with(combined_calendar(prodid, name, events), "BEGIN:VCALENDAR\r\n"@),
        ends_with(combined_calendar(prodid, name, events), "END:VCALENDAR\r\n"@),
{
    let doc = combined_calendar(prodid, name, events);
    let open = "BEGIN:VCALENDAR\r\n"@;
    let close = "END:VCALENDAR\r\n"@;
    assert(doc.subrange(0, open.len() as int) =~= open);
    assert(doc.subrange(doc.len() - close.len(), doc.len() as int) =~= close);
}

/// An export with a filter covers exactly the calendars whose display name
/// contains the filter.
pub proof fn law_export_selection_exact(cs: Seq<CalendarRecord>, filter: Seq<char>)
    ensures
        forall|c: CalendarRecord|
            #[trigger] named_like(cs, filter).contains(c) <==> (cs.contains(c) && contains(
                c.display_name,
                filter,
            )),
{
    let pred = |c: CalendarRecord| contains(c.display_name, filter);
    assert forall|c: CalendarRecord|
        #[trigger] named_like(cs, filter).contains(c) <==> (cs.contains(c) && contains(
            c.display_name,
            filter,
        )) by {
        if named_like(cs, filter).contains(c) {
            cs.lemma_filter_contains_rev(pred, c);
            let i = choose|i: int| 0 <= i < cs.filter(pred).len() && cs.filter(pred)[i] == c;
            cs.lemma_filter_pred(pred, i);
        }
        if cs.contains(c) && contains(c.display_name, filter) {
            let i = choose|i: int| 0 <= i < cs.len() && cs[i] == c;
            cs.lemma_filter_contains(pred, i);
        }
    }
}

/// A complete VEVENT component as the assembled document holds it: from
/// `BEGIN:VEVENT` through `END:VEVENT` and its line break.
pub open spec fn is_vevent_block(b: Seq<char>) -> bool {
    starts_with(b, "BEGIN:VEVENT"@) && ends_with(b, "END:VEVENT\r\n"@)
}

proof fn lemma_flatten_concat(a: Seq<Seq<char>>, b: Seq<Seq<char>>)
    ensures
        (a + b).flatten() == a.flatten() + b.flatten(),
    decreases a.len(),
{
    if a.len() == 0 {
        assert(a + b =~= b);
        assert(a.flatten() + b.flatten() =~= b.flatten());
    } else {
        lemma_flatten_concat(a.drop_first(), b);
        assert((a + b).first() == a.first());
        assert((a + b).drop_first() =~= a.drop_first() + b);
        assert(a.first() + (a.drop_first().flatten() + b.flatten()) =~= (a.first()
            + a.drop_first().flatten()) + b.flatten());
    }
}

proof fn lemma_vevents_from_blocks(e: Seq<char>, pos: int) -> (bs: Seq<Seq<char>>)
    ensures
        bs.flatten() == vevents_from(e, pos),
        forall|i: int| 0 <= i < bs.len() ==> is_vevent_block(#[trigger] bs[i]),
    decreases e.len() - pos,
{
    let begin = "BEGIN:VEVENT"@;
    let end_tag = "END:VEVENT"@;
    if pos < 0 || pos > e.len() {
        seq![]
    } else {
        match find_from(e, begin, pos) {
            None => seq![],
            Some(start) => match find_from(e, end_tag, start) {
                None => seq![],
                Some(end) => {
                    lemma_find_from(e, begin, pos);
                    lemma_find_from(e, end_tag, start);
                    reveal_strlit("BEGIN:VEVENT");
                    reveal_strlit("END:VEVENT");
                    reveal_strlit("END:VEVENT\r\n");
                    reveal_strlit("\r\n");
                    assert(e.subrange(start, start + 12)[0] == e[start]);
                    assert(e.subrange(start, start + 12)[2] == e[start + 2]);
                    assert(e.subrange(end, end + 10)[0] == e[end]);
                    assert(e.subrange(end, end + 10)[1] == e[end + 1]);
                    assert(end >= start + 2);
                    let block = e.subrange(start, end + 10) + "\r\n"@;
                    let rest = lemma_vevents_from_blocks(e, end + 10);
                    let bs = seq![block] + rest;
                    assert(bs.first() == block);
                    assert(bs.drop_first() =~= rest);
                    assert(block.subrange(0, 12) =~= begin);
                    assert(block.subrange(block.len() - 12, block.len() as int) =~= e.subrange(
                        end,
                        end + 10,
                    ) + "\r\n"@);
                    assert(end_tag + "\r\n"@ =~= "END:VEVENT\r\n"@);
                    assert(is_vevent_block(block));
                    assert(vevents_from(e, pos) == block + vevents_from(e, end + 10));
                    assert forall|i: int| 0 <= i < bs.len() implies is_vevent_block(
                        #[trigger] bs[i],
                    ) by {
                        if i > 0 {
                            assert(bs[i] == rest[i - 1]);
                        }
                    }
                    bs
                },
            },
        }
    }
}

proof fn lemma_vevents_of_all_blocks(events: Seq<Seq<char>>) -> (bs: Seq<Seq<char>>)
    ensures
        bs.flatten() == vevents_of_all(events),
        forall|i: int| 0 <= i < bs.len() ==> is_vevent_block(#[trigger] bs[i]),
    decreases events.len(),
{
    if events.len() == 0 {
        seq![]
    } else {
        let prev = lemma_vevents_of_all_blocks(events.drop_last());
        let last = lemma_vevents_from_blocks(events.last(), 0);
        lemma_flatten_concat(prev, last);
        let bs = prev + last;
        assert forall|i: int| 0 <= i < bs.len() implies is_vevent_block(#[trigger] bs[i]) by {
            if i >= prev.len() {
                assert(bs[i] == last[i - prev.len()]);
            } else {
                assert(bs[i] == prev[i]);
            }
        }
        bs
    }
}

/// Between its header and its closing line, every assembled document holds
/// nothing but complete VEVENT components.
pub proof fn law_calendar_body_is_vevents(prodid: Seq<char>, name: Seq<char>, events: Seq<Seq<char>>)
    ensures
        exists|bs: Seq<Seq<char>>|
            {
                &&& combined_calendar(prodid, name, events) == calendar_header(prodid, name)
                    + bs.flatten() + "END:VCALENDAR\r\n"@
                &&& forall|i: int| 0 <= i < bs.len() ==> is_vevent_block(#[trigger] bs[i])
            },
{
    let bs = lemma_vevents_of_all_blocks(events);
    assert(combined_calendar(prodid, name, events) == calendar_header(prodid, name) + bs.flatten()
        + "END:VCALENDAR\r\n"@);
}

// ---------------------------------------------------------------------------
// calendar listings: one entry per response piece, trimmed
// ---------------------------------------------------------------------------

/// `idx` gives, for each calendar of `cs`, the piece of `rs` it comes
/// from: the pieces are taken in order, each describes its calendar, and
/// every piece that describes a calendar is taken.
pub open spec fn indexes_pieces(rs: Seq<Seq<char>>, cs: Seq<CalendarRecord>, idx: Seq<int>) -> bool {
    &&& idx.len() == cs.len()
    &&& forall|k: int| 0 <= k < idx.len() ==> 0 <= #[trigger] idx[k] < rs.len()
    &&& forall|k: int, l: int| 0 <= k < l < idx.len() ==> #[trigger] idx[k] < #[trigger] idx[l]
    &&& forall|k: int|
        0 <= k < idx.len() ==> calendar_in_response(rs[#[trigger] idx[k]]) == Some(cs[k])
    &&& forall|j: int|
        0 <= j < rs.len() && (#[trigger] calendar_in_response(rs[j])) is Some ==> exists|k: int|
            0 <= k < idx.len() && idx[k] == j
}

proof fn lemma_calendars_in_pieces(rs: Seq<Seq<char>>) -> (idx: Seq<int>)
    ensures
        indexes_pieces(rs, calendars_in(rs), idx),
    decreases rs.len(),
{
    if rs.len() == 0 {
        seq![]
    } else {
        let tail = rs.drop_first();
        let rest = lemma_calendars_in_pieces(tail);
        let shifted = rest.map_values(|x: int| x + 1);
        assert forall|j: int|
            1 <= j < rs.len() && (#[trigger] calendar_in_response(rs[j])) is Some implies exists|
                k: int,
            |
                0 <= k < shifted.len() && shifted[k] == j by {
            assert(tail[j - 1] == rs[j]);
            assert(calendar_in_response(tail[j - 1]) is Some);
            let k = choose|k: int| 0 <= k < rest.len() && rest[k] == j - 1;
            assert(shifted[k] == j);
        }
        match calendar_in_response(rs[0]) {
            Some(c) => {
                let idx = seq![0int] + shifted;
                assert(calendars_in(rs) == seq![c] + calendars_in(tail));
                assert forall|k: int|
                    0 <= k < idx.len() implies calendar_in_response(rs[#[trigger] idx[k]]) == Some(
                    calendars_in(rs)[k],
                ) by {
                    if k > 0 {
                        assert(idx[k] == rest[k - 1] + 1);
                        assert(rs[idx[k]] == tail[rest[k - 1]]);
                    }
                }
                assert forall|k: int, l: int| 0 <= k < l < idx.len() implies #[trigger] idx[k]
                    < #[trigger] idx[l] by {
                    if k > 0 {
                        assert(idx[k] == rest[k - 1] + 1);
                    }
                    assert(idx[l] == rest[l - 1] + 1);
                }
                assert forall|k: int| 0 <= k < idx.len() implies 0 <= #[trigger] idx[k]
                    < rs.len() by {
                    if k > 0 {
                        assert(idx[k] == rest[k - 1] + 1);
                    }
                }
                assert forall|j: int|
                    0 <= j < rs.len() && (#[trigger] calendar_in_response(rs[j])) is Some implies exists|
                        k: int,
                    |
                        0 <= k < idx.len() && idx[k] == j by {
                    if j == 0 {
                        assert(idx[0] == 0);
                    } else {
                        let k = choose|k: int| 0 <= k < shifted.len() && shifted[k] == j;
                        assert(idx[k + 1] == j);
                    }
                }
                idx
            },
            None => {
                assert(calendars_in(rs) == calendars_in(tail));
                assert forall|k: int|
                    0 <= k < shifted.len() implies calendar_in_response(
                    rs[#[trigger] shifted[k]],
                ) == Some(calendars_in(rs)[k]) by {
                    assert(rs[shifted[k]] == tail[rest[k]]);
                }
                assert forall|j: int|
                    0 <= j < rs.len() && (#[trigger] calendar_in_response(rs[j])) is Some implies exists|
                        k: int,
                    |
                        0 <= k < shifted.len() && shifted[k] == j by {
                    if j == 0 {
                        assert(false);
                    }
                }
                shifted
            },
        }
    }
}

/// A calendar listing has one entry per `<response` piece that describes a
/// calendar and none for any other piece, in document order; a piece that
/// holds neither `<calendar` nor `<c:calendar` contributes nothing.
pub proof fn law_listed_calendars_one_per_piece(xml: Seq<char>)
    ensures
        parsed_calendars(xml).len() <= split(xml, "<response"@).len() - 1,
        exists|idx: Seq<int>|
            #[trigger] indexes_pieces(
                split(xml, "<response"@).drop_first(),
                parsed_calendars(xml),
                idx,
            ),
        forall|r: Seq<char>|
            !contains(r, "<calendar"@) && !contains(r, "<c:calendar"@) ==> (
            #[trigger] calendar_in_response(r)) is None,
{
    let rs = split(xml, "<response"@).drop_first();
    let idx = lemma_calendars_in_pieces(rs);
    assert(indexes_pieces(rs, parsed_calendars(xml), idx));
    lemma_strictly_increasing_bound(idx, rs.len() as int);
    reveal_strlit("<response");
}

proof fn lemma_strictly_increasing_bound(idx: Seq<int>, n: int)
    requires
        0 <= n,
        forall|k: int| 0 <= k < idx.len() ==> 0 <= #[trigger] idx[k] < n,
        forall|k: int, l: int| 0 <= k < l < idx.len() ==> #[trigger] idx[k] < #[trigger] idx[l],
    ensures
        idx.len() <= n,
    decreases idx.len(),
{
    if idx.len() > 0 {
        let init = idx.drop_last();
        assert forall|k: int| 0 <= k < init.len() implies 0 <= #[trigger] init[k] < idx.last() by {
            assert(init[k] == idx[k]);
        }
        assert forall|k: int, l: int| 0 <= k < l < init.len() implies #[trigger] init[k]
            < #[trigger] init[l] by {
            assert(init[k] == idx[k]);
            assert(init[l] == idx[l]);
        }
        assert(0 <= idx[idx.len() - 1] < n);
        lemma_strictly_increasing_bound(init, idx.last());
    }
}

proof fn lemma_element_text_trimmed(r: Seq<char>, starts: Seq<Seq<char>>, ends: Seq<Seq<char>>)
    ensures
        trim(element_text(r, starts, ends)) == element_text(r, starts, ends),
    decreases starts.len(),
{
    if starts.len() == 0 || ends.len() == 0 {
        assert(trim(Seq::<char>::empty()) == Seq::<char>::empty());
    } else {
        lemma_element_text_trimmed(r, starts.drop_first(), ends.drop_first());
        if let Some(st) = find_from(r, starts[0], 0) {
            if let Some(cs) = content_start(r, starts[0], st + starts[0].len()) {
                if let Some(e) = find_from(r, ends[0], cs) {
                    law_trim_idempotent(r.subrange(cs, e));
                }
            }
        }
    }
}

proof fn lemma_calendars_in_trimmed(rs: Seq<Seq<char>>)
    ensures
        forall|i: int|
            0 <= i < calendars_in(rs).len() ==> trim((#[trigger] calendars_in(rs)[i]).url)
                == calendars_in(rs)[i].url && trim(calendars_in(rs)[i].display_name)
                == calendars_in(rs)[i].display_name,
    decreases rs.len(),
{
    if rs.len() > 0 {
        lemma_calendars_in_trimmed(rs.drop_first());
        let rest = calendars_in(rs.drop_first());
        if let Some(c) = calendar_in_response(rs[0]) {
            let r = rs[0];
            lemma_element_text_trimmed(
                r,
                crate::caldav::response_href_starts(),
                crate::caldav::response_href_ends(),
            );
            lemma_element_text_trimmed(
                r,
                crate::caldav::displayname_starts(),
                crate::caldav::displayname_ends(),
            );
            reveal_strlit("Unnamed Calendar");
            let u = "Unnamed Calendar"@;
            assert(trim_start(u) == u);
            assert(trim_end(u) == u);
            assert forall|i: int| 0 <= i < calendars_in(rs).len() implies trim(
                (#[trigger] calendars_in(rs)[i]).url,
            ) == calendars_in(rs)[i].url && trim(calendars_in(rs)[i].display_name)
                == calendars_in(rs)[i].display_name by {
                if i > 0 {
                    assert(calendars_in(rs)[i] == rest[i - 1]);
                }
            }
        }
    }
}

/// Every listed calendar's href and display name carry no leading or
/// trailing whitespace.
pub proof fn law_listed_calendars_trimmed(xml: Seq<char>)
    ensures
        forall|i: int|
            0 <= i < parsed_calendars(xml).len() ==> trim((#[trigger] parsed_calendars(xml)[i]).url)
                == parsed_calendars(xml)[i].url && trim(parsed_calendars(xml)[i].display_name)
                == parsed_calendars(xml)[i].display_name,
{
    lemma_calendars_in_trimmed(split(xml, "<response"@).drop_first());
}

// ---------------------------------------------------------------------------
// responses without the elements searched for
// ---------------------------------------------------------------------------

/// A pattern holding `t` is found nowhere in a text that does not contain `t`.
proof fn lemma_absent_pattern(s: Seq<char>, sp: Seq<char>, k: int, t: Seq<char>, from: int)
    requires
        0 <= from,
        occurs_at(sp, k, t),
        !contains(s, t),
    ensures
        find_from(s, sp, from) is None,
{
    lemma_find_from(s, sp, from);
    if let Some(i) = find_from(s, sp, from) {
        assert forall|j: int| 0 <= j < t.len() implies #[trigger] s[i + k + j] == t[j] by {
            assert(s.subrange(i, i + sp.len())[k + j] == s[i + k + j]);
            assert(sp.subrange(k, k + t.len())[j] == sp[k + j]);
        }
        assert(s.subrange(i + k, i + k + t.len()) =~= t);
        assert(occurs_at(s, i + k, t));
    }
}

proof fn lemma_events_over_absent(s: Seq<char>, starts: Seq<Seq<char>>, ends: Seq<Seq<char>>)
    requires
        forall|k: int| 0 <= k < starts.len() ==> find_from(s, #[trigger] starts[k], 0) is None,
    ensures
        events_over(s, starts, ends).len() == 0,
    decreases starts.len(),
{
    if starts.len() > 0 {
        assert(find_from(s, starts[0], 0) is None);
        assert forall|k: int| 0 <= k < starts.drop_first().len() implies find_from(
            s,
            #[trigger] starts.drop_first()[k],
            0,
        ) is None by {
            assert(starts.drop_first()[k] == starts[k + 1]);
        }
        lemma_events_over_absent(s, starts.drop_first(), ends);
    }
}

/// A calendar-query response that holds no `calendar-data` element yields
/// no events.
pub proof fn law_no_calendar_data_no_events(xml: Seq<char>)
    requires
        !contains(xml, "calendar-data"@),
    ensures
        extracted_events(xml).len() == 0,
{
    let t = "calendar-data"@;
    let st = calendar_data_starts();
    reveal_strlit("calendar-data");
    reveal_strlit("<calendar-data xmlns=");
    reveal_strlit("<calendar-data>");
    reveal_strlit("<c:calendar-data>");
    reveal_strlit("<C:calendar-data>");
    reveal_strlit("<cal:calendar-data>");
    assert(st[0].subrange(1, 14) =~= t);
    assert(st[1].subrange(1, 14) =~= t);
    assert(st[2].subrange(3, 16) =~= t);
    assert(st[3].subrange(3, 16) =~= t);
    assert(st[4].subrange(5, 18) =~= t);
    lemma_absent_pattern(xml, st[0], 1, t, 0);
    lemma_absent_pattern(xml, st[1], 1, t, 0);
    lemma_absent_pattern(xml, st[2], 3, t, 0);
    lemma_absent_pattern(xml, st[3], 3, t, 0);
    lemma_absent_pattern(xml, st[4], 5, t, 0);
    lemma_events_over_absent(xml, st, calendar_data_ends());
}

proof fn lemma_href_in_starts_absent(
    s: Seq<char>,
    from: int,
    starts: Seq<Seq<char>>,
    ends: Seq<Seq<char>>,
)
    requires
        forall|k: int| 0 <= k < starts.len() ==> find_from(s, #[trigger] starts[k], from) is None,
    ensures
        href_in_starts(s, from, starts, ends) is None,
    decreases starts.len(),
{
    if starts.len() > 0 {
        assert(find_from(s, starts[0], from) is None);
        assert forall|k: int| 0 <= k < starts.drop_first().len() implies find_from(
            s,
            #[trigger] starts.drop_first()[k],
            from,
        ) is None by {
            assert(starts.drop_first()[k] == starts[k + 1]);
        }
        lemma_href_in_starts_absent(s, from, starts.drop_first(), ends);
    }
}

proof fn lemma_href_search_start(xml: Seq<char>, context: Seq<char>)
    ensures
        0 <= href_search_start(xml, context) <= xml.len(),
{
    lemma_find_from(xml, "current-user-principal"@, 0);
    lemma_find_from(xml, "calendar-home-set"@, 0);
}

/// A discovery response without any `href` element names no href.
pub proof fn law_no_href_tag_no_href(xml: Seq<char>, context: Seq<char>)
    requires
        !contains(xml, "href"@),
        !contains(xml, "HREF"@),
    ensures
        extracted_href(xml, context) is None,
{
    let lower = "href"@;
    let upper = "HREF"@;
    let st = href_start_patterns();
    let from = href_search_start(xml, context);
    lemma_href_search_start(xml, context);
    reveal_strlit("href");
    reveal_strlit("HREF");
    reveal_strlit("<d:href>");
    reveal_strlit("<D:href>");
    reveal_strlit("<href>");
    reveal_strlit("<href ");
    reveal_strlit("<HREF>");
    reveal_strlit("<HREF ");
    assert(st[0].subrange(3, 7) =~= lower);
    assert(st[1].subrange(3, 7) =~= lower);
    assert(st[2].subrange(1, 5) =~= lower);
    assert(st[3].subrange(1, 5) =~= lower);
    assert(st[4].subrange(1, 5) =~= upper);
    assert(st[5].subrange(1, 5) =~= upper);
    lemma_absent_pattern(xml, st[0], 3, lower, from);
    lemma_absent_pattern(xml, st[1], 3, lower, from);
    lemma_absent_pattern(xml, st[2], 1, lower, from);
    lemma_absent_pattern(xml, st[3], 1, lower, from);
    lemma_absent_pattern(xml, st[4], 1, upper, from);
    lemma_absent_pattern(xml, st[5], 1, upper, from);
    lemma_href_in_starts_absent(xml, from, st, crate::caldav::href_end_patterns());
}

// ---------------------------------------------------------------------------
// discovered hrefs come from the response
// ---------------------------------------------------------------------------

/// `trim(x)` is a slice of `x`, starting at the returned index.
proof fn lemma_trim_slice(x: Seq<char>) -> (a: int)
    ensures
        0 <= a,
        a + trim(x).len() <= x.len(),
        x.subrange(a, a + trim(x).len()) == trim(x),
{
    lemma_trim_start(x);
    let t = trim_start(x);
    lemma_trim_end(t);
    let r = trim_end(t);
    let a = x.len() - t.len();
    assert(x.subrange(a, a + r.len()) =~= r) by {
        assert forall|j: int| 0 <= j < r.len() implies #[trigger] x.subrange(a, a + r.len())[j]
            == r[j] by {
            assert(r[j] == t.subrange(0, r.len() as int)[j]);
            assert(t[j] == x.subrange(a, x.len() as int)[j]);
        }
    }
    a
}

proof fn lemma_href_in_ends_occurs(s: Seq<char>, cs: int, ends: Seq<Seq<char>>)
    requires
        0 <= cs <= s.len(),
    ensures
        href_in_ends(s, cs, ends) matches Some(h) ==> contains(s, h),
    decreases ends.len(),
{
    if ends.len() > 0 {
        lemma_href_in_ends_occurs(s, cs, ends.drop_first());
        lemma_find_from(s, ends[0], cs);
        if let Some(e) = find_from(s, ends[0], cs) {
            let x = s.subrange(cs, e);
            let h = trim(x);
            let a = lemma_trim_slice(x);
            assert(s.subrange(cs + a, cs + a + h.len()) =~= x.subrange(a, a + h.len()));
            assert(occurs_at(s, cs + a, h));
        }
    }
}

proof fn lemma_href_in_starts_occurs(
    s: Seq<char>,
    from: int,
    starts: Seq<Seq<char>>,
    ends: Seq<Seq<char>>,
)
    requires
        0 <= from,
    ensures
        href_in_starts(s, from, starts, ends) matches Some(h) ==> contains(s, h),
    decreases starts.len(),
{
    if starts.len() > 0 {
        lemma_href_in_starts_occurs(s, from, starts.drop_first(), ends);
        lemma_find_from(s, starts[0], from);
        if let Some(st) = find_from(s, starts[0], from) {
            lemma_find_from(s, seq!['>'], st + starts[0].len());
            if let Some(cs) = content_start(s, starts[0], st + starts[0].len()) {
                lemma_href_in_ends_occurs(s, cs, ends);
            }
        }
    }
}

/// A discovered href is text that occurs in the response.
pub proof fn law_extracted_href_occurs(xml: Seq<char>, context: Seq<char>)
    ensures
        extracted_href(xml, context) matches Some(h) ==> contains(xml, h),
{
    lemma_href_search_start(xml, context);
    lemma_href_in_starts_occurs(
        xml,
        href_search_start(xml, context),
        href_start_patterns(),
        crate::caldav::href_end_patterns(),
    );
}

// ---------------------------------------------------------------------------
// the command-line export as a whole
// ---------------------------------------------------------------------------

/// The export document is the concatenation, over the calendars taken in and
/// in their order, of what each adds: its VCALENDAR and a blank line when it
/// was fetched and holds events, nothing when it failed or holds none.
pub proof fn law_export_is_concatenation(h: Seq<ExportStep>)
    ensures
        export_text(h) == h.map_values(|x: ExportStep| export_piece(x)).flatten(),
    decreases h.len(),
{
    if h.len() > 0 {
        let init = h.drop_last();
        law_export_is_concatenation(init);
        let f = |x: ExportStep| export_piece(x);
        let m = h.map_values(f);
        assert(m =~= init.map_values(f) + seq![export_piece(h.last())]);
        lemma_flatten_concat(init.map_values(f), seq![export_piece(h.last())]);
        let one = seq![export_piece(h.last())];
        assert(one.drop_first() =~= Seq::<Seq<char>>::empty());
        assert(one.drop_first().flatten() == Seq::<char>::empty());
        assert(one.first() == export_piece(h.last()));
        assert(one.flatten() =~= export_piece(h.last()));
    }
}

/// No more calendars are counted as exported or failed than were taken in.
pub proof fn law_export_counts_bounded(h: Seq<ExportStep>)
    ensures
        exported_in(h) + failed_in(h) <= h.len(),
    decreases h.len(),
{
    if h.len() > 0 {
        law_export_counts_bounded(h.drop_last());
    }
}

// ---------------------------------------------------------------------------
// which calendars are listed and exported
// ---------------------------------------------------------------------------

/// No listed calendar is the scheduling inbox or outbox, the notification
/// collection or the calendar home itself: no href ends in `/inbox/`,
/// `/outbox/`, `/notification/` or `/calendars/`.
pub proof fn law_listed_calendars_skip_special_collections(xml: Seq<char>)
    ensures
        forall|i: int|
            0 <= i < parsed_calendars(xml).len() ==> {
                let u = (#[trigger] parsed_calendars(xml)[i]).url;
                &&& !ends_with(u, "/inbox/"@)
                &&& !ends_with(u, "/outbox/"@)
                &&& !ends_with(u, "/notification/"@)
                &&& !ends_with(u, "/calendars/"@)
            },
{
    law_listed_calendars_well_formed(xml);
}

/// Without a filter an export covers every calendar, in order.
pub proof fn law_export_without_filter_takes_all(cs: Seq<CalendarRecord>)
    ensures
        export_selection(cs, None) == cs,
{
}

// ---------------------------------------------------------------------------
// discovered hrefs come from after the property's name
// ---------------------------------------------------------------------------

/// `h` is the trimmed text of a slice of `s` that begins at or after `from`.
pub open spec fn trimmed_slice_from(s: Seq<char>, from: int, h: Seq<char>) -> bool {
    exists|cs: int, e: int| from <= cs <= e <= s.len() && h == #[trigger] trim(s.subrange(cs, e))
}

proof fn lemma_href_in_ends_from(s: Seq<char>, cs: int, ends: Seq<Seq<char>>)
    requires
        0 <= cs <= s.len(),
    ensures
        href_in_ends(s, cs, ends) matches Some(h) ==> trimmed_slice_from(s, cs, h),
    decreases ends.len(),
{
    if ends.len() > 0 {
        lemma_href_in_ends_from(s, cs, ends.drop_first());
        lemma_find_from(s, ends[0], cs);
        if let Some(e) = find_from(s, ends[0], cs) {
            let h = trim(s.subrange(cs, e));
            assert(cs <= cs <= e <= s.len() && h == trim(s.subrange(cs, e)));
        }
    }
}

proof fn lemma_href_in_starts_from(
    s: Seq<char>,
    from: int,
    starts: Seq<Seq<char>>,
    ends: Seq<Seq<char>>,
)
    requires
        0 <= from,
    ensures
        href_in_starts(s, from, starts, ends) matches Some(h) ==> trimmed_slice_from(s, from, h),
    decreases starts.len(),
{
    if starts.len() > 0 {
        lemma_href_in_starts_from(s, from, starts.drop_first(), ends);
        lemma_find_from(s, starts[0], from);
        if let Some(st) = find_from(s, starts[0], from) {
            lemma_find_from(s, seq!['>'], st + starts[0].len());
            if let Some(cs) = content_start(s, starts[0], st + starts[0].len()) {
                lemma_href_in_ends_from(s, cs, ends);
                if let Some(h) = href_in_ends(s, cs, ends) {
                    let (c2, e2) = choose|c2: int, e2: int|
                        cs <= c2 <= e2 <= s.len() && h == #[trigger] trim(s.subrange(c2, e2));
                    assert(from <= c2 <= e2 <= s.len() && h == trim(s.subrange(c2, e2)));
                }
            }
        }
    }
}

/// The calendar home is read after the first occurrence of
/// `calendar-home-set`: the href search starts there, so the href found is
/// trimmed text taken from at or after that occurrence, never from the
/// response's own `href` before it.
pub proof fn law_calendar_home_href_after_property(xml: Seq<char>, i: int)
    requires
        occurs_at(xml, i, "calendar-home-set"@),
        forall|j: int| 0 <= j < i ==> !occurs_at(xml, j, "calendar-home-set"@),
    ensures
        extracted_href(xml, "calendar-home-set"@) == href_in_starts(
            xml,
            i,
            href_start_patterns(),
            crate::caldav::href_end_patterns(),
        ),
        extracted_href(xml, "calendar-home-set"@) matches Some(h) ==> trimmed_slice_from(xml, i, h),
{
    reveal_strlit("calendar-home-set");
    reveal_strlit("current-user-principal");
    assert("calendar-home-set"@ != "current-user-principal"@);
    lemma_find_from(xml, "calendar-home-set"@, 0);
    assert(href_search_start(xml, "calendar-home-set"@) == i);
    lemma_href_in_starts_from(xml, i, href_start_patterns(), crate::caldav::href_end_patterns());
}

/// The principal is read after the first occurrence of
/// `current-user-principal`, in the same way.
pub proof fn law_principal_href_after_property(xml: Seq<char>, i: int)
    requires
        occurs_at(xml, i, "current-user-principal"@),
        forall|j: int| 0 <= j < i ==> !occurs_at(xml, j, "current-user-principal"@),
    ensures
        extracted_href(xml, "current-user-principal"@) == href_in_starts(
            xml,
            i,
            href_start_patterns(),
            crate::caldav::href_end_patterns(),
        ),
        extracted_href(xml, "current-user-principal"@) matches Some(h) ==> trimmed_slice_from(
            xml,
            i,
            h,
        ),
{
    lemma_find_from(xml, "current-user-principal"@, 0);
    assert(href_search_start(xml, "current-user-principal"@) == i);
    lemma_href_in_starts_from(xml, i, href_start_patterns(), crate::caldav::href_end_patterns());
}

// ---------------------------------------------------------------------------
// XML entities in calendar data
// ---------------------------------------------------------------------------

/// No character of `s` is `c`.
pub open spec fn free_of(s: Seq<char>, c: char) -> bool {
    forall|j: int| 0 <= j < s.len() ==> s[j] != c
}

/// `p` has the shape of an XML entity: `&`, then characters other than `;`,
/// then `;`.
spec fn entity_shaped(p: Seq<char>) -> bool {
    &&& p.len() > 0
    &&& p[0] == '&'
    &&& p[p.len() - 1] == ';'
    &&& forall|j: int| 0 <= j < p.len() - 1 ==> p[j] != ';'
}

/// `x` holds `;` at most as its last character and `&` at most as its first.
spec fn marks_at_ends(x: Seq<char>) -> bool {
    &&& forall|j: int| 0 <= j < x.len() - 1 ==> x[j] != ';'
    &&& forall|j: int| 1 <= j < x.len() ==> x[j] != '&'
}

proof fn lemma_replace_identity(s: Seq<char>, p: Seq<char>, r: Seq<char>, i: int)
    requires
        p.len() > 0,
        p[0] == '&',
        0 <= i <= s.len(),
        forall|j: int| i <= j < s.len() ==> s[j] != '&',
    ensures
        replace_from(s, p, r, i) == s.subrange(i, s.len() as int),
    decreases s.len() - i,
{
    if i + p.len() <= s.len() {
        assert(!occurs_at(s, i, p)) by {
            assert(s.subrange(i, i + p.len())[0] == s[i]);
        }
        lemma_replace_identity(s, p, r, i + 1);
        assert(seq![s[i]] + s.subrange(i + 1, s.len() as int) =~= s.subrange(i, s.len() as int));
    }
}

proof fn lemma_replace_skip(s: Seq<char>, p: Seq<char>, r: Seq<char>, i: int, k: int)
    requires
        p.len() > 0,
        p[0] == '&',
        0 <= i <= k <= s.len(),
        forall|j: int| i <= j < k ==> s[j] != '&',
    ensures
        replace_from(s, p, r, i) == s.subrange(i, k) + replace_from(s, p, r, k),
    decreases k - i,
{
    if i == k {
        assert(s.subrange(i, k) + replace_from(s, p, r, k) =~= replace_from(s, p, r, k));
    } else if i + p.len() > s.len() {
        assert(s.subrange(i, k) + s.subrange(k, s.len() as int) =~= s.subrange(i, s.len() as int));
    } else {
        assert(!occurs_at(s, i, p)) by {
            assert(s.subrange(i, i + p.len())[0] == s[i]);
        }
        lemma_replace_skip(s, p, r, i + 1, k);
        let rest = replace_from(s, p, r, k);
        assert(seq![s[i]] + (s.subrange(i + 1, k) + rest) =~= s.subrange(i, k) + rest);
    }
}

/// One replacement pass over `a + x + b` touches at most `x`.
proof fn lemma_entity_pass(a: Seq<char>, x: Seq<char>, b: Seq<char>, p: Seq<char>, r: Seq<char>)
    requires
        free_of(a, '&'),
        free_of(b, '&'),
        free_of(b, ';'),
        marks_at_ends(x),
        entity_shaped(p),
    ensures
        replace_all(a + x + b, p, r) == a + (if x == p {
            r
        } else {
            x
        }) + b,
{
    let s = a + x + b;
    let k = a.len() as int;
    assert forall|j: int| 0 <= j < k implies s[j] != '&' by {
        assert(s[j] == a[j]);
    }
    assert forall|j: int| k + x.len() <= j < s.len() implies s[j] != '&' && s[j] != ';' by {
        assert(s[j] == b[j - k - x.len()]);
    }
    assert forall|j: int| k + 1 <= j < k + x.len() implies s[j] != '&' by {
        assert(s[j] == x[j - k]);
    }
    if x.len() == 0 || x[0] != '&' {
        assert forall|j: int| 0 <= j < s.len() implies s[j] != '&' by {
            if k <= j < k + x.len() {
                assert(s[j] == x[j - k]);
            }
        }
        lemma_replace_identity(s, p, r, 0);
        assert(s.subrange(0, s.len() as int) =~= s);
        assert(x != p);
    } else {
        lemma_replace_skip(s, p, r, 0, k);
        assert(s.subrange(0, k) =~= a);
        if k + p.len() > s.len() {
            assert(x != p);
            assert(s.subrange(k, s.len() as int) =~= x + b);
        } else if occurs_at(s, k, p) {
            let m = p.len() - 1;
            assert(s[k + m] == ';') by {
                assert(s.subrange(k, k + p.len())[m] == s[k + m]);
            }
            if m >= x.len() {
                assert(false);
            }
            assert(s[k + m] == x[m]);
            assert(m == x.len() - 1);
            assert(x =~= p) by {
                assert forall|j: int| 0 <= j < x.len() implies x[j] == p[j] by {
                    assert(s.subrange(k, k + p.len())[j] == s[k + j]);
                    assert(s[k + j] == x[j]);
                }
            }
            lemma_replace_identity(s, p, r, k + p.len());
            assert(s.subrange(k + p.len(), s.len() as int) =~= b);
        } else {
            assert(x != p) by {
                if x == p {
                    assert(s.subrange(k, k + p.len()) =~= p);
                }
            }
            lemma_replace_identity(s, p, r, k + 1);
            assert(seq![s[k]] + s.subrange(k + 1, s.len() as int) =~= x + b);
        }
    }
    assert(a + ((if x == p {
        r
    } else {
        x
    }) + b) =~= a + (if x == p {
        r
    } else {
        x
    }) + b);
}

proof fn lemma_entities_shaped()
    ensures
        entity_shaped("&lt;"@),
        entity_shaped("&gt;"@),
        entity_shaped("&amp;"@),
        entity_shaped("&quot;"@),
        entity_shaped("&#13;"@),
        marks_at_ends("&lt;"@),
        marks_at_ends("&gt;"@),
        marks_at_ends("&amp;"@),
        marks_at_ends("&quot;"@),
        marks_at_ends("&#13;"@),
        marks_at_ends("<"@),
        marks_at_ends(">"@),
        marks_at_ends("&"@),
        marks_at_ends("\""@),
        marks_at_ends("\r"@),
        "&lt;"@ != "&gt;"@,
        "&lt;"@ != "&amp;"@,
        "&lt;"@ != "&quot;"@,
        "&lt;"@ != "&#13;"@,
        "&gt;"@ != "&amp;"@,
        "&gt;"@ != "&quot;"@,
        "&gt;"@ != "&#13;"@,
        "&amp;"@ != "&quot;"@,
        "&amp;"@ != "&#13;"@,
        "&quot;"@ != "&#13;"@,
        "<"@.len() == 1,
        ">"@.len() == 1,
        "&"@.len() == 1,
        "\""@.len() == 1,
        "\r"@.len() == 1,
{
    reveal_strlit("&lt;");
    reveal_strlit("&gt;");
    reveal_strlit("&amp;");
    reveal_strlit("&quot;");
    reveal_strlit("&#13;");
    reveal_strlit("<");
    reveal_strlit(">");
    reveal_strlit("&");
    reveal_strlit("\"");
    reveal_strlit("\r");
    assert("&lt;"@[1] != "&gt;"@[1]);
    assert("&lt;"@.len() != "&amp;"@.len());
    assert("&lt;"@.len() != "&quot;"@.len());
    assert("&lt;"@.len() != "&#13;"@.len());
    assert("&gt;"@.len() != "&amp;"@.len());
    assert("&gt;"@.len() != "&quot;"@.len());
    assert("&gt;"@.len() != "&#13;"@.len());
    assert("&amp;"@.len() != "&quot;"@.len());
    assert("&amp;"@[1] != "&#13;"@[1]);
    assert("&quot;"@.len() != "&#13;"@.len());
}

/// The five unescaping passes over `a + x + b`, with `x` rewritten by each
/// pass that matches it.
proof fn lemma_unescape_around(a: Seq<char>, x: Seq<char>, b: Seq<char>)
    requires
        free_of(a, '&'),
        free_of(b, '&'),
        free_of(b, ';'),
        marks_at_ends(x),
        x.len() <= 1 || entity_shaped(x),
    ensures
        crate::caldav::unescape_xml(a + x + b) == a + {
            let x1 = if x == "&lt;"@ { "<"@ } else { x };
            let x2 = if x1 == "&gt;"@ { ">"@ } else { x1 };
            let x3 = if x2 == "&amp;"@ { "&"@ } else { x2 };
            let x4 = if x3 == "&quot;"@ { "\""@ } else { x3 };
            if x4 == "&#13;"@ { "\r"@ } else { x4 }
        } + b,
{
    lemma_entities_shaped();
    let x1 = if x == "&lt;"@ { "<"@ } else { x };
    let x2 = if x1 == "&gt;"@ { ">"@ } else { x1 };
    let x3 = if x2 == "&amp;"@ { "&"@ } else { x2 };
    let x4 = if x3 == "&quot;"@ { "\""@ } else { x3 };
    lemma_entity_pass(a, x, b, "&lt;"@, "<"@);
    lemma_entity_pass(a, x1, b, "&gt;"@, ">"@);
    lemma_entity_pass(a, x2, b, "&amp;"@, "&"@);
    lemma_entity_pass(a, x3, b, "&quot;"@, "\""@);
    lemma_entity_pass(a, x4, b, "&#13;"@, "\r"@);
}

/// Text that does not begin a CDATA section is unescaped as it stands.
proof fn lemma_no_cdata(s: Seq<char>)
    requires
        s.len() > 0,
        s[0] != '<',
    ensures
        crate::caldav::strip_cdata(s) == s,
{
    reveal_strlit("<![CDATA[");
    if starts_with(s, "<![CDATA["@) {
        assert(s.subrange(0, 9)[0] == s[0]);
    }
}

/// Calendar data is unescaped entity by entity: between text free of `&`,
/// `;` and `<`, each of `&lt;`, `&gt;`, `&amp;`, `&quot;` and `&#13;`
/// becomes its character and nothing else changes.
pub proof fn law_calendar_data_entities_unescaped(a: Seq<char>, b: Seq<char>)
    requires
        free_of(a, '&'),
        free_of(a, ';'),
        free_of(a, '<'),
        free_of(b, '&'),
        free_of(b, ';'),
        free_of(b, '<'),
    ensures
        calendar_payload(a + "&lt;"@ + b) == a + "<"@ + b,
        calendar_payload(a + "&gt;"@ + b) == a + ">"@ + b,
        calendar_payload(a + "&amp;"@ + b) == a + "&"@ + b,
        calendar_payload(a + "&quot;"@ + b) == a + "\""@ + b,
        calendar_payload(a + "&#13;"@ + b) == a + "\r"@ + b,
        calendar_payload(a + b) == a + b,
{
    lemma_entities_shaped();
    reveal_strlit("&lt;");
    reveal_strlit("&gt;");
    reveal_strlit("&amp;");
    reveal_strlit("&quot;");
    reveal_strlit("&#13;");
    let es = seq!["&lt;"@, "&gt;"@, "&amp;"@, "&quot;"@, "&#13;"@];
    assert forall|k: int| 0 <= k < 5 implies crate::caldav::strip_cdata(
        a + #[trigger] es[k] + b,
    ) == a + es[k] + b by {
        let s = a + es[k] + b;
        if a.len() > 0 {
            assert(s[0] == a[0]);
        } else {
            assert(s[0] == es[k][0]);
        }
        lemma_no_cdata(s);
    }
    assert(es[0] == "&lt;"@);
    assert(es[1] == "&gt;"@);
    assert(es[2] == "&amp;"@);
    assert(es[3] == "&quot;"@);
    assert(es[4] == "&#13;"@);
    lemma_unescape_around(a, "&lt;"@, b);
    lemma_unescape_around(a, "&gt;"@, b);
    lemma_unescape_around(a, "&amp;"@, b);
    lemma_unescape_around(a, "&quot;"@, b);
    lemma_unescape_around(a, "&#13;"@, b);
    let e = Seq::<char>::empty();
    assert(a + e + b =~= a + b);
    assert(marks_at_ends(e));
    lemma_unescape_around(a, e, b);
    if (a + b).len() > 0 {
        if a.len() > 0 {
            assert((a + b)[0] == a[0]);
        } else {
            assert((a + b)[0] == b[0]);
        }
        lemma_no_cdata(a + b);
    } else {
        reveal_strlit("<![CDATA[");
    }
}

// ---------------------------------------------------------------------------
// every calendar-data element contributes its events
// ---------------------------------------------------------------------------

/// The opening tag that iCloud writes for a `calendar-data` element.
pub open spec fn calendar_data_open() -> Seq<char> {
    "<calendar-data xmlns=\"urn:ietf:params:xml:ns:caldav\">"@
}

/// A `calendar-data` element holding `p`.
pub open spec fn calendar_data_element(p: Seq<char>) -> Seq<char> {
    calendar_data_open() + p + "</calendar-data>"@
}

/// The `calendar-data` elements holding `ps`, one after the other.
pub open spec fn calendar_data_elements(ps: Seq<Seq<char>>) -> Seq<char>
    decreases ps.len(),
{
    if ps.len() == 0 {
        seq![]
    } else {
        calendar_data_element(ps[0]) + calendar_data_elements(ps.drop_first())
    }
}

/// iCalendar text that needs no escaping (no `<`, no `&`) and holds a
/// VCALENDAR or a VEVENT.
pub open spec fn plain_calendar_text(p: Seq<char>) -> bool {
    &&& free_of(p, '<')
    &&& free_of(p, '&')
    &&& (contains(p, "BEGIN:VCALENDAR"@) || contains(p, "BEGIN:VEVENT"@))
}

/// A search that finds nothing in `[a, b)` gives the same answer from `a`
/// as from `b`.
proof fn lemma_find_skip(s: Seq<char>, pat: Seq<char>, a: int, b: int)
    requires
        0 <= a <= b,
        forall|j: int| a <= j < b ==> !occurs_at(s, j, pat),
    ensures
        find_from(s, pat, a) == find_from(s, pat, b),
    decreases b - a,
{
    if a < b && a + pat.len() <= s.len() {
        lemma_find_skip(s, pat, a + 1, b);
    }
}

proof fn lemma_literals_of_elements()
    ensures
        calendar_data_starts()[0] == "<calendar-data xmlns="@,
        calendar_data_ends()[0] == "</calendar-data>"@,
        "<calendar-data xmlns="@.len() == 21,
        calendar_data_open().len() == 53,
        "</calendar-data>"@.len() == 16,
        forall|j: int| 0 <= j < 21 ==> calendar_data_open()[j] == "<calendar-data xmlns="@[j],
        forall|j: int| 21 <= j < 52 ==> calendar_data_open()[j] != '>',
        calendar_data_open()[52] == '>',
        "</calendar-data>"@[0] == '<',
        "</calendar-data>"@[1] == '/',
        forall|j: int| 1 <= j < 16 ==> "</calendar-data>"@[j] != '<',
        "<calendar-data xmlns="@[1] == 'c',
        "<calendar-data xmlns="@[0] == '<',
        "<calendar-data xmlns="@[14] == ' ',
        tag_has_attributes("<calendar-data xmlns="@),
{
    reveal_strlit("<calendar-data xmlns=");
    reveal_strlit("<calendar-data xmlns=\"urn:ietf:params:xml:ns:caldav\">");
    reveal_strlit("</calendar-data>");
    reveal_strlit("<calendar-data>");
    reveal_strlit("<c:calendar-data>");
    reveal_strlit("<C:calendar-data>");
    reveal_strlit("<cal:calendar-data>");
    assert("<calendar-data xmlns="@.contains(' ')) by {
        assert("<calendar-data xmlns="@[14] == ' ');
    }
}

/// Scanning `s` from `pos` with the first opening tag, where `s` holds
/// nothing from `pos` on but the elements of `ps`, yields exactly `ps`.
proof fn lemma_events_of_elements(s: Seq<char>, pos: int, ps: Seq<Seq<char>>)
    requires
        0 <= pos <= s.len(),
        s.subrange(pos, s.len() as int) == calendar_data_elements(ps),
        forall|k: int| 0 <= k < ps.len() ==> plain_calendar_text(#[trigger] ps[k]),
    ensures
        events_for_pattern(s, "<calendar-data xmlns="@, calendar_data_ends(), pos) == ps,
    decreases ps.len(),
{
    lemma_literals_of_elements();
    let sp = "<calendar-data xmlns="@;
    let close = "</calendar-data>"@;
    let open = calendar_data_open();
    let ends = calendar_data_ends();
    if ps.len() == 0 {
        assert(s.subrange(pos, s.len() as int).len() == 0);
        assert(pos + sp.len() > s.len());
    } else {
        let p = ps[0];
        let rest = ps.drop_first();
        let r = calendar_data_elements(rest);
        assert(plain_calendar_text(p));
        let t = s.subrange(pos, s.len() as int);
        assert(t == open + p + close + r);
        let c = pos + 53;
        let e = c + p.len();
        let next = e + 16;
        assert(s.len() == next + r.len());
        assert forall|j: int| 0 <= j < 53 implies #[trigger] s[pos + j] == open[j] by {
            assert(t[j] == s[pos + j]);
            assert((open + p + close + r)[j] == open[j]);
        }
        assert forall|j: int| 0 <= j < p.len() implies #[trigger] s[c + j] == p[j] by {
            assert(t[53 + j] == s[c + j]);
            assert((open + p + close + r)[53 + j] == p[j]);
        }
        assert forall|j: int| 0 <= j < 16 implies #[trigger] s[e + j] == close[j] by {
            assert(t[53 + p.len() + j] == s[e + j]);
            assert((open + p + close + r)[53 + p.len() + j] == close[j]);
        }
        assert(s.subrange(next, s.len() as int) =~= r) by {
            assert forall|j: int| 0 <= j < r.len() implies s.subrange(next, s.len() as int)[j]
                == r[j] by {
                assert(t[53 + p.len() + 16 + j] == s[next + j]);
                assert((open + p + close + r)[53 + p.len() + 16 + j] == r[j]);
            }
        }
        // the opening tag is found at `pos`
        assert(s.subrange(pos, pos + 21) =~= sp);
        assert(occurs_at(s, pos, sp));
        assert(find_from(s, sp, pos) == Some(pos));
        // its `>` ends the tag
        let gt = seq!['>'];
        assert forall|j: int| pos + 21 <= j < c - 1 implies !occurs_at(s, j, gt) by {
            assert(s.subrange(j, j + 1)[0] == s[j]);
            assert(s[pos + (j - pos)] == open[j - pos]);
        }
        assert(s.subrange(c - 1, c) =~= gt) by {
            assert(s[pos + 52] == open[52]);
        }
        lemma_find_skip(s, gt, pos + 21, c - 1);
        assert(find_from(s, gt, c - 1) == Some(c - 1));
        // the closing tag follows the text
        assert forall|j: int| c <= j < e implies !occurs_at(s, j, close) by {
            assert(s.subrange(j, j + 16)[0] == s[j]);
            assert(s[c + (j - c)] == p[j - c]);
        }
        assert(s.subrange(e, e + 16) =~= close) by {
            assert forall|j: int| 0 <= j < 16 implies s.subrange(e, e + 16)[j] == close[j] by {
                assert(s[e + j] == close[j]);
            }
        }
        lemma_find_skip(s, close, c, e);
        assert(find_from(s, close, e) == Some(e));
        assert(first_end(s, c, ends) == Some(e));
        // the text is taken as it stands
        assert(s.subrange(c, e) =~= p) by {
            assert forall|j: int| 0 <= j < p.len() implies s.subrange(c, e)[j] == p[j] by {
                assert(s[c + j] == p[j]);
            }
        }
        lemma_unescape_around(p, Seq::<char>::empty(), Seq::<char>::empty());
        assert(p + Seq::<char>::empty() + Seq::<char>::empty() =~= p);
        reveal_strlit("<![CDATA[");
        reveal_strlit("BEGIN:VCALENDAR");
        reveal_strlit("BEGIN:VEVENT");
        assert(p.len() > 0);
        lemma_no_cdata(p);
        lemma_entities_shaped();
        let none = Seq::<char>::empty();
        assert(none != "&lt;"@ && none != "&gt;"@ && none != "&amp;"@ && none != "&quot;"@
            && none != "&#13;"@);
        assert(calendar_payload(p) == p);
        assert(looks_like_icalendar(p));
        // the search goes on past the closing tag
        assert forall|j: int| e <= j < next implies !occurs_at(s, j, sp) by {
            if j + 21 <= s.len() {
                if j == e {
                    assert(s.subrange(e, e + 21)[1] == s[e + 1]);
                    assert(s[e + 1] == close[1]);
                } else {
                    assert(s.subrange(j, j + 21)[0] == s[j]);
                    assert(s[e + (j - e)] == close[j - e]);
                }
            }
        }
        lemma_find_skip(s, sp, e, next);
        assert forall|k: int| 0 <= k < rest.len() implies plain_calendar_text(#[trigger] rest[k]) by {
            assert(rest[k] == ps[k + 1]);
        }
        lemma_events_of_elements(s, next, rest);
        assert(events_for_pattern(s, sp, ends, e) == events_for_pattern(s, sp, ends, next));
        assert(events_for_pattern(s, sp, ends, pos) == seq![p] + events_for_pattern(
            s,
            sp,
            ends,
            e,
        ));
        assert(seq![p] + rest =~= ps);
    }
}

/// Every `calendar-data` element of a calendar-query response contributes
/// its iCalendar text, in document order: a response made of elements
/// holding the texts `ps` yields exactly `ps`, one text per element.
pub proof fn law_every_calendar_data_element_contributes(ps: Seq<Seq<char>>)
    requires
        forall|k: int| 0 <= k < ps.len() ==> plain_calendar_text(#[trigger] ps[k]),
    ensures
        extracted_events(calendar_data_elements(ps)) == ps,
{
    lemma_literals_of_elements();
    let s = calendar_data_elements(ps);
    assert(s.subrange(0, s.len() as int) =~= s);
    lemma_events_of_elements(s, 0, ps);
    let starts = calendar_data_starts();
    if ps.len() == 0 {
        assert forall|k: int| 0 <= k < starts.len() implies find_from(s, #[trigger] starts[k], 0)
            is None by {
            reveal_strlit("<calendar-data xmlns=");
            reveal_strlit("<calendar-data>");
            reveal_strlit("<c:calendar-data>");
            reveal_strlit("<C:calendar-data>");
            reveal_strlit("<cal:calendar-data>");
        }
        lemma_events_over_absent(s, starts, calendar_data_ends());
    }
}

} // verus!
