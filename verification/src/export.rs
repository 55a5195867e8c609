//! The command-line export: which calendars are exported, and how the
//! fetched calendars are gathered into one document.
use vstd::prelude::*;
use crate::caldav::{
    CalendarInfo, CalendarRecord, calendar_prodid, calendar_views, combined_calendar,
    extracted_events, string_views,
};
use crate::client::ICloudCalendarClient;
use crate::text::{chars_of, contains, contains_chars};

verus! {

/// Why an export produced nothing.
#[derive(Debug, Clone, Copy, PartialEq, Eq, Structural)]
pub enum ExportError {
    /// The account has no calendars.
    NoCalendars,
    /// No calendar's name contains the filter.
    NoMatchingCalendars,
    /// Not one of the selected calendars could be exported.
    NothingExported,
}

/// What became of one calendar of an export.
#[derive(Debug, Clone, Copy, PartialEq, Eq, Structural)]
pub enum ExportNote {
    /// Its events were added; `events` iCalendar texts were found.
    Exported { events: usize },
    /// It was fetched and holds no events.
    NoEvents,
    /// It could not be fetched.
    FetchFailed,
}

pub open spec fn opt_str_view(o: Option<&str>) -> Option<Seq<char>> {
    match o {
        Some(s) => Some(s@),
        None => None,
    }
}

/// The calendars of `cs` whose display name contains `filter`, in order.
pub open spec fn named_like(cs: Seq<CalendarRecord>, filter: Seq<char>) -> Seq<CalendarRecord> {
    cs.filter(|c: CalendarRecord| contains(c.display_name, filter))
}

/// The calendars an export covers: all of them, or those whose name contains the filter.
pub open spec fn export_selection(cs: Seq<CalendarRecord>, filter: Option<Seq<char>>) -> Seq<
    CalendarRecord,
> {
    match filter {
        None => cs,
        Some(f) => named_like(cs, f),
    }
}

/// The calendars to export: all of `calendars`, or with a filter those
/// whose display name contains it.
pub fn select_for_export(calendars: Vec<CalendarInfo>, filter: Option<&str>) -> (r: Result<
    Vec<CalendarInfo>,
    ExportError,
>)
    ensures
        calendars@.len() == 0 ==> r == Err::<Vec<CalendarInfo>, ExportError>(
            ExportError::NoCalendars,
        ),
        calendars@.len() > 0 ==> {
            let sel = export_selection(calendar_views(calendars@), opt_str_view(filter));
            if sel.len() == 0 {
                r == Err::<Vec<CalendarInfo>, ExportError>(ExportError::NoMatchingCalendars)
            } else {
                r matches Ok(v) && calendar_views(v@) == sel
            }
        },
        calendars@.len() > 0 && filter is None ==> (r matches Ok(v) && calendar_views(v@)
            == calendar_views(calendars@)),
{
    if calendars.len() == 0 {
        return Err(ExportError::NoCalendars);
    }
    match filter {
        None => Ok(calendars),
        Some(f) => {
            let wanted = chars_of(f);
            let mut chosen: Vec<CalendarInfo> = Vec::new();
            let mut i: usize = 0;
            assert(calendar_views(calendars@).take(0) =~= Seq::<CalendarRecord>::empty());
            while i < calendars.len()
                invariant
                    wanted@ == f@,
                    i <= calendars@.len(),
                    calendar_views(chosen@) == named_like(
                        calendar_views(calendars@).take(i as int),
                        f@,
                    ),
                decreases calendars@.len() - i,
            {
                let c = &calendars[i];
                let dn = chars_of(c.display_name.as_str());
                let ghost before = calendar_views(chosen@);
                proof {
                    reveal_with_fuel(Seq::<_>::filter, 1);
                }
                assert(calendar_views(calendars@).take(i + 1).drop_last() =~= calendar_views(
                    calendars@,
                ).take(i as int));
                assert(calendar_views(calendars@).take(i + 1).last() == calendars@[i as int]@);
                if contains_chars(dn.as_slice(), wanted.as_slice()) {
                    chosen.push(CalendarInfo { url: c.url.clone(), display_name: c.display_name.clone() });
                    assert(calendar_views(chosen@) =~= before.push(calendars@[i as int]@));
                } else {
                    assert(calendar_views(chosen@) =~= before);
                }
                i = i + 1;
            }
            assert(calendar_views(calendars@).take(i as int) =~= calendar_views(calendars@));
            if chosen.len() == 0 {
                Err(ExportError::NoMatchingCalendars)
            } else {
                Ok(chosen)
            }
        },
    }
}

/// One calendar taken in by an export: the calendar and the calendar-events
/// response body, or `None` when it could not be fetched.
pub type ExportStep = (CalendarRecord, Option<Seq<char>>);

/// The calendar is exported: it was fetched and holds events.
pub open spec fn is_exported(fetched: Option<Seq<char>>) -> bool {
    fetched matches Some(x) && extracted_events(x).len() > 0
}

/// What one calendar adds to the export document: its VCALENDAR and a blank
/// line when it is exported, nothing otherwise.
pub open spec fn export_piece(step: ExportStep) -> Seq<char> {
    match step.1 {
        Some(x) => if extracted_events(x).len() > 0 {
            combined_calendar(calendar_prodid(), step.0.display_name, extracted_events(x)) + "\r\n"@
        } else {
            seq![]
        },
        None => seq![],
    }
}

/// The export document after the calendars `h`, in order.
pub open spec fn export_text(h: Seq<ExportStep>) -> Seq<char>
    decreases h.len(),
{
    if h.len() == 0 {
        seq![]
    } else {
        export_text(h.drop_last()) + export_piece(h.last())
    }
}

/// How many of the calendars `h` were exported.
pub open spec fn exported_in(h: Seq<ExportStep>) -> nat
    decreases h.len(),
{
    if h.len() == 0 {
        0
    } else {
        exported_in(h.drop_last()) + if is_exported(h.last().1) {
            1nat
        } else {
            0nat
        }
    }
}

/// How many of the calendars `h` could not be fetched.
pub open spec fn failed_in(h: Seq<ExportStep>) -> nat
    decreases h.len(),
{
    if h.len() == 0 {
        0
    } else {
        failed_in(h.drop_last()) + if h.last().1 is None {
            1nat
        } else {
            0nat
        }
    }
}

/// An export in progress: the document so far and the counts of exported
/// and failed calendars, for the calendars taken in so far.
pub struct ExportRun {
    all_ical: String,
    success_count: usize,
    error_count: usize,
    recorded: Ghost<Seq<ExportStep>>,
}

impl View for ExportRun {
    type V = Seq<ExportStep>;

    /// The calendars taken in so far, in order.
    closed spec fn view(&self) -> Seq<ExportStep> {
        self.recorded@
    }
}

impl ExportRun {
    #[verifier::type_invariant]
    spec fn follows_recorded(self) -> bool {
        &&& self.all_ical@ == export_text(self.recorded@)
        &&& self.success_count == exported_in(self.recorded@)
        &&& self.error_count == failed_in(self.recorded@)
    }

    /// An export that has taken in no calendar yet.
    pub fn new() -> (r: Self)
        ensures
            r@ == Seq::<ExportStep>::empty(),
    {
        ExportRun {
            all_ical: String::new(),
            success_count: 0,
            error_count: 0,
            recorded: Ghost(Seq::empty()),
        }
    }

    /// Takes in one calendar of the export: `fetched` is the calendar-events
    /// response body, or `None` when the calendar could not be fetched. A
    /// calendar with events adds its VCALENDAR and a blank line.
    pub fn record(
        &mut self,
        client: &ICloudCalendarClient,
        calendar: &CalendarInfo,
        fetched: Option<&str>,
    ) -> (note: ExportNote)
        requires
            exported_in(old(self)@) + failed_in(old(self)@) < usize::MAX,
        ensures
            final(self)@ == old(self)@.push((calendar@, opt_str_view(fetched))),
            match fetched {
                None => note == ExportNote::FetchFailed,
                Some(x) => {
                    let ev = extracted_events(x@);
                    if ev.len() > 0 {
                        note == ExportNote::Exported { events: ev.len() as usize }
                    } else {
                        note == ExportNote::NoEvents
                    }
                },
            },
    {
        proof {
            use_type_invariant(&*self);
        }
        let ghost h = self.recorded@;
        let ghost step: ExportStep = (calendar@, opt_str_view(fetched));
        let ghost h2 = h.push(step);
        assert(h2.drop_last() =~= h);
        match fetched {
            None => {
                assert(export_text(h2) =~= export_text(h));
                *self = ExportRun {
                    all_ical: self.all_ical.clone(),
                    success_count: self.success_count,
                    error_count: self.error_count + 1,
                    recorded: Ghost(h2),
                };
                ExportNote::FetchFailed
            },
            Some(xml) => {
                let events = client.extract_ical_events(xml);
                let count = events.len();
                if count > 0 {
                    proof {
                        assert(string_views(events@).len() == events@.len());
                    }
                    let ical = client.combine_ical_events(events, calendar.display_name.as_str());
                    let mut doc = self.all_ical.clone();
                    doc.append(ical.as_str());
                    doc.append("\r\n");
                    assert(doc@ =~= export_text(h2));
                    *self = ExportRun {
                        all_ical: doc,
                        success_count: self.success_count + 1,
                        error_count: self.error_count,
                        recorded: Ghost(h2),
                    };
                    ExportNote::Exported { events: count }
                } else {
                    assert(export_text(h2) =~= export_text(h));
                    self.recorded = Ghost(h2);
                    ExportNote::NoEvents
                }
            },
        }
    }

    /// How many calendars have been exported so far.
    pub fn exported_count(&self) -> (r: usize)
        ensures
            r == exported_in(self@),
    {
        proof {
            use_type_invariant(self);
        }
        self.success_count
    }

    /// How many calendars could not be fetched so far.
    pub fn failed_count(&self) -> (r: usize)
        ensures
            r == failed_in(self@),
    {
        proof {
            use_type_invariant(self);
        }
        self.error_count
    }

    /// The exported document, unless no calendar was exported: the pieces of
    /// all calendars taken in, in order.
    pub fn finish(self) -> (r: Result<String, ExportError>)
        ensures
            exported_in(self@) == 0 ==> r matches Err(ExportError::NothingExported),
            exported_in(self@) > 0 ==> (r matches Ok(s) && s@ == export_text(self@)),
    {
        proof {
            use_type_invariant(&self);
        }
        if self.success_count == 0 {
            Err(ExportError::NothingExported)
        } else {
            Ok(self.all_ical)
        }
    }
}

} // verus!
