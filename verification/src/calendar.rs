//! Calendar activity records: the normalized event type and its
//! classification into room-type categories.

use vstd::prelude::*;
use crate::records::{Dated, group_by_day, spec_grouped_by_day};
use crate::text::{spec_text_contains_ci, text_contains_ci};

verus! {

/// Categories for calendar events; these map to room types during
/// generation.
#[derive(Debug, Clone, Copy, PartialEq, Eq, Structural)]
pub enum EventCategory {
    /// Regular meeting.
    Meeting,
    /// 1:1 or small sync.
    OneOnOne,
    /// Large meeting or all-hands.
    AllHands,
    /// Focus time block.
    FocusTime,
    /// Break or lunch.
    Break,
}

/// Errors from reading or parsing a calendar source.
#[derive(Debug, Clone, PartialEq, Eq)]
pub enum CalendarError {
    ReadFailed(String),
    ParseFailed(String),
    NoEvents(u32),
    Io(String),
}

/// One normalized unit of calendar activity.
#[derive(Debug)]
pub struct EventData {
    /// Unique event identifier.
    pub uid: String,
    /// Day number of the event start (days since the Common Era).
    pub day: i32,
    /// Event summary/title.
    pub summary: String,
    /// Event description (optional).
    pub description: Option<String>,
    /// Event location (optional).
    pub location: Option<String>,
    /// Event category for room-type mapping.
    pub category: EventCategory,
    /// Duration in minutes.
    pub duration_minutes: u32,
    /// Number of attendees.
    pub attendee_count: u32,
}

impl Clone for EventData {
    /// The clone carries exactly the same fields.
    fn clone(&self) -> (r: Self)
        ensures
            r == *self,
    {
        EventData {
            uid: self.uid.clone(),
            day: self.day,
            summary: self.summary.clone(),
            description: match &self.description {
                Some(d) => Some(d.clone()),
                None => None,
            },
            location: match &self.location {
                Some(l) => Some(l.clone()),
                None => None,
            },
            category: self.category,
            duration_minutes: self.duration_minutes,
            attendee_count: self.attendee_count,
        }
    }
}

impl Dated for EventData {
    open spec fn spec_day(&self) -> int {
        self.day as int
    }

    proof fn day_in_range(&self) {
    }

    fn day_of(&self) -> (d: i32) {
        self.day
    }

    fn duplicate(&self) -> (r: Self) {
        self.clone()
    }
}

/// The intensity of an event: one point per 15 minutes of duration, plus
/// one per attendee beyond the first.
pub open spec fn spec_intensity(e: EventData) -> int {
    e.duration_minutes / 15
        + (if e.attendee_count >= 1 { e.attendee_count - 1 } else { 0 })
}

impl EventData {
    /// Calculate the event's intensity from duration and attendees; it
    /// drives room size.
    pub fn intensity(&self) -> (r: u32)
        requires
            spec_intensity(*self) <= u32::MAX,
        ensures
            r == spec_intensity(*self),
    {
        let base = self.duration_minutes / 15;
        let attendee_bonus = if self.attendee_count >= 1 { self.attendee_count - 1 } else { 0 };
        base + attendee_bonus
    }
}

/// The text an event is classified by: summary and description joined by a
/// single space.
pub open spec fn spec_event_text(summary: Seq<char>, description: Seq<char>) -> Seq<char> {
    summary + seq![' '] + description
}

/// The category that a given event text falls in, checked in order:
/// one-on-one markers, all-hands markers, focus markers, break markers,
/// else a regular meeting. Matching ignores ASCII case.
pub open spec fn spec_event_category(text: Seq<char>) -> EventCategory {
    if spec_text_contains_ci(text, "1:1"@) || spec_text_contains_ci(text, "1-1"@)
        || spec_text_contains_ci(text, "sync"@) {
        EventCategory::OneOnOne
    } else if spec_text_contains_ci(text, "all-hands"@) || spec_text_contains_ci(text, "all hands"@)
        || spec_text_contains_ci(text, "town hall"@)
        || spec_text_contains_ci(text, "company meeting"@) {
        EventCategory::AllHands
    } else if spec_text_contains_ci(text, "focus"@) || spec_text_contains_ci(text, "block"@)
        || spec_text_contains_ci(text, "deep work"@) {
        EventCategory::FocusTime
    } else if spec_text_contains_ci(text, "lunch"@) || spec_text_contains_ci(text, "break"@)
        || spec_text_contains_ci(text, "coffee"@) {
        EventCategory::Break
    } else {
        EventCategory::Meeting
    }
}

impl EventCategory {
    /// Detect the category from an event's summary and description.
    pub fn from_event_text(summary: &str, description: Option<&str>) -> (cat: EventCategory)
        ensures
            cat == spec_event_category(spec_event_text(
                summary@,
                match description {
                    Some(d) => d@,
                    None => Seq::empty(),
                },
            )),
    {
        let mut text = String::from_str(summary);
        text.append(" ");
        match description {
            Some(d) => text.append(d),
            None => (),
        }
        proof {
            reveal_strlit(" ");
            assert(" "@ =~= seq![' ']);
            assert(text@ =~= spec_event_text(
                summary@,
                match description {
                    Some(d) => d@,
                    None => Seq::empty(),
                },
            ));
        }
        let t = text.as_str();
        if text_contains_ci(t, "1:1") || text_contains_ci(t, "1-1") || text_contains_ci(t, "sync") {
            EventCategory::OneOnOne
        } else if text_contains_ci(t, "all-hands") || text_contains_ci(t, "all hands")
            || text_contains_ci(t, "town hall") || text_contains_ci(t, "company meeting") {
            EventCategory::AllHands
        } else if text_contains_ci(t, "focus") || text_contains_ci(t, "block")
            || text_contains_ci(t, "deep work") {
            EventCategory::FocusTime
        } else if text_contains_ci(t, "lunch") || text_contains_ci(t, "break")
            || text_contains_ci(t, "coffee") {
            EventCategory::Break
        } else {
            EventCategory::Meeting
        }
    }
}

/// The shared activity-record form of a calendar event, as the encounter
/// populator consumes it: the magnitude is the event's intensity
/// (saturating), and an all-hands-class event — by category or by ten or
/// more attendees — counts as special, like a merge commit does.
pub open spec fn spec_event_record(e: EventData) -> crate::records::CommitData {
    crate::records::CommitData {
        hash: e.uid,
        day: e.day,
        message: e.summary,
        insertions: (if spec_intensity(e) <= u32::MAX { spec_intensity(e) } else {
            u32::MAX as int
        }) as u32,
        deletions: 0,
        files_changed: 0,
        author: e.uid,
        is_merge: e.category == EventCategory::AllHands || e.attendee_count >= 10,
        file_categories: crate::records::FileCategories {
            test_files: 0,
            config_files: 0,
            doc_files: 0,
            other_files: 0,
        },
    }
}

/// Convert one event into its shared activity-record form.
pub fn event_record(e: &EventData) -> (r: crate::records::CommitData)
    ensures
        r == spec_event_record(*e),
{
    let base = (e.duration_minutes / 15) as u64;
    let bonus = (if e.attendee_count >= 1 { e.attendee_count - 1 } else { 0 }) as u64;
    let raw = base + bonus;
    let magnitude: u32 = if raw <= u32::MAX as u64 { raw as u32 } else { u32::MAX };
    crate::records::CommitData {
        hash: e.uid.clone(),
        day: e.day,
        message: e.summary.clone(),
        insertions: magnitude,
        deletions: 0,
        files_changed: 0,
        author: e.uid.clone(),
        is_merge: e.category == EventCategory::AllHands || e.attendee_count >= 10,
        file_categories: crate::records::FileCategories {
            test_files: 0,
            config_files: 0,
            doc_files: 0,
            other_files: 0,
        },
    }
}

/// Convert a day's events into their shared activity-record forms.
pub fn event_records(events: &Vec<EventData>) -> (r: Vec<crate::records::CommitData>)
    ensures
        r@ == events@.map_values(|e: EventData| spec_event_record(e)),
{
    let n = events.len();
    let mut out: Vec<crate::records::CommitData> = Vec::new();
    let mut i: usize = 0;
    while i < n
        invariant
            n == events@.len(),
            0 <= i <= n,
            out@ =~= events@.take(i as int).map_values(|e: EventData| spec_event_record(e)),
        decreases n - i,
    {
        out.push(event_record(&events[i]));
        proof {
            assert(events@.take(i + 1) =~= events@.take(i as int).push(events@[i as int]));
            assert(out@ =~= events@.take(i + 1).map_values(
                |e: EventData| spec_event_record(e)));
        }
        i += 1;
    }
    proof {
        assert(events@.take(n as int) =~= events@);
    }
    out
}

/// Group calendar events by date: one group per distinct day, ascending,
/// keeping the input order inside each group.
pub fn group_by_date(events: &Vec<EventData>) -> (groups: Vec<(i32, Vec<EventData>)>)
    ensures
        spec_grouped_by_day(events@, groups@),
{
    group_by_day(events)
}

} // verus!
