//! Calendar events, their identifiers and time ranges.
use vstd::prelude::*;
use vstd::string::StringExecFns;
use crate::text::{decimal, decimal_text, json_string, json_string_of};
use crate::time::{Date, day_start, formattable, rfc3339_of, rfc3339_text, MAX_INSTANT, MIN_INSTANT, SECONDS_PER_DAY};

verus! {

/// An opaque 128-bit event identifier.
#[derive(Clone, Copy, Debug, PartialEq, Eq, Hash, Structural)]
pub struct EventID(pub u128);

impl EventID {
    /// The identifier as a decimal numeral.
    pub fn to_text(&self) -> (r: String)
        ensures
            r@ == decimal(self.0 as nat),
    {
        decimal_text(self.0)
    }
}

/// Relies on `uuid::Uuid::new_v4` (read as `as_u128`): a random identifier.
#[verifier::external_body]
pub(crate) fn random_event_id() -> (r: u128) {
    uuid::Uuid::new_v4().as_u128()
}

/// Errors raised when an event's time span would not be valid.
#[derive(Clone, Copy, Debug, PartialEq, Eq, Structural)]
pub enum EventError {
    /// The start would not lie strictly before the end.
    InvalidStartTime,
    /// The end would not lie strictly after the start.
    InvalidEndTime,
}

impl EventError {
    /// The human-readable description of the error.
    pub fn description(&self) -> (r: String)
        ensures
            r@ == event_error_text(*self),
    {
        match self {
            EventError::InvalidStartTime => "start time/date cannot be after end time/date".to_owned(),
            EventError::InvalidEndTime => "end time/date cannot be before start time/date".to_owned(),
        }
    }
}

/// The description of an [`EventError`].
pub open spec fn event_error_text(e: EventError) -> Seq<char> {
    match e {
        EventError::InvalidStartTime => "start time/date cannot be after end time/date"@,
        EventError::InvalidEndTime => "end time/date cannot be before start time/date"@,
    }
}

/// A closed interval of instants, in seconds since the Unix epoch.
#[derive(Clone, Copy, Debug, PartialEq, Eq, Structural)]
pub struct EventRange {
    pub start: i64,
    pub end: i64,
}

impl EventRange {
    /// The range from `start` to `end`; an omitted end stands for the
    /// earliest or latest representable instant.
    pub fn from(start: Option<i64>, end: Option<i64>) -> (r: EventRange)
        ensures
            r.start == match start { Some(s) => s, None => MIN_INSTANT },
            r.end == match end { Some(e) => e, None => MAX_INSTANT },
    {
        EventRange {
            start: match start { Some(s) => s, None => MIN_INSTANT },
            end: match end { Some(e) => e, None => MAX_INSTANT },
        }
    }

    pub fn start(&self) -> (r: i64)
        ensures
            r == self.start,
    {
        self.start
    }

    pub fn end(&self) -> (r: i64)
        ensures
            r == self.end,
    {
        self.end
    }
}

/// Whether an event spanning `[start, end]` meets the range `q`.
pub open spec fn intersects(start: int, end: int, q: EventRange) -> bool {
    start <= q.end && end >= q.start
}

/// What an event holds, as mathematical values.
pub struct EventView {
    pub id: u128,
    pub start: int,
    pub end: int,
    pub name: Seq<char>,
    pub description: Option<Seq<char>>,
}

/// A named event over a span of time.
#[derive(Debug)]
pub struct Event {
    pub uid: EventID,
    pub start: i64,
    pub end: i64,
    pub name: String,
    pub description: Option<String>,
}

impl View for Event {
    type V = EventView;

    open spec fn view(&self) -> EventView {
        EventView {
            id: self.uid.0,
            start: self.start as int,
            end: self.end as int,
            name: self.name@,
            description: match self.description {
                Some(d) => Some(d@),
                None => None,
            },
        }
    }
}

/// The JSON object text of an event whose instants both have an RFC 3339
/// form: `{"uid":..,"start":"..","end":"..","name":..,"description":..}`.
pub open spec fn event_json(e: EventView) -> Seq<char> {
    "{\"uid\":"@ + decimal(e.id as nat) + ",\"start\":\""@ + rfc3339_of(e.start as i64)
        + "\",\"end\":\""@ + rfc3339_of(e.end as i64) + "\",\"name\":"@ + json_string_of(e.name)
        + ",\"description\":"@ + match e.description {
            Some(d) => json_string_of(d),
            None => "null"@,
        } + "}"@
}

/// Whether both of an event's instants have an RFC 3339 form.
pub open spec fn serializable(e: EventView) -> bool {
    formattable(e.start as i64) && formattable(e.end as i64)
}

/// What serializing an event gives: its JSON text when both instants have an
/// RFC 3339 form, else nothing.
pub open spec fn serialized(e: EventView) -> Option<Seq<char>> {
    if serializable(e) { Some(event_json(e)) } else { None }
}

impl Event {
    /// The span invariant: an event ends strictly after it starts.
    pub open spec fn wf(&self) -> bool {
        self.start < self.end
    }

    /// A new event with a fresh random identifier, or `InvalidEndTime` when
    /// `end` does not lie strictly after `start`.
    pub fn new(name: String, start: i64, end: i64) -> (r: Result<Event, EventError>)
        ensures
            start < end <==> r is Ok,
            r matches Ok(e) ==> e.wf() && e.start == start && e.end == end && e.name@ == name@
                && e.description is None,
            r matches Err(err) ==> err == EventError::InvalidEndTime,
    {
        if start < end {
            Ok(Event { uid: EventID(random_event_id()), start, end, name, description: None })
        } else {
            Err(EventError::InvalidEndTime)
        }
    }

    /// A new event covering the whole of `date`, 00:00:00 to 23:59:59 UTC.
    pub fn new_all_day(name: String, date: Date) -> (r: Event)
        ensures
            r.wf(),
            r.start == day_start(date.days_since_epoch as int),
            r.end == day_start(date.days_since_epoch as int) + SECONDS_PER_DAY - 1,
            r.name@ == name@,
            r.description is None,
    {
        Event {
            uid: EventID(random_event_id()),
            start: date.first_second(),
            end: date.last_second(),
            name,
            description: None,
        }
    }

    pub fn uid(&self) -> (r: EventID)
        ensures
            r == self.uid,
    {
        self.uid
    }

    pub fn id(&self) -> (r: EventID)
        ensures
            r == self.uid,
    {
        self.uid
    }

    pub fn name(&self) -> (r: &str)
        ensures
            r@ == self.name@,
    {
        self.name.as_str()
    }

    pub fn start(&self) -> (r: i64)
        ensures
            r == self.start,
    {
        self.start
    }

    pub fn end(&self) -> (r: i64)
        ensures
            r == self.end,
    {
        self.end
    }

    /// The event's span as a range.
    pub fn time_span(&self) -> (r: EventRange)
        ensures
            r == (EventRange { start: self.start, end: self.end }),
    {
        EventRange::from(Some(self.start), Some(self.end))
    }

    /// The event moved to start at `start`, or `InvalidStartTime` when that
    /// is not strictly before its end.
    pub fn with_start(self, start: i64) -> (r: Result<Event, EventError>)
        ensures
            start < self.end <==> r is Ok,
            r matches Ok(e) ==> e@ == (EventView { start: start as int, ..self@ }),
            r matches Err(err) ==> err == EventError::InvalidStartTime,
    {
        if start < self.end {
            Ok(Event { start, ..self })
        } else {
            Err(EventError::InvalidStartTime)
        }
    }

    /// The event moved to end at `end`, or `InvalidEndTime` when that is not
    /// strictly after its start.
    pub fn with_end(self, end: i64) -> (r: Result<Event, EventError>)
        ensures
            self.start < end <==> r is Ok,
            r matches Ok(e) ==> e@ == (EventView { end: end as int, ..self@ }),
            r matches Err(err) ==> err == EventError::InvalidEndTime,
    {
        if self.start < end {
            Ok(Event { end, ..self })
        } else {
            Err(EventError::InvalidEndTime)
        }
    }

    /// Renames the event.
    pub fn set_name(&mut self, new_name: String)
        ensures
            final(self)@ == (EventView { name: new_name@, ..old(self)@ }),
    {
        self.name = new_name;
    }

    /// A copy of the event.
    pub fn duplicate(&self) -> (r: Event)
        ensures
            r@ == self@,
    {
        Event {
            uid: self.uid,
            start: self.start,
            end: self.end,
            name: self.name.clone(),
            description: match &self.description {
                Some(d) => Some(d.clone()),
                None => None,
            },
        }
    }

    /// The event as a JSON object, or `None` exactly when one of its
    /// instants has no RFC 3339 form.
    pub fn serialize(&self) -> (r: Option<String>)
        ensures
            r is Some <==> serializable(self@),
            r matches Some(s) ==> s@ == event_json(self@),
            match r { Some(s) => Some(s@), None => None::<Seq<char>> } == serialized(self@),
    {
        let start = match rfc3339_text(self.start) {
            Some(s) => s,
            None => return None,
        };
        let end = match rfc3339_text(self.end) {
            Some(s) => s,
            None => return None,
        };
        let name = match json_string(self.name.as_str()) {
            Some(s) => s,
            None => return None,
        };
        let description = match &self.description {
            Some(d) => match json_string(d.as_str()) {
                Some(s) => s,
                None => return None,
            },
            None => "null".to_owned(),
        };
        let mut out = "{\"uid\":".to_owned();
        out.append(decimal_text(self.uid.0).as_str());
        out.append(",\"start\":\"");
        out.append(start.as_str());
        out.append("\",\"end\":\"");
        out.append(end.as_str());
        out.append("\",\"name\":");
        out.append(name.as_str());
        out.append(",\"description\":");
        out.append(description.as_str());
        out.append("}");
        Some(out)
    }
}

/// Serializing an event twice gives identical results: what `serialize`
/// returns is `serialized` of the event's contents, which succeeds exactly
/// when both instants lie in chrono's range, and then gives the same text.
pub proof fn lemma_serialize_deterministic(a: EventView, b: EventView)
    requires
        a == b,
    ensures
        serialized(a) == serialized(b),
        serialized(a) is Some <==> serializable(a),
        serialized(a) matches Some(t) ==> t == event_json(b),
{
}

} // verus!
