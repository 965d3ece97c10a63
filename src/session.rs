//! Per-connection session logic: liveness decisions and turning decoded
//! requests into hub operations and reply text.
use vstd::prelude::*;
use vstd::string::StringExecFns;
use crate::calendar::CALENDAR_CAPACITY;
use crate::event::{EventID, EventRange, EventView, event_json, serializable};
use crate::hub::{
    CalServer, HubError, HubResult, Notice, added_notice, deleted_notice, hub_error_text, joined_lines, json_array,
    requested_event,
};
use crate::store::range_result;
use crate::text::{decimal, decimal_text};

verus! {

/// How often a ping is sent, in milliseconds.
pub const HEARTBEAT_INTERVAL_MS: u64 = 5000;

/// How long a session may stay silent before it is dropped, in milliseconds.
pub const CLIENT_TIMEOUT_MS: u64 = 10000;

/// What the liveness timer does when it fires.
#[derive(Clone, Copy, Debug, PartialEq, Eq, Structural)]
pub enum Liveness {
    /// The client was heard from recently: send a ping.
    Ping,
    /// The client has been silent too long: disconnect from the hub and stop.
    TimedOut,
}

/// The state of one connection: its hub session id and when the client was
/// last heard from (milliseconds on a monotonic clock).
#[derive(Clone, Copy, Debug, PartialEq, Eq, Structural)]
pub struct WsCalSession {
    pub id: u64,
    pub hb: u64,
}

/// Whether a client last heard from at `hb` has, at `now`, been silent for
/// longer than the timeout.
pub open spec fn timed_out(hb: u64, now: u64) -> bool {
    now > hb && now - hb > CLIENT_TIMEOUT_MS
}

impl WsCalSession {
    /// A session not yet registered with the hub, heard from at `now`.
    pub fn new(now: u64) -> (r: WsCalSession)
        ensures
            r.id == 0,
            r.hb == now,
    {
        WsCalSession { id: 0, hb: now }
    }

    /// Records the id the hub gave this session.
    pub fn connected(&mut self, id: u64)
        ensures
            final(self).id == id,
            final(self).hb == old(self).hb,
    {
        self.id = id;
    }

    /// Records a liveness signal (a ping, a pong or any other traffic) seen
    /// at `now`; an earlier reading than the last one changes nothing.
    pub fn heard(&mut self, now: u64)
        ensures
            final(self).id == old(self).id,
            final(self).hb == if now > old(self).hb { now } else { old(self).hb },
    {
        if now > self.hb {
            self.hb = now;
        }
    }

    /// What to do when the liveness timer fires at `now`.
    pub fn on_timer(&self, now: u64) -> (r: Liveness)
        ensures
            r == (if timed_out(self.hb, now) { Liveness::TimedOut } else { Liveness::Ping }),
    {
        if now > self.hb && now - self.hb > CLIENT_TIMEOUT_MS {
            Liveness::TimedOut
        } else {
            Liveness::Ping
        }
    }
}

/// A decoded client request.
pub enum ClientMessage {
    ListCals,
    CreateCal { id: u64, name: String },
    Join { id: u64, name: String },
    AddEvent { cal_name: String, e_name: String, start: i64, end: i64, id: u64 },
    DeleteEvent { id: u64, cal_name: String, eid: EventID },
    GetEvent { cal_name: String, eid: EventID },
    GetEventsInRange { cal_name: String, range: EventRange },
}

/// A text sent from the hub to a session.
pub struct Message(pub String);

/// A session's notice that it has gone.
pub struct Disconnect {
    pub id: u64,
}

/// What a request produces: the reply to the requester, and the notice for
/// the other members of the room, if any.
pub struct Reply {
    pub text: String,
    pub notice: Option<Notice>,
}

/// The reply to a calendar creation.
pub open spec fn created_text() -> Seq<char> {
    "Calendar created"@
}

/// The reply to a join.
pub open spec fn joined_text() -> Seq<char> {
    "Joined calendar"@
}

/// The reply to a deletion.
pub open spec fn deleted_text() -> Seq<char> {
    "Event Deleted"@
}

/// The reply to an added event: the identifier in its debug form.
pub open spec fn event_id_text(id: u128) -> Seq<char> {
    "EventID: EventID("@ + decimal(id as nat) + ")"@
}

/// The error a failed add reports.
pub open spec fn add_error(before: CalServer, cal: Seq<char>, start: i64, end: i64) -> HubError {
    if !before.has_calendar(cal) {
        HubError::CalendarNotFound
    } else if start >= end {
        HubError::InvalidEventTime
    } else {
        HubError::CalendarFull
    }
}

/// What adding an event through a request does: on success the reply
/// names the new identifier, the calendar gains the event, nothing else
/// changes, and the notice goes to the other members of its room; otherwise
/// the reply is the error's description and nothing changes.
pub open spec fn added_reply(
    before: CalServer,
    after: CalServer,
    session: u64,
    cal: Seq<char>,
    name: Seq<char>,
    start: i64,
    end: i64,
    r: Reply,
) -> bool {
    let ok = before.has_calendar(cal) && start < end && before.events_of(cal).len() < CALENDAR_CAPACITY;
    match r.notice {
        Some(n) => ok && exists|id: u128| #[trigger] event_id_text(id) == r.text@
            && !before.events_of(cal).contains_key(id)
            && after.events_of(cal) == before.events_of(cal).insert(id, requested_event(id, start, end, name))
            && after.names() == before.names() && after.sessions() == before.sessions()
            && after.memberships() == before.memberships()
            && after.others_unchanged(&before, before.index_of(cal))
            && before.addressed(before.index_of(cal), session, n.recipients@)
            && n.text@ == added_notice(id),
        None => !ok && after.same_state(&before) && r.text@ == hub_error_text(add_error(before, cal, start, end)),
    }
}

/// What creating a calendar through a request does.
pub open spec fn created_reply(before: CalServer, after: CalServer, name: Seq<char>, r: Reply) -> bool {
    let n = before.names().len() as int;
    &&& r.notice is None
    &&& if name.len() == 0 || before.has_calendar(name) {
        r.text@ == hub_error_text(HubError::CalendarCreationFailed) && after.same_state(&before)
    } else {
        &&& r.text@ == created_text()
        &&& after.sessions() == before.sessions()
        &&& after.memberships() == before.memberships()
        &&& after.names() == before.names().push(name)
        &&& after.events_at(n) == Map::<u128, EventView>::empty()
        &&& forall|i: int| 0 <= i < n ==> #[trigger] after.events_at(i) == before.events_at(i)
        &&& after.room(n) == Set::<u64>::empty()
    }
}

/// What joining a calendar's room through a request does.
pub open spec fn joined_reply(before: CalServer, after: CalServer, session: u64, name: Seq<char>, r: Reply) -> bool {
    &&& r.notice is None
    &&& if before.has_calendar(name) {
        &&& r.text@ == joined_text()
        &&& after.sessions() == before.sessions()
        &&& after.same_calendars(&before)
        &&& after.memberships() == before.joined_memberships(session, name)
    } else {
        r.text@ == hub_error_text(HubError::CalendarNotFound) && after.same_state(&before)
    }
}

/// What deleting an event through a request does.
pub open spec fn deleted_reply(
    before: CalServer,
    after: CalServer,
    session: u64,
    cal: Seq<char>,
    id: u128,
    r: Reply,
) -> bool {
    if !before.has_calendar(cal) {
        r.text@ == hub_error_text(HubError::CalendarNotFound) && after.same_state(&before) && r.notice is None
    } else if !before.events_of(cal).contains_key(id) {
        r.text@ == hub_error_text(HubError::EventNotFound) && after.same_state(&before) && r.notice is None
    } else {
        &&& r.text@ == deleted_text()
        &&& after.names() == before.names()
        &&& after.sessions() == before.sessions()
        &&& after.memberships() == before.memberships()
        &&& after.events_of(cal) == before.events_of(cal).remove(id)
        &&& after.others_unchanged(&before, before.index_of(cal))
        &&& r.notice matches Some(n) && before.addressed(before.index_of(cal), session, n.recipients@)
            && n.text@ == deleted_notice(id)
    }
}

/// The reply text of an outcome: `ok` on success, else the error's
/// description.
pub open spec fn outcome_text<T>(r: HubResult<T>, ok: Seq<char>) -> Seq<char> {
    match r {
        Ok(_) => ok,
        Err(e) => hub_error_text(e),
    }
}

/// The reply text of an outcome that is itself text.
pub open spec fn payload_text(r: HubResult<String>) -> Seq<char> {
    match r {
        Ok(s) => s@,
        Err(e) => hub_error_text(e),
    }
}

/// The reply to a request that carries no payload.
pub fn confirm_reply(r: &HubResult<()>, ok: &str) -> (t: String)
    ensures
        t@ == outcome_text(*r, ok@),
{
    match r {
        Ok(_) => ok.to_owned(),
        Err(e) => e.description(),
    }
}

/// The reply to a request whose payload is text.
pub fn payload_reply(r: HubResult<String>) -> (t: String)
    ensures
        t@ == payload_text(r),
{
    match r {
        Ok(s) => s,
        Err(e) => e.description(),
    }
}

/// Creates a calendar for a request.
fn create_for(hub: &mut CalServer, name: String) -> (r: Reply)
    requires
        old(hub).wf(),
    ensures
        final(hub).wf(),
        created_reply(*old(hub), *final(hub), name@, r),
{
    let r = hub.create_calendar(name);
    Reply { text: confirm_reply(&r, "Calendar created"), notice: None }
}

/// Moves a session into a room for a request.
fn join_for(hub: &mut CalServer, session: u64, name: String) -> (r: Reply)
    requires
        old(hub).wf(),
    ensures
        final(hub).wf(),
        joined_reply(*old(hub), *final(hub), session, name@, r),
{
    let r = hub.join_calendar(session, name.as_str());
    Reply { text: confirm_reply(&r, "Joined calendar"), notice: None }
}

/// Adds an event for a request.
fn add_for(hub: &mut CalServer, session: u64, cal_name: String, e_name: String, start: i64, end: i64) -> (r:
    Reply)
    requires
        old(hub).wf(),
    ensures
        final(hub).wf(),
        added_reply(*old(hub), *final(hub), session, cal_name@, e_name@, start, end, r),
{
    let ghost name = e_name@;
    match hub.add_event(session, cal_name.as_str(), e_name, start, end) {
        Ok((id, notice)) => {
            let mut text = "EventID: EventID(".to_owned();
            text.append(decimal_text(id.0).as_str());
            text.append(")");
            let r = Reply { text, notice: Some(notice) };
            proof {
                assert(event_id_text(id.0) == r.text@);
            }
            r
        },
        Err(e) => Reply { text: e.description(), notice: None },
    }
}

/// Deletes an event for a request.
fn delete_for(hub: &mut CalServer, session: u64, cal_name: String, eid: EventID) -> (r: Reply)
    requires
        old(hub).wf(),
    ensures
        final(hub).wf(),
        deleted_reply(*old(hub), *final(hub), session, cal_name@, eid.0, r),
{
    match hub.delete_event(session, cal_name.as_str(), eid) {
        Ok(notice) => Reply { text: "Event Deleted".to_owned(), notice: Some(notice) },
        Err(e) => Reply { text: e.description(), notice: None },
    }
}

/// Looks an event up for a request.
fn get_for(hub: &CalServer, cal_name: String, eid: EventID) -> (r: Reply)
    requires
        hub.wf(),
    ensures
        r.notice is None,
        got_reply(*hub, cal_name@, eid.0, r),
{
    Reply { text: payload_reply(hub.get_event(cal_name.as_str(), eid)), notice: None }
}

/// Lists the events of a range for a request.
fn range_for(hub: &CalServer, cal_name: String, range: EventRange) -> (r: Reply)
    requires
        hub.wf(),
    ensures
        r.notice is None,
        ranged_reply(*hub, cal_name@, range, r),
{
    Reply { text: payload_reply(hub.get_events_in_range(cal_name.as_str(), range)), notice: None }
}

/// The reply to looking an event up.
pub open spec fn got_reply(hub: CalServer, cal: Seq<char>, id: u128, r: Reply) -> bool {
    if !hub.has_calendar(cal) {
        r.text@ == hub_error_text(HubError::CalendarNotFound)
    } else if !hub.events_of(cal).contains_key(id) {
        r.text@ == hub_error_text(HubError::EventNotFound)
    } else if serializable(hub.events_of(cal)[id]) {
        r.text@ == event_json(hub.events_of(cal)[id])
    } else {
        r.text@ == hub_error_text(HubError::EventFailedToSerialize)
    }
}

/// The reply to listing the events of a range.
pub open spec fn ranged_reply(hub: CalServer, cal: Seq<char>, range: EventRange, r: Reply) -> bool {
    if !hub.has_calendar(cal) {
        r.text@ == hub_error_text(HubError::CalendarNotFound)
    } else if hub.unserializable_in(cal, range) {
        r.text@ == hub_error_text(HubError::EventFailedToSerialize)
    } else {
        exists|evs: Seq<EventView>| #[trigger] range_result(hub.events_of(cal), range, evs) && r.text@ == json_array(
            evs,
        )
    }
}

/// Runs one decoded request from session `session` against the hub.
pub fn dispatch(hub: &mut CalServer, session: u64, msg: ClientMessage) -> (r: Reply)
    requires
        old(hub).wf(),
    ensures
        final(hub).wf(),
        msg is ListCals || msg is GetEvent || msg is GetEventsInRange ==> final(hub).same_state(old(hub))
            && r.notice is None,
        match msg {
            ClientMessage::CreateCal { name, .. } => created_reply(*old(hub), *final(hub), name@, r),
            ClientMessage::Join { name, .. } => joined_reply(*old(hub), *final(hub), session, name@, r),
            ClientMessage::DeleteEvent { cal_name, eid, .. } => deleted_reply(
                *old(hub),
                *final(hub),
                session,
                cal_name@,
                eid.0,
                r,
            ),
            ClientMessage::AddEvent { cal_name, e_name, start, end, .. } => added_reply(
                *old(hub),
                *final(hub),
                session,
                cal_name@,
                e_name@,
                start,
                end,
                r,
            ),
            ClientMessage::GetEvent { cal_name, eid } => got_reply(*old(hub), cal_name@, eid.0, r),
            ClientMessage::GetEventsInRange { cal_name, range } => ranged_reply(*old(hub), cal_name@, range, r),
            ClientMessage::ListCals => r.text@ == joined_lines(old(hub).names()),
        },
{
    match msg {
        ClientMessage::ListCals => Reply { text: hub.list_calendars(), notice: None },
        ClientMessage::CreateCal { name, .. } => create_for(hub, name),
        ClientMessage::Join { name, .. } => join_for(hub, session, name),
        ClientMessage::AddEvent { cal_name, e_name, start, end, .. } => add_for(
            hub,
            session,
            cal_name,
            e_name,
            start,
            end,
        ),
        ClientMessage::DeleteEvent { cal_name, eid, .. } => delete_for(hub, session, cal_name, eid),
        ClientMessage::GetEvent { cal_name, eid } => get_for(hub, cal_name, eid),
        ClientMessage::GetEventsInRange { cal_name, range } => range_for(hub, cal_name, range),
    }
}

} // verus!
