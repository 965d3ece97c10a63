//! The hub: the single owner of all calendars, the live sessions and room
//! membership. Each operation runs to completion before the next.
use vstd::prelude::*;
use vstd::string::StringExecFns;
use std::collections::HashSet;
use crate::calendar::{Calendar, CALENDAR_CAPACITY};
use crate::event::{Event, EventID, EventRange, EventView, event_json, intersects, serializable};
use crate::store::range_result;
use crate::text::{decimal, decimal_text};

verus! {

broadcast use vstd::std_specs::hash::group_hash_axioms;

/// The errors of hub operations.
#[derive(Clone, Copy, Debug, PartialEq, Eq, Structural)]
pub enum HubError {
    /// The operation named a calendar that does not exist.
    CalendarNotFound,
    /// The name given for a new calendar is empty or already taken.
    CalendarCreationFailed,
    /// The identifier names no event of the calendar.
    EventNotFound,
    /// A result could not be serialized.
    EventFailedToSerialize,
    /// The event would not end strictly after it starts.
    InvalidEventTime,
    /// The calendar holds as many events as it can.
    CalendarFull,
}

/// The description of a [`HubError`].
pub open spec fn hub_error_text(e: HubError) -> Seq<char> {
    match e {
        HubError::CalendarNotFound => "Calendar not found"@,
        HubError::CalendarCreationFailed => "Calendar could not be created"@,
        HubError::EventNotFound => "Event not found"@,
        HubError::EventFailedToSerialize => "Event failed to serialize"@,
        HubError::InvalidEventTime => "Event must end after it starts"@,
        HubError::CalendarFull => "Calendar is full"@,
    }
}

impl HubError {
    /// The human-readable description of the error.
    pub fn description(&self) -> (r: String)
        ensures
            r@ == hub_error_text(*self),
    {
        match self {
            HubError::CalendarNotFound => "Calendar not found".to_owned(),
            HubError::CalendarCreationFailed => "Calendar could not be created".to_owned(),
            HubError::EventNotFound => "Event not found".to_owned(),
            HubError::EventFailedToSerialize => "Event failed to serialize".to_owned(),
            HubError::InvalidEventTime => "Event must end after it starts".to_owned(),
            HubError::CalendarFull => "Calendar is full".to_owned(),
        }
    }
}

/// The outcome of a hub operation.
pub type HubResult<T> = Result<T, HubError>;

/// Text to be sent to the other members of a room after a change to it.
pub struct Notice {
    /// The sessions to send it to.
    pub recipients: Vec<u64>,
    /// What to send.
    pub text: String,
}

/// Relies on `rand::random::<u64>`: a random 64-bit value.
#[verifier::external_body]
fn random_session_id() -> (r: u64) {
    rand::random::<u64>()
}

/// Two to the sixty-fourth.
pub open spec fn span_u64() -> int {
    0x1_0000_0000_0000_0000
}

/// The `k`-th value probed upward from `start`, wrapping past the top.
pub open spec fn probe_u64(start: u64, k: int) -> int {
    if start + k < span_u64() { start + k } else { start + k - span_u64() }
}

/// How many steps upward from `start` reach `x`, wrapping past the top.
pub open spec fn offset_u64(start: u64, x: u64) -> int {
    if x >= start { x - start } else { x + span_u64() - start }
}

/// A value not in `used`: the first one free at or above `start`, wrapping.
fn unused_session_id(used: &HashSet<u64>, start: u64) -> (r: u64)
    requires
        used@.finite(),
        used@.len() < u64::MAX,
    ensures
        !used@.contains(r),
{
    let mut c = start;
    let ghost mut tried: Set<u64> = Set::empty();
    while used.contains(&c)
        invariant
            used@.finite(),
            used@.len() < u64::MAX,
            tried.finite(),
            tried.subset_of(used@),
            c as int == probe_u64(start, tried.len() as int),
            forall|x: u64| #[trigger] tried.contains(x) ==> offset_u64(start, x) < tried.len(),
        decreases used@.len() - tried.len(),
    {
        proof {
            vstd::set_lib::lemma_len_subset(tried, used@);
            assert(offset_u64(start, c) == tried.len());
            assert(!tried.contains(c));
            tried = tried.insert(c);
            vstd::set_lib::lemma_len_subset(tried, used@);
        }
        c = c.wrapping_add(1);
    }
    c
}

/// No session appears twice in a membership list.
pub open spec fn unique_sessions(m: Seq<(u64, usize)>) -> bool {
    forall|i: int, j: int| 0 <= i < m.len() && 0 <= j < m.len() && (#[trigger] m[i]).0 == (#[trigger] m[j]).0
        ==> i == j
}

/// The membership list without the entry of session `s`.
fn without_session(members: &Vec<(u64, usize)>, s: u64, bound: usize) -> (r: Vec<(u64, usize)>)
    requires
        unique_sessions(members@),
        forall|k: int| 0 <= k < members@.len() ==> (#[trigger] members@[k]).1 < bound,
    ensures
        unique_sessions(r@),
        forall|k: int| 0 <= k < r@.len() ==> (#[trigger] r@[k]).1 < bound,
        forall|p: (u64, usize)| r@.contains(p) <==> members@.contains(p) && p.0 != s,
{
    let mut r: Vec<(u64, usize)> = Vec::new();
    let ghost mut src: Seq<int> = Seq::empty();
    let mut i: usize = 0;
    while i < members.len()
        invariant
            0 <= i <= members@.len(),
            src.len() == r@.len(),
            unique_sessions(members@),
            forall|k: int| 0 <= k < members@.len() ==> (#[trigger] members@[k]).1 < bound,
            forall|m: int| 0 <= m < r@.len() ==> 0 <= #[trigger] src[m] < i && r@[m] == members@[src[m]]
                && r@[m].0 != s,
            forall|m: int, n: int| 0 <= m < n < r@.len() ==> #[trigger] src[m] < #[trigger] src[n],
            forall|j: int| 0 <= j < i && (#[trigger] members@[j]).0 != s ==> exists|m: int|
                0 <= m < r@.len() && #[trigger] src[m] == j,
        decreases members@.len() - i,
    {
        let p = members[i];
        let ghost old_src = src;
        if p.0 != s {
            r.push(p);
            proof {
                src = src.push(i as int);
            }
        }
        proof {
            assert forall|j: int| 0 <= j < i + 1 && (#[trigger] members@[j]).0 != s implies exists|m: int|
                0 <= m < r@.len() && #[trigger] src[m] == j by {
                if j < i {
                    let m = choose|m: int| 0 <= m < old_src.len() && #[trigger] old_src[m] == j;
                    assert(src[m] == j);
                } else {
                    assert(src[r@.len() - 1] == j);
                }
            }
        }
        i = i + 1;
    }
    proof {
        assert forall|k: int| 0 <= k < r@.len() implies (#[trigger] r@[k]).1 < bound by {
            assert(r@[k] == members@[src[k]]);
        }
        assert forall|a: int, b: int| 0 <= a < r@.len() && 0 <= b < r@.len() && (#[trigger] r@[a]).0
            == (#[trigger] r@[b]).0 implies a == b by {
            if a < b {
                assert(src[a] < src[b]);
            } else if b < a {
                assert(src[b] < src[a]);
            }
        }
        assert forall|p: (u64, usize)| r@.contains(p) <==> members@.contains(p) && p.0 != s by {
            if members@.contains(p) && p.0 != s {
                let j = choose|j: int| 0 <= j < members@.len() && members@[j] == p;
                let m = choose|m: int| 0 <= m < r@.len() && #[trigger] src[m] == j;
                assert(r@[m] == p);
            }
            if r@.contains(p) {
                let m = choose|m: int| 0 <= m < r@.len() && r@[m] == p;
                assert(members@[src[m]] == p);
            }
        }
    }
    r
}

/// The sessions in room `room`, leaving out `except`.
fn room_members(members: &Vec<(u64, usize)>, room: usize, except: u64) -> (r: Vec<u64>)
    requires
        unique_sessions(members@),
    ensures
        r@.no_duplicates(),
        forall|x: u64| r@.contains(x) <==> members@.contains((x, room)) && x != except,
{
    let mut r: Vec<u64> = Vec::new();
    let ghost mut src: Seq<int> = Seq::empty();
    let mut i: usize = 0;
    while i < members.len()
        invariant
            0 <= i <= members@.len(),
            src.len() == r@.len(),
            unique_sessions(members@),
            forall|m: int| 0 <= m < r@.len() ==> 0 <= #[trigger] src[m] < i && members@[src[m]] == (r@[m], room)
                && r@[m] != except,
            forall|m: int, n: int| 0 <= m < n < r@.len() ==> #[trigger] src[m] < #[trigger] src[n],
            forall|j: int| 0 <= j < i && (#[trigger] members@[j]).1 == room && members@[j].0 != except
                ==> exists|m: int| 0 <= m < r@.len() && #[trigger] src[m] == j,
        decreases members@.len() - i,
    {
        let p = members[i];
        let ghost old_src = src;
        if p.1 == room && p.0 != except {
            r.push(p.0);
            proof {
                src = src.push(i as int);
            }
        }
        proof {
            assert forall|j: int| 0 <= j < i + 1 && (#[trigger] members@[j]).1 == room && members@[j].0 != except
                implies exists|m: int| 0 <= m < r@.len() && #[trigger] src[m] == j by {
                if j < i {
                    let m = choose|m: int| 0 <= m < old_src.len() && #[trigger] old_src[m] == j;
                    assert(src[m] == j);
                } else {
                    assert(src[r@.len() - 1] == j);
                }
            }
        }
        i = i + 1;
    }
    proof {
        assert forall|a: int, b: int| 0 <= a < r@.len() && 0 <= b < r@.len() && a != b implies r@[a] != r@[b] by {
            if a < b {
                assert(src[a] < src[b]);
                assert(members@[src[a]].0 == r@[a]);
                assert(members@[src[b]].0 == r@[b]);
            } else {
                assert(src[b] < src[a]);
                assert(members@[src[a]].0 == r@[a]);
                assert(members@[src[b]].0 == r@[b]);
            }
        }
        assert forall|x: u64| r@.contains(x) <==> members@.contains((x, room)) && x != except by {
            if members@.contains((x, room)) && x != except {
                let j = choose|j: int| 0 <= j < members@.len() && members@[j] == (x, room);
                let m = choose|m: int| 0 <= m < r@.len() && #[trigger] src[m] == j;
                assert(r@[m] == x);
            }
            if r@.contains(x) {
                let m = choose|m: int| 0 <= m < r@.len() && r@[m] == x;
                assert(members@[src[m]] == (x, room));
            }
        }
    }
    r
}

/// The single owner of calendars, sessions and room membership.
pub struct CalServer {
    sessions: HashSet<u64>,
    calendars: Vec<Calendar>,
    members: Vec<(u64, usize)>,
}

impl CalServer {
    /// The live sessions.
    pub closed spec fn sessions(&self) -> Set<u64> {
        self.sessions@
    }

    /// The calendars' names, in order of creation.
    pub closed spec fn names(&self) -> Seq<Seq<char>> {
        self.calendars@.map_values(|c: Calendar| c.name_view())
    }

    /// The events of the calendar at position `i`.
    pub closed spec fn events_at(&self, i: int) -> Map<u128, EventView> {
        self.calendars@[i].events()
    }

    /// Room membership: `(s, i)` when session `s` is in the room of the
    /// calendar at position `i`.
    pub closed spec fn memberships(&self) -> Set<(u64, usize)> {
        Set::new(|p: (u64, usize)| self.members@.contains(p))
    }

    /// The position of the calendar called `name`.
    pub open spec fn index_of(&self, name: Seq<char>) -> int {
        choose|i: int| 0 <= i < self.names().len() && self.names()[i] == name
    }

    /// Whether a calendar is called `name`.
    pub open spec fn has_calendar(&self, name: Seq<char>) -> bool {
        exists|i: int| 0 <= i < self.names().len() && self.names()[i] == name
    }

    /// The sessions in the room of the calendar at position `i`.
    pub open spec fn room(&self, i: int) -> Set<u64> {
        Set::new(|s: u64| self.memberships().contains((s, i as usize)))
    }

    pub closed spec fn wf(&self) -> bool {
        &&& self.sessions@.finite()
        &&& forall|i: int| 0 <= i < self.calendars@.len() ==> (#[trigger] self.calendars@[i]).wf()
        &&& forall|i: int, j: int| 0 <= i < j < self.calendars@.len() ==>
            #[trigger] self.calendars@[i].name_view() != #[trigger] self.calendars@[j].name_view()
        &&& forall|i: int| 0 <= i < self.members@.len() ==> (#[trigger] self.members@[i]).1 < self.calendars@.len()
        &&& forall|i: int, j: int| 0 <= i < self.members@.len() && 0 <= j < self.members@.len()
            && (#[trigger] self.members@[i]).0 == (#[trigger] self.members@[j]).0 ==> i == j
    }

    /// Calendar names are distinct, so a name has one position.
    pub proof fn lemma_index_of(&self, name: Seq<char>)
        requires
            self.wf(),
            self.has_calendar(name),
        ensures
            0 <= self.index_of(name) < self.names().len(),
            self.names()[self.index_of(name)] == name,
            forall|i: int| 0 <= i < self.names().len() && self.names()[i] == name ==> i == self.index_of(name),
    {
        let k = self.index_of(name);
        assert forall|i: int| 0 <= i < self.names().len() && self.names()[i] == name implies i == k by {
            if i < k {
                assert(self.calendars@[i].name_view() != self.calendars@[k].name_view());
            } else if k < i {
                assert(self.calendars@[k].name_view() != self.calendars@[i].name_view());
            }
        }
    }

    /// A hub with no calendars, sessions or members.
    pub fn new() -> (r: CalServer)
        ensures
            r.wf(),
            r.sessions() == Set::<u64>::empty(),
            r.names() == Seq::<Seq<char>>::empty(),
            r.memberships() == Set::<(u64, usize)>::empty(),
    {
        let r = CalServer { sessions: HashSet::new(), calendars: Vec::new(), members: Vec::new() };
        assert(r.names() =~= Seq::<Seq<char>>::empty());
        assert(r.memberships() =~= Set::<(u64, usize)>::empty());
        r
    }

    /// The position of the calendar called `name`, if any.
    fn find(&self, name: &String) -> (r: Option<usize>)
        requires
            self.wf(),
        ensures
            match r {
                Some(i) => self.has_calendar(name@) && i == self.index_of(name@),
                None => !self.has_calendar(name@),
            },
    {
        let mut i: usize = 0;
        while i < self.calendars.len()
            invariant
                self.wf(),
                0 <= i <= self.calendars@.len(),
                forall|j: int| 0 <= j < i ==> self.names()[j] != name@,
            decreases self.calendars@.len() - i,
        {
            if self.calendars[i].has_name(name) {
                proof {
                    assert(self.names()[i as int] == name@);
                    self.lemma_index_of(name@);
                }
                return Some(i);
            }
            i = i + 1;
        }
        None
    }

    /// The same calendars, with the same events, in the same order.
    pub open spec fn same_calendars(&self, o: &CalServer) -> bool {
        &&& self.names() == o.names()
        &&& forall|i: int| 0 <= i < self.names().len() ==> #[trigger] self.events_at(i) == o.events_at(i)
    }

    /// Every calendar but the one at `idx` has the events it had in `o`.
    pub open spec fn others_unchanged(&self, o: &CalServer, idx: int) -> bool {
        forall|i: int| 0 <= i < o.names().len() && i != idx ==> #[trigger] self.events_at(i) == o.events_at(i)
    }

    /// `n` lists, once each, the members of room `idx` other than `requester`.
    pub open spec fn addressed(&self, idx: int, requester: u64, n: Seq<u64>) -> bool {
        &&& n.no_duplicates()
        &&& forall|x: u64| n.contains(x) <==> self.room(idx).contains(x) && x != requester
    }

    /// The events of the calendar called `name`.
    pub open spec fn events_of(&self, name: Seq<char>) -> Map<u128, EventView> {
        self.events_at(self.index_of(name))
    }

    /// Some event of the calendar called `name` that meets `range` has an
    /// instant without an RFC 3339 form.
    pub open spec fn unserializable_in(&self, name: Seq<char>, range: EventRange) -> bool {
        exists|id: u128| #[trigger] self.events_of(name).contains_key(id) && intersects(
            self.events_of(name)[id].start,
            self.events_of(name)[id].end,
            range,
        ) && !serializable(self.events_of(name)[id])
    }

    /// Membership after `session` joins the room of the calendar called
    /// `name`: it leaves any other room.
    pub open spec fn joined_memberships(&self, session: u64, name: Seq<char>) -> Set<(u64, usize)> {
        Set::new(
            |p: (u64, usize)| (self.memberships().contains(p) && p.0 != session) || p == (
                session,
                self.index_of(name) as usize,
            ),
        )
    }

    /// Nothing observable differs.
    pub open spec fn same_state(&self, o: &CalServer) -> bool {
        &&& self.same_calendars(o)
        &&& self.sessions() == o.sessions()
        &&& self.memberships() == o.memberships()
    }

    /// The number of live sessions.
    pub fn session_count(&self) -> (r: usize)
        requires
            self.wf(),
        ensures
            r == self.sessions().len(),
    {
        self.sessions.len()
    }

    /// Whether `id` is a live session.
    pub fn has_session(&self, id: u64) -> (r: bool)
        ensures
            r == self.sessions().contains(id),
    {
        self.sessions.contains(&id)
    }

    /// Registers `id` as a live session; `false` when it already was one.
    pub fn register_session(&mut self, id: u64) -> (r: bool)
        requires
            old(self).wf(),
        ensures
            final(self).wf(),
            r == !old(self).sessions().contains(id),
            final(self).sessions() == old(self).sessions().insert(id),
            final(self).same_calendars(old(self)),
            final(self).memberships() == old(self).memberships(),
    {
        self.sessions.insert(id)
    }

    /// Registers a new session under an identifier that no live session
    /// has, drawn at random and, should it collide, moved up to the next free
    /// value. `None` only when every identifier but one is taken.
    pub fn connect(&mut self) -> (r: Option<u64>)
        requires
            old(self).wf(),
        ensures
            final(self).wf(),
            final(self).same_calendars(old(self)),
            final(self).memberships() == old(self).memberships(),
            old(self).sessions().len() < u64::MAX <==> r is Some,
            match r {
                Some(id) => !old(self).sessions().contains(id) && final(self).sessions()
                    == old(self).sessions().insert(id),
                None => final(self).sessions() == old(self).sessions(),
            },
    {
        if self.sessions.len() as u64 == u64::MAX {
            return None;
        }
        let id = unused_session_id(&self.sessions, random_session_id());
        self.sessions.insert(id);
        Some(id)
    }

    /// Ends a session: it leaves the session table and every room.
    pub fn disconnect(&mut self, id: u64)
        requires
            old(self).wf(),
        ensures
            final(self).wf(),
            final(self).sessions() == old(self).sessions().remove(id),
            final(self).memberships() == Set::new(
                |p: (u64, usize)| old(self).memberships().contains(p) && p.0 != id,
            ),
            final(self).same_calendars(old(self)),
    {
        self.sessions.remove(&id);
        self.members = without_session(&self.members, id, self.calendars.len());
        proof {
            assert(self.memberships() =~= Set::new(
                |p: (u64, usize)| old(self).memberships().contains(p) && p.0 != id,
            ));
        }
    }

    /// Creates an empty calendar with an empty room. Fails with
    /// `CalendarCreationFailed`, changing nothing, when the name is empty or
    /// taken.
    pub fn create_calendar(&mut self, name: String) -> (r: Result<(), HubError>)
        requires
            old(self).wf(),
        ensures
            final(self).wf(),
            final(self).sessions() == old(self).sessions(),
            final(self).memberships() == old(self).memberships(),
            (name@.len() == 0 || old(self).has_calendar(name@)) <==> r is Err,
            r matches Err(e) ==> e == HubError::CalendarCreationFailed && final(self).same_calendars(old(self)),
            r is Ok ==> {
                &&& final(self).names() == old(self).names().push(name@)
                &&& final(self).events_at(old(self).names().len() as int) == Map::<u128, EventView>::empty()
                &&& forall|i: int| 0 <= i < old(self).names().len() ==> #[trigger] final(self).events_at(i)
                    == old(self).events_at(i)
                &&& final(self).room(old(self).names().len() as int) == Set::<u64>::empty()
            },
    {
        if name.as_str().is_empty() {
            return Err(HubError::CalendarCreationFailed);
        }
        if self.find(&name).is_some() {
            return Err(HubError::CalendarCreationFailed);
        }
        proof {
            assert(name@.len() != 0);
        }
        let ghost n: int = old(self).calendars@.len() as int;
        let cal = Calendar::new(name);
        self.calendars.push(cal);
        proof {
            assert(self.names() =~= old(self).names().push(name@));
            assert forall|i: int, j: int| 0 <= i < j < self.calendars@.len() implies
                #[trigger] self.calendars@[i].name_view() != #[trigger] self.calendars@[j].name_view() by {
                if j == n {
                    assert(old(self).names()[i] == self.calendars@[i].name_view());
                }
            }
            let nu = old(self).calendars.len();
            assert(self.room(n) =~= Set::<u64>::empty()) by {
                assert forall|s: u64| !#[trigger] self.memberships().contains((s, nu)) by {
                    if self.members@.contains((s, nu)) {
                        let k = choose|k: int| 0 <= k < self.members@.len() && self.members@[k] == (s, nu);
                        assert(self.members@[k].1 < n);
                    }
                }
            }
        }
        Ok(())
    }

    /// Moves a session into the room of the calendar called `name`, out of
    /// any other room. Fails with `CalendarNotFound`, changing nothing, when
    /// no calendar has that name.
    pub fn join_calendar(&mut self, session: u64, name: &str) -> (r: Result<(), HubError>)
        requires
            old(self).wf(),
        ensures
            final(self).wf(),
            final(self).sessions() == old(self).sessions(),
            final(self).same_calendars(old(self)),
            !old(self).has_calendar(name@) <==> r is Err,
            r matches Err(e) ==> e == HubError::CalendarNotFound && final(self).memberships()
                == old(self).memberships(),
            r is Ok ==> final(self).memberships() == old(self).joined_memberships(session, name@),
    {
        let key = name.to_owned();
        let idx = match self.find(&key) {
            Some(i) => i,
            None => return Err(HubError::CalendarNotFound),
        };
        let mut rest = without_session(&self.members, session, self.calendars.len());
        let ghost before = rest@;
        rest.push((session, idx));
        self.members = rest;
        proof {
            let ms = self.members@;
            assert(ms == before.push((session, idx)));
            assert forall|a: int, b: int| 0 <= a < ms.len() && 0 <= b < ms.len() && (#[trigger] ms[a]).0
                == (#[trigger] ms[b]).0 implies a == b by {
                if a < before.len() && b < before.len() {
                    assert(before[a] == ms[a] && before[b] == ms[b]);
                } else if a < before.len() {
                    assert(before.contains(before[a]));
                } else if b < before.len() {
                    assert(before.contains(before[b]));
                }
            }
            assert(self.memberships() =~= old(self).joined_memberships(session, name@)) by {
                assert forall|p: (u64, usize)| ms.contains(p) implies (old(self).members@.contains(p) && p.0
                    != session) || p == (session, idx) by {
                    let k = choose|k: int| 0 <= k < ms.len() && ms[k] == p;
                    if k < before.len() {
                        assert(before[k] == p);
                        assert(before.contains(p));
                    }
                }
                assert forall|p: (u64, usize)| (old(self).members@.contains(p) && p.0 != session) implies
                    ms.contains(p) by {
                    assert(before.contains(p));
                    let k = choose|k: int| 0 <= k < before.len() && before[k] == p;
                    assert(ms[k] == p);
                }
                assert(ms[ms.len() - 1] == (session, idx));
            }
        }
        Ok(())
    }

    /// The calendars' names, one per line, in order of creation.
    pub fn list_calendars(&self) -> (r: String)
        requires
            self.wf(),
        ensures
            r@ == joined_lines(self.names()),
    {
        let mut out = String::new();
        let mut i: usize = 0;
        while i < self.calendars.len()
            invariant
                0 <= i <= self.calendars@.len(),
                out@ == joined(self.names().take(i as int), "\n"@),
            decreases self.calendars@.len() - i,
        {
            if i > 0 {
                out.append("\n");
            }
            out.append(self.calendars[i].name());
            proof {
                assert(self.names().take(i + 1).drop_last() =~= self.names().take(i as int));
            }
            i = i + 1;
        }
        proof {
            assert(self.names().take(i as int) =~= self.names());
        }
        out
    }

    /// Adds an event with a fresh identifier to the named calendar, and addresses a notice to the other members of its room.
    pub fn add_event(&mut self, requester: u64, calendar: &str, name: String, start: i64, end: i64) -> (r:
        HubResult<(EventID, Notice)>)
        requires
            old(self).wf(),
        ensures
            final(self).wf(),
            final(self).sessions() == old(self).sessions(),
            final(self).memberships() == old(self).memberships(),
            final(self).names() == old(self).names(),
            !old(self).has_calendar(calendar@) ==> fails_with(r, HubError::CalendarNotFound),
            old(self).has_calendar(calendar@) && start >= end ==> fails_with(r, HubError::InvalidEventTime),
            old(self).has_calendar(calendar@) && start < end && old(self).events_of(calendar@).len()
                >= CALENDAR_CAPACITY ==> fails_with(r, HubError::CalendarFull),
            old(self).has_calendar(calendar@) && start < end && old(self).events_of(calendar@).len()
                < CALENDAR_CAPACITY ==> (r is Ok),
            r is Err ==> final(self).same_calendars(old(self)),
            r matches Ok(v) ==> !old(self).events_of(calendar@).contains_key(v.0.0),
            r matches Ok(v) ==> final(self).events_of(calendar@) == old(self).events_of(calendar@).insert(
                v.0.0,
                requested_event(v.0.0, start, end, name@),
            ),
            r matches Ok(v) ==> final(self).others_unchanged(old(self), old(self).index_of(calendar@)),
            r matches Ok(v) ==> old(self).addressed(old(self).index_of(calendar@), requester, v.1.recipients@),
            r matches Ok(v) ==> v.1.text@ == added_notice(v.0.0),
    {
        let key = calendar.to_owned();
        let idx = match self.find(&key) {
            Some(i) => i,
            None => return Err(HubError::CalendarNotFound),
        };
        if start >= end {
            return Err(HubError::InvalidEventTime);
        }
        if self.calendars[idx].len() >= CALENDAR_CAPACITY {
            return Err(HubError::CalendarFull);
        }
        let id = unused_event_id(&self.calendars[idx], crate::event::random_event_id());
        let event = Event { uid: EventID(id), start, end, name, description: None };
        let ghost ev = event@;
        let ghost old_cals = self.calendars@;
        let _ = self.calendars[idx].add_event(event);
        proof {
            assert(self.calendars@ == old_cals.update(idx as int, self.calendars@[idx as int]));
            assert(self.names() =~= old(self).names());
            assert forall|i: int, j: int| 0 <= i < j < self.calendars@.len() implies
                #[trigger] self.calendars@[i].name_view() != #[trigger] self.calendars@[j].name_view() by {
                assert(old(self).names()[i] == self.names()[i]);
                assert(old(self).names()[j] == self.names()[j]);
            }
        }
        let recipients = room_members(&self.members, idx, requester);
        let mut text = "Event added: ".to_owned();
        text.append(decimal_text(id).as_str());
        Ok((EventID(id), Notice { recipients, text }))
    }

    /// Deletes an event from the calendar called `calendar`, and addresses a
    /// notice to the other members of its room.
    pub fn delete_event(&mut self, requester: u64, calendar: &str, id: EventID) -> (r: HubResult<Notice>)
        requires
            old(self).wf(),
        ensures
            final(self).wf(),
            final(self).sessions() == old(self).sessions(),
            final(self).memberships() == old(self).memberships(),
            final(self).names() == old(self).names(),
            !old(self).has_calendar(calendar@) ==> fails_with(r, HubError::CalendarNotFound),
            old(self).has_calendar(calendar@) && !old(self).events_of(calendar@).contains_key(id.0) ==> fails_with(
                r,
                HubError::EventNotFound,
            ),
            old(self).has_calendar(calendar@) && old(self).events_of(calendar@).contains_key(id.0) ==> (r is Ok),
            r is Err ==> final(self).same_calendars(old(self)),
            r is Ok ==> final(self).events_of(calendar@) == old(self).events_of(calendar@).remove(id.0),
            r is Ok ==> final(self).others_unchanged(old(self), old(self).index_of(calendar@)),
            r matches Ok(n) ==> old(self).addressed(old(self).index_of(calendar@), requester, n.recipients@),
            r matches Ok(n) ==> n.text@ == deleted_notice(id.0),
    {
        let key = calendar.to_owned();
        let idx = match self.find(&key) {
            Some(i) => i,
            None => return Err(HubError::CalendarNotFound),
        };
        let ghost old_cals = self.calendars@;
        let removed = self.calendars[idx].remove_event(id);
        proof {
            assert(self.calendars@ == old_cals.update(idx as int, self.calendars@[idx as int]));
            assert(self.names() =~= old(self).names());
            assert forall|i: int, j: int| 0 <= i < j < self.calendars@.len() implies
                #[trigger] self.calendars@[i].name_view() != #[trigger] self.calendars@[j].name_view() by {
                assert(old(self).names()[i] == self.names()[i]);
                assert(old(self).names()[j] == self.names()[j]);
            }
        }
        match removed {
            Some(_) => {
                let recipients = room_members(&self.members, idx, requester);
                let mut text = "Event deleted: ".to_owned();
                text.append(decimal_text(id.0).as_str());
                Ok(Notice { recipients, text })
            },
            None => Err(HubError::EventNotFound),
        }
    }

    /// The event, as JSON, with identifier `id` in the calendar called
    /// `calendar`.
    pub fn get_event(&self, calendar: &str, id: EventID) -> (r: HubResult<String>)
        requires
            self.wf(),
        ensures
            !self.has_calendar(calendar@) ==> fails_with(r, HubError::CalendarNotFound),
            self.has_calendar(calendar@) && !self.events_of(calendar@).contains_key(id.0) ==> fails_with(
                r,
                HubError::EventNotFound,
            ),
            self.has_calendar(calendar@) && self.events_of(calendar@).contains_key(id.0) ==> (fails_with(
                r,
                HubError::EventFailedToSerialize,
            ) <==> !serializable(self.events_of(calendar@)[id.0])),
            self.has_calendar(calendar@) && self.events_of(calendar@).contains_key(id.0) && serializable(
                self.events_of(calendar@)[id.0],
            ) ==> (r is Ok),
            r matches Ok(s) ==> s@ == event_json(self.events_of(calendar@)[id.0]),
    {
        let key = calendar.to_owned();
        let idx = match self.find(&key) {
            Some(i) => i,
            None => return Err(HubError::CalendarNotFound),
        };
        match self.calendars[idx].get(id) {
            Some(e) => match e.serialize() {
                Some(s) => Ok(s),
                None => Err(HubError::EventFailedToSerialize),
            },
            None => Err(HubError::EventNotFound),
        }
    }

    /// The events of the calendar called `calendar` that meet `range`, as a
    /// JSON array ascending by start; no partial list when one of them does
    /// not serialize.
    pub fn get_events_in_range(&self, calendar: &str, range: EventRange) -> (r: HubResult<String>)
        requires
            self.wf(),
        ensures
            !self.has_calendar(calendar@) <==> fails_with(r, HubError::CalendarNotFound),
            self.has_calendar(calendar@) ==> ((r is Ok) || fails_with(r, HubError::EventFailedToSerialize)),
            self.has_calendar(calendar@) ==> (fails_with(r, HubError::EventFailedToSerialize)
                <==> self.unserializable_in(calendar@, range)),
            r matches Ok(s) ==> (exists|evs: Seq<EventView>| #[trigger] range_result(
                self.events_of(calendar@),
                range,
                evs,
            ) && s@ == json_array(evs)),
    {
        let key = calendar.to_owned();
        let idx = match self.find(&key) {
            Some(i) => i,
            None => return Err(HubError::CalendarNotFound),
        };
        let events = self.calendars[idx].range(range);
        let ghost evs = events@.map_values(|e: &Event| e@);
        let ghost items = evs.map_values(|e: EventView| event_json(e));
        let mut body = String::new();
        let mut i: usize = 0;
        while i < events.len()
            invariant
                self.wf(),
                self.has_calendar(calendar@),
                range_result(self.events_of(calendar@), range, evs),
                forall|j: int| 0 <= j < i ==> serializable(#[trigger] evs[j]),
                0 <= i <= events@.len(),
                evs == events@.map_values(|e: &Event| e@),
                items == evs.map_values(|e: EventView| event_json(e)),
                body@ == joined(items.take(i as int), ","@),
            decreases events@.len() - i,
        {
            let text = match events[i].serialize() {
                Some(s) => s,
                None => {
                    proof {
                        let v = evs[i as int];
                        assert(self.events_of(calendar@).contains_key(v.id));
                        assert(self.events_of(calendar@)[v.id] == v);
                    }
                    return Err(HubError::EventFailedToSerialize);
                },
            };
            if i > 0 {
                body.append(",");
            }
            body.append(text.as_str());
            proof {
                assert(items.take(i + 1).drop_last() =~= items.take(i as int));
            }
            i = i + 1;
        }
        proof {
            assert(items.take(i as int) =~= items);
            let evm = self.events_of(calendar@);
            assert forall|id: u128| #[trigger] evm.contains_key(id) && intersects(evm[id].start, evm[id].end, range)
                implies serializable(evm[id]) by {
                let m = choose|m: int| 0 <= m < evs.len() && evs[m].id == id;
                assert(evs[m] == evm[evs[m].id]);
            }
        }
        let mut out = "[".to_owned();
        out.append(body.as_str());
        out.append("]");
        proof {
            assert(out@ =~= json_array(evs));
        }
        Ok(out)
    }
}

/// Texts joined with `sep` between each two.
pub open spec fn joined(items: Seq<Seq<char>>, sep: Seq<char>) -> Seq<char>
    decreases items.len(),
{
    if items.len() == 0 {
        Seq::empty()
    } else if items.len() == 1 {
        items[0]
    } else {
        joined(items.drop_last(), sep) + sep + items.last()
    }

}

/// Texts joined with a newline between each two.
pub open spec fn joined_lines(names: Seq<Seq<char>>) -> Seq<char> {
    joined(names, "\n"@)
}

/// The JSON array text of the given events.
pub open spec fn json_array(events: Seq<EventView>) -> Seq<char> {
    "["@ + joined(events.map_values(|e: EventView| event_json(e)), ","@) + "]"@
}

/// Whether `r` is the error `e`.
pub open spec fn fails_with<T>(r: Result<T, HubError>, e: HubError) -> bool {
    r matches Err(x) && x == e
}

/// The event a hub builds from a request.
pub open spec fn requested_event(id: u128, start: i64, end: i64, name: Seq<char>) -> EventView {
    EventView { id, start: start as int, end: end as int, name, description: None }
}

/// The text sent to a room when an event is added to it.
pub open spec fn added_notice(id: u128) -> Seq<char> {
    "Event added: "@ + decimal(id as nat)
}

/// The text sent to a room when an event is deleted from it.
pub open spec fn deleted_notice(id: u128) -> Seq<char> {
    "Event deleted: "@ + decimal(id as nat)
}

/// An identifier that no event of `cal` has: the first free one at or above
/// `start`, wrapping.
fn unused_event_id(cal: &Calendar, start: u128) -> (r: u128)
    requires
        cal.wf(),
        cal.events().len() < CALENDAR_CAPACITY,
    ensures
        !cal.events().contains_key(r),
{
    proof { cal.lemma_events_finite(); }
    let ghost used = cal.events().dom();
    let mut c = start;
    let ghost mut tried: Set<u128> = Set::empty();
    while cal.contains(EventID(c))
        invariant
            cal.wf(),
            used == cal.events().dom(),
            used.finite(),
            used.len() < CALENDAR_CAPACITY,
            tried.finite(),
            tried.subset_of(used),
            c as int == probe_u128(start, tried.len() as int),
            forall|x: u128| #[trigger] tried.contains(x) ==> offset_u128(start, x) < tried.len(),
        decreases used.len() - tried.len(),
    {
        proof {
            vstd::set_lib::lemma_len_subset(tried, used);
            assert(offset_u128(start, c) == tried.len());
            assert(!tried.contains(c));
            tried = tried.insert(c);
            vstd::set_lib::lemma_len_subset(tried, used);
        }
        c = c.wrapping_add(1);
    }
    c
}

/// Two to the hundred-and-twenty-eighth.
pub open spec fn span_u128() -> int {
    u128::MAX as int + 1
}

/// The `k`-th value probed upward from `start`, wrapping past the top.
pub open spec fn probe_u128(start: u128, k: int) -> int {
    if start + k < span_u128() { start + k } else { start + k - span_u128() }
}

/// How many steps upward from `start` reach `x`, wrapping past the top.
pub open spec fn offset_u128(start: u128, x: u128) -> int {
    if x >= start { x - start } else { x + span_u128() - start }
}

} // verus!
