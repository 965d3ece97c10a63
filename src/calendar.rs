//! A named calendar: one event store plus the policy that an identifier is
//! added at most once.
use vstd::prelude::*;
use crate::event::{Event, EventID, EventRange, EventView};
use crate::store::{EventStore, range_result};

verus! {

/// The events after an add, and whether the add reported a conflict: an
/// event whose identifier is already present changes nothing.
pub open spec fn add_outcome(events: Map<u128, EventView>, e: EventView) -> (Map<u128, EventView>, bool) {
    if events.contains_key(e.id) {
        (events, true)
    } else {
        (events.insert(e.id, e), false)
    }
}

/// The most events one calendar holds.
pub const CALENDAR_CAPACITY: usize = 4294967294;

/// A named calendar of events.
pub struct Calendar {
    name: String,
    store: EventStore,
}

impl Calendar {
    pub closed spec fn wf(&self) -> bool {
        self.store.wf()
    }

    /// The calendar's name.
    pub closed spec fn name_view(&self) -> Seq<char> {
        self.name@
    }

    /// The calendar's events, by identifier.
    pub closed spec fn events(&self) -> Map<u128, EventView> {
        self.store.events()
    }

    /// An empty calendar with the given name.
    pub fn new(name: String) -> (r: Calendar)
        ensures
            r.wf(),
            r.name_view() == name@,
            r.events() == Map::<u128, EventView>::empty(),
    {
        Calendar { name, store: EventStore::new() }
    }

    /// The calendar's events are finitely many.
    pub proof fn lemma_events_finite(&self)
        requires
            self.wf(),
        ensures
            self.events().dom().finite(),
    {
        self.store.lemma_events_finite();
    }

    /// Whether the calendar is called `name`.
    pub fn has_name(&self, name: &String) -> (r: bool)
        ensures
            r == (self.name_view() == name@),
    {
        self.name == *name
    }

    pub fn name(&self) -> (r: &str)
        ensures
            r@ == self.name_view(),
    {
        self.name.as_str()
    }

    /// The number of events.
    pub fn len(&self) -> (r: usize)
        requires
            self.wf(),
        ensures
            r == self.events().len(),
    {
        self.store.len()
    }

    /// Whether an event with this identifier is present.
    pub fn contains(&self, id: EventID) -> (r: bool)
        requires
            self.wf(),
        ensures
            r == self.events().contains_key(id.0),
    {
        self.store.contains(id)
    }

    /// Adds an event. When its identifier is already present, nothing
    /// changes and the event is handed back as the conflict.
    pub fn add_event(&mut self, event: Event) -> (r: Option<Event>)
        requires
            old(self).wf(),
            event.wf(),
            old(self).events().contains_key(event.uid.0) || old(self).events().len() < CALENDAR_CAPACITY,
        ensures
            final(self).wf(),
            final(self).name_view() == old(self).name_view(),
            (final(self).events(), r is Some) == add_outcome(old(self).events(), event@),
            r matches Some(e) ==> e@ == event@,
    {
        if self.store.contains(event.uid) {
            return Some(event);
        }
        self.store.insert(event);
        None
    }

    /// Removes the event with this identifier and hands it back.
    pub fn remove_event(&mut self, id: EventID) -> (r: Option<Event>)
        requires
            old(self).wf(),
        ensures
            final(self).wf(),
            final(self).name_view() == old(self).name_view(),
            match r {
                Some(e) => old(self).events().contains_key(id.0) && e@ == old(self).events()[id.0]
                    && final(self).events() == old(self).events().remove(id.0),
                None => !old(self).events().contains_key(id.0) && final(self).events()
                    == old(self).events(),
            },
    {
        self.store.remove(id)
    }

    /// The event with this identifier, if present.
    pub fn get(&self, id: EventID) -> (r: Option<&Event>)
        requires
            self.wf(),
        ensures
            match r {
                Some(e) => self.events().contains_key(id.0) && e@ == self.events()[id.0],
                None => !self.events().contains_key(id.0),
            },
    {
        self.store.get(id)
    }

    /// The events whose span meets `range`, ascending by start.
    pub fn range(&self, range: EventRange) -> (r: Vec<&Event>)
        requires
            self.wf(),
        ensures
            range_result(self.events(), range, r@.map_values(|e: &Event| e@)),
    {
        self.store.range(range)
    }
}

/// Adding the same event twice: the second add reports a conflict and leaves
/// the calendar as the first left it.
pub proof fn lemma_add_twice_is_conflict(events: Map<u128, EventView>, e: EventView)
    ensures
        add_outcome(add_outcome(events, e).0, e).0 == add_outcome(events, e).0,
        add_outcome(add_outcome(events, e).0, e).1,
{
}

} // verus!
