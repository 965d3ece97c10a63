//! The event store: an arena of reusable slots holding events, an ordered
//! index over `(start, slot handle)` keys for time-range scans, and a lookup
//! from event identifier to slot handle.
use vstd::prelude::*;
use std::collections::{BTreeSet, HashMap};
use slotmap::{DefaultKey, SlotMap};
use crate::event::{Event, EventID, EventRange, EventView, intersects};

verus! {

broadcast use vstd::std_specs::hash::group_hash_axioms, vstd::std_specs::btree::group_btree_axioms,
    vstd::laws_cmp::group_laws_cmp;

/// The slot arena of a store: a `SlotMap`, reached only through the
/// functions below.
#[verifier::external_body]
pub struct Arena {
    slots: SlotMap<DefaultKey, Event>,
}

/// An index key: an event's start, its identifier, and its slot handle.
pub type IndexKey = (i64, u128, u64);

/// The most events an arena holds: slotmap keeps one sentinel slot besides
/// the `u32::MAX - 1` it hands out.
pub const ARENA_CAPACITY: usize = 4294967294;

/// The events an arena holds, by the 64-bit form (`KeyData::as_ffi`) of
/// their slot handles.
pub uninterp spec fn arena_slots(a: Arena) -> Map<u64, Event>;

/// The contents of an arena that holds nothing.
pub open spec fn no_slots() -> Map<u64, Event> {
    Map::empty()
}

/// Relies on `slotmap::SlotMap::new`: an arena that holds nothing.
#[verifier::external_body]
fn arena_new() -> (r: Arena)
    ensures
        arena_slots(r) == no_slots(),
{
    Arena { slots: SlotMap::new() }
}

/// Relies on `slotmap::SlotMap::insert`: the event goes into a vacant slot,
/// whose handle no stored event has. Slot 0 is a sentinel, so with no vacant
/// slot the map holds `u32::MAX - 1` events and insert panics ("SlotMap is
/// full"); below that count it does not.
#[verifier::external_body]
fn arena_insert(a: &mut Arena, e: Event) -> (h: u64)
    requires
        arena_slots(*old(a)).len() < ARENA_CAPACITY,
    ensures
        !arena_slots(*old(a)).contains_key(h),
        arena_slots(*final(a)) == arena_slots(*old(a)).insert(h, e),
{
    slotmap::Key::data(&a.slots.insert(e)).as_ffi()
}

/// Relies on `slotmap::SlotMap::get`: a handle of a stored event reaches it.
#[verifier::external_body]
fn arena_get(a: &Arena, h: u64) -> (r: Option<&Event>)
    requires
        arena_slots(*a).contains_key(h),
    ensures
        r == Some(&arena_slots(*a)[h]),
{
    a.slots.get(DefaultKey::from(slotmap::KeyData::from_ffi(h)))
}

/// Relies on `slotmap::SlotMap::remove`: the event under a live handle
/// leaves its slot and is handed back.
#[verifier::external_body]
fn arena_remove(a: &mut Arena, h: u64) -> (r: Option<Event>)
    requires
        arena_slots(*old(a)).contains_key(h),
    ensures
        r == Some(arena_slots(*old(a))[h]),
        arena_slots(*final(a)) == arena_slots(*old(a)).remove(h),
{
    a.slots.remove(DefaultKey::from(slotmap::KeyData::from_ffi(h)))
}

/// Strict lexicographic order on index keys.
pub open spec fn key_lt(a: IndexKey, b: IndexKey) -> bool {
    a.0 < b.0 || (a.0 == b.0 && a.1 < b.1) || (a.0 == b.0 && a.1 == b.1 && a.2 < b.2)
}

/// Relies on `BTreeSet::range` over `..=(hi, u128::MAX, u64::MAX)`: the keys
/// whose start is at most `hi`, in ascending order.
#[verifier::external_body]
fn index_upto(index: &BTreeSet<IndexKey>, hi: i64) -> (r: Vec<IndexKey>)
    ensures
        forall|k: IndexKey| r@.contains(k) == (index@.contains(k) && hi >= k.0),
        forall|i: int, j: int| i >= 0 && j > i && r@.len() > j ==> #[trigger] key_lt(r@[i], r@[j]),
{
    index.range(..=(hi, u128::MAX, u64::MAX)).copied().collect()
}

/// A time-indexed store of events.
pub struct EventStore {
    arena: Arena,
    index: BTreeSet<IndexKey>,
    lookup: HashMap<u128, u64>,
}

impl EventStore {
    /// The stored events, by identifier.
    pub closed spec fn events(&self) -> Map<u128, EventView> {
        Map::new(
            |id: u128| self.lookup@.contains_key(id),
            |id: u128| arena_slots(self.arena)[self.lookup@[id]]@,
        )
    }

    /// Arena, index and lookup agree with one another.
    pub closed spec fn wf(&self) -> bool {
        let slots = arena_slots(self.arena);
        &&& slots.dom().finite()
        &&& slots.len() == self.lookup@.len()
        &&& forall|id: u128| #[trigger]
            self.lookup@.contains_key(id) ==> slots.contains_key(self.lookup@[id])
                && slots[self.lookup@[id]].uid.0 == id
        &&& forall|h: u64| #[trigger]
            slots.contains_key(h) ==> self.lookup@.contains_key(slots[h].uid.0)
                && self.lookup@[slots[h].uid.0] == h && slots[h].wf()
        &&& forall|k: IndexKey| #[trigger]
            self.index@.contains(k) <==> slots.contains_key(k.2) && slots[k.2].start == k.0
                && slots[k.2].uid.0 == k.1
    }

    /// The number of stored events.
    pub closed spec fn count(&self) -> nat {
        self.lookup@.len()
    }

    proof fn lemma_events_dom(&self)
        requires
            self.wf(),
        ensures
            self.events().dom() == self.lookup@.dom(),
            self.events().dom().finite(),
            self.events().len() == self.count(),
            forall|id: u128| #[trigger] self.events().contains_key(id) ==> self.events()[id].id == id
                && self.events()[id].start < self.events()[id].end,
    {
        assert(self.events().dom() =~= self.lookup@.dom());
    }

    /// A store holds finitely many events.
    pub proof fn lemma_events_finite(&self)
        requires
            self.wf(),
        ensures
            self.events().dom().finite(),
    {
        self.lemma_events_dom();
    }

    /// An empty store.
    pub fn new() -> (r: EventStore)
        ensures
            r.wf(),
            r.events() == Map::<u128, EventView>::empty(),
    {
        let r = EventStore { arena: arena_new(), index: BTreeSet::new(), lookup: HashMap::new() };
        assert(r.events() =~= Map::<u128, EventView>::empty());
        r
    }

    /// The number of stored events.
    pub fn len(&self) -> (r: usize)
        requires
            self.wf(),
        ensures
            r == self.events().len(),
    {
        proof { self.lemma_events_dom(); }
        self.lookup.len()
    }

    /// Whether an event with this identifier is stored.
    pub fn contains(&self, id: EventID) -> (r: bool)
        requires
            self.wf(),
        ensures
            r == self.events().contains_key(id.0),
    {
        self.lookup.contains_key(&id.0)
    }

    /// Stores an event whose identifier is not stored yet.
    pub fn insert(&mut self, event: Event) -> (r: EventID)
        requires
            old(self).wf(),
            event.wf(),
            !old(self).events().contains_key(event.uid.0),
            old(self).events().len() < ARENA_CAPACITY,
        ensures
            final(self).wf(),
            r == event.uid,
            final(self).events() == old(self).events().insert(event.uid.0, event@),
    {
        proof { self.lemma_events_dom(); }
        let id = event.uid;
        let start = event.start;
        let ghost ev = event;
        let h = arena_insert(&mut self.arena, event);
        self.index.insert((start, id.0, h));
        self.lookup.insert(id.0, h);
        proof {
            let slots = arena_slots(self.arena);
            let old_slots = arena_slots(old(self).arena);
            assert(slots.dom() =~= old_slots.dom().insert(h));
            assert forall|hh: u64| #[trigger] slots.contains_key(hh) implies self.lookup@.contains_key(
                slots[hh].uid.0,
            ) && self.lookup@[slots[hh].uid.0] == hh && slots[hh].wf() by {
                if hh != h {
                    assert(old_slots.contains_key(hh));
                }
            }
            assert forall|k: IndexKey| #[trigger]
                self.index@.contains(k) <==> slots.contains_key(k.2) && slots[k.2].start == k.0
                    && slots[k.2].uid.0 == k.1 by {
                if k.2 != h {
                    assert(old(self).index@.contains(k) <==> old_slots.contains_key(k.2)
                        && old_slots[k.2].start == k.0 && old_slots[k.2].uid.0 == k.1);
                }
            }
            assert(self.events() =~= old(self).events().insert(id.0, ev@));
        }
        id
    }

    /// The stored event with this identifier, if any.
    pub fn get(&self, id: EventID) -> (r: Option<&Event>)
        requires
            self.wf(),
        ensures
            match r {
                Some(e) => self.events().contains_key(id.0) && e@ == self.events()[id.0],
                None => !self.events().contains_key(id.0),
            },
    {
        match self.lookup.get(&id.0) {
            Some(h) => arena_get(&self.arena, *h),
            None => None,
        }
    }

    /// Removes the event with this identifier from all three structures and
    /// hands it back; when none is stored nothing changes.
    pub fn remove(&mut self, id: EventID) -> (r: Option<Event>)
        requires
            old(self).wf(),
        ensures
            final(self).wf(),
            match r {
                Some(e) => old(self).events().contains_key(id.0) && e@ == old(self).events()[id.0]
                    && final(self).events() == old(self).events().remove(id.0),
                None => !old(self).events().contains_key(id.0) && final(self).events()
                    == old(self).events(),
            },
    {
        let h = match self.lookup.get(&id.0) {
            Some(h) => *h,
            None => return None,
        };
        let ghost old_slots = arena_slots(self.arena);
        let ev = arena_remove(&mut self.arena, h);
        match ev {
            Some(e) => {
                self.index.remove(&(e.start, e.uid.0, h));
                self.lookup.remove(&id.0);
                proof {
                    let slots = arena_slots(self.arena);
                    assert(slots.dom() =~= old_slots.dom().remove(h));
                    assert forall|k: IndexKey| #[trigger]
                        self.index@.contains(k) <==> slots.contains_key(k.2) && slots[k.2].start
                            == k.0 && slots[k.2].uid.0 == k.1 by {
                        assert(old(self).index@.contains(k) <==> old_slots.contains_key(k.2)
                            && old_slots[k.2].start == k.0 && old_slots[k.2].uid.0 == k.1);
                    }
                    assert forall|hh: u64| #[trigger] slots.contains_key(hh) implies self.lookup@.contains_key(
                        slots[hh].uid.0,
                    ) && self.lookup@[slots[hh].uid.0] == hh && slots[hh].wf() by {
                        assert(old_slots.contains_key(hh));
                    }
                    assert(self.events() =~= old(self).events().remove(id.0));
                }
                Some(e)
            },
            None => None,
        }
    }

    /// The stored events whose span meets `q`, ascending by start.
    pub fn range(&self, q: EventRange) -> (r: Vec<&Event>)
        requires
            self.wf(),
        ensures
            range_result(self.events(), q, r@.map_values(|e: &Event| e@)),
    {
        let keys = index_upto(&self.index, q.end);
        let mut out: Vec<&Event> = Vec::new();
        let ghost slots = arena_slots(self.arena);
        let ghost mut src: Seq<int> = Seq::empty();
        let mut i: usize = 0;
        while i < keys.len()
            invariant
                self.wf(),
                slots == arena_slots(self.arena),
                0 <= i <= keys@.len(),
                src.len() == out@.len(),
                forall|k: IndexKey| keys@.contains(k) == (self.index@.contains(k) && q.end >= k.0),
                forall|a: int, b: int| 0 <= a < b < keys@.len() ==> #[trigger] key_lt(keys@[a], keys@[b]),
                forall|m: int| 0 <= m < out@.len() ==> 0 <= #[trigger] src[m] < i,
                forall|m: int, n: int| 0 <= m < n < out@.len() ==> #[trigger] src[m] < #[trigger] src[n],
                forall|m: int| 0 <= m < out@.len() ==> *#[trigger] out@[m] == slots[keys@[src[m]].2]
                    && out@[m].end >= q.start,
                forall|j: int| 0 <= j < i && slots[keys@[j].2].end >= q.start ==> exists|m: int|
                    0 <= m < out@.len() && #[trigger] src[m] == j,
            decreases keys.len() - i,
        {
            let k = keys[i];
            assert(keys@.contains(k));
            let e = arena_get(&self.arena, k.2).unwrap();
            let ghost old_src = src;
            if e.end >= q.start {
                out.push(e);
                proof {
                    src = src.push(i as int);
                    assert(src[src.len() - 1] == i as int);
                }
            }
            proof {
                assert forall|j: int| 0 <= j < i + 1 && slots[keys@[j].2].end >= q.start implies exists|m: int|
                    0 <= m < out@.len() && #[trigger] src[m] == j by {
                    if j < i {
                        let m = choose|m: int| 0 <= m < old_src.len() && #[trigger] old_src[m] == j;
                        assert(src[m] == j);
                    } else {
                        assert(src[out@.len() - 1] == j);
                    }
                }
            }
            i = i + 1;
        }
        proof {
            let evs = self.events();
            let vs = out@.map_values(|e: &Event| e@);
            self.lemma_events_dom();
            assert forall|m: int| 0 <= m < vs.len() implies evs.contains_key(#[trigger] vs[m].id)
                && evs[vs[m].id] == vs[m] && intersects(vs[m].start, vs[m].end, q) by {
                let key = keys@[src[m]];
                assert(keys@.contains(key));
            }
            assert forall|m: int, n: int| 0 <= m < n < vs.len() implies id_order(#[trigger] vs[m], #[trigger] vs[n]) by {
                let km = keys@[src[m]];
                let kn = keys@[src[n]];
                assert(keys@.contains(km));
                assert(keys@.contains(kn));
                assert(key_lt(km, kn));
            }
            assert forall|id: u128| #[trigger] evs.contains_key(id) && intersects(evs[id].start, evs[id].end, q)
                implies exists|m: int| 0 <= m < vs.len() && vs[m].id == id by {
                let h = self.lookup@[id];
                let key: IndexKey = (slots[h].start, id, h);
                assert(self.index@.contains(key));
                assert(keys@.contains(key));
                let j = choose|j: int| 0 <= j < keys@.len() && keys@[j] == key;
                let m = choose|m: int| 0 <= m < out@.len() && #[trigger] src[m] == j;
                assert(vs[m].id == id);
            }
        }
        out
    }
}

/// `a` comes strictly before `b`: by start, then, on equal starts, by
/// identifier.
pub open spec fn id_order(a: EventView, b: EventView) -> bool {
    a.start < b.start || (a.start == b.start && a.id < b.id)
}

/// `r` lists exactly the events of `events` whose span meets `q`, each once,
/// ascending by start and, on equal starts, by identifier.
pub open spec fn range_result(events: Map<u128, EventView>, q: EventRange, r: Seq<EventView>) -> bool {
    &&& forall|m: int| 0 <= m < r.len() ==> events.contains_key(#[trigger] r[m].id)
        && events[r[m].id] == r[m] && intersects(r[m].start, r[m].end, q)
    &&& forall|m: int, n: int| 0 <= m < n < r.len() ==> id_order(#[trigger] r[m], #[trigger] r[n])
    &&& forall|id: u128| #[trigger] events.contains_key(id) && intersects(events[id].start, events[id].end, q)
        ==> exists|m: int| 0 <= m < r.len() && r[m].id == id
}

/// Once an event is inserted, looking its identifier up finds that event,
/// and keeps finding it while other identifiers are inserted or removed;
/// after it is removed, the lookup misses.
pub proof fn lemma_inserted_event_found(
    events: Map<u128, EventView>,
    e: EventView,
    other: u128,
    v: EventView,
)
    requires
        other != e.id,
    ensures
        events.insert(e.id, e).contains_key(e.id),
        events.insert(e.id, e)[e.id] == e,
        events.insert(e.id, e).insert(other, v)[e.id] == e,
        events.insert(e.id, e).remove(other).contains_key(e.id),
        events.insert(e.id, e).remove(other)[e.id] == e,
        !events.insert(e.id, e).remove(e.id).contains_key(e.id),
{
}

} // verus!
