use opencal::event::Event;
use opencal::{Calendar, Date, EventID, EventRange, EventStore};

fn nth_day_2023(days: i32) -> Date {
    let first = Date::from_ymd(2023, 1, 1).unwrap();
    Date { days_since_epoch: first.days_since_epoch + days }
}

fn event_at(id: u128, name: &str, start: i64, end: i64) -> Event {
    let mut e = Event::new(name.into(), start, end).unwrap();
    e.uid = EventID(id);
    e
}

#[test]
fn test_insert() {
    let mut cal = Calendar::new("main".into());
    let event_date = Date::from_ymd(2023, 1, 1).unwrap().at(10, 0, 0);
    let event_summary = "kulindu cooray loves javascript";
    let ev1 = event_at(1, event_summary, event_date, event_date + 3600);

    assert!(cal.add_event(ev1).is_none());
    assert!(cal.get(EventID(0)).is_none());
    let maybe_event = cal.get(EventID(1));
    assert!(maybe_event.is_some());
    let event = maybe_event.unwrap();
    assert_eq!(event.name(), event_summary);
}

#[test]
fn test_range() {
    let mut cal = Calendar::new("main".into());
    let jan_3_10am = nth_day_2023(2).at(10, 0, 0);
    let ev1_summary = "Kulindu is not a funny guy";
    cal.add_event(event_at(1, ev1_summary, jan_3_10am, jan_3_10am + 60));

    let jan_2_10am = nth_day_2023(1).at(10, 0, 0);
    let ev2_summary = "What funny tshirt should I get?";
    cal.add_event(event_at(2, ev2_summary, jan_2_10am, jan_2_10am + 60));

    let jan_1_10am = nth_day_2023(0).at(10, 0, 0);
    let ev3_summary = "I'm running out of ideas";
    cal.add_event(event_at(3, ev3_summary, jan_1_10am, jan_1_10am + 60));

    let found = cal.range(EventRange::from(None, None));
    let mut iter = found.iter();
    assert_eq!(iter.next().unwrap().name(), ev3_summary);
    assert_eq!(iter.next().unwrap().name(), ev2_summary);
    assert_eq!(iter.next().unwrap().name(), ev1_summary);
    assert!(iter.next().is_none());
}

#[test]
fn test_event_range() {
    let nd = |d: i32| nth_day_2023(d);
    let mut cal = Calendar::new("main".into());
    let mut ids = Vec::new();
    for d in 0..5 {
        let e = Event::new_all_day("A".into(), nd(d));
        ids.push(e.uid());
        cal.add_event(e);
    }
    let range_start = nd(1).at(11, 0, 0);
    let range_end = nd(3).last_second();
    let found = cal.range(EventRange::from(Some(range_start), Some(range_end)));
    let got: Vec<EventID> = found.iter().map(|e| e.uid()).collect();
    assert_eq!(got, vec![ids[1], ids[2], ids[3]]);
    assert_eq!(found[0].start(), nd(1).first_second());
}

#[test]
fn scenario_birthday_round_trip() {
    let mut cal = Calendar::new("main".into());
    let start = Date::from_ymd(2023, 1, 9).unwrap().at(0, 0, 0);
    let end = Date::from_ymd(2023, 1, 9).unwrap().at(23, 59, 59);
    let e = Event::new("Birthday".into(), start, end).unwrap();
    let id = e.uid();
    assert!(cal.add_event(e).is_none());
    let got = cal.get(id).unwrap();
    assert_eq!(got.name(), "Birthday");
    assert_eq!(got.start(), 1673222400);
    assert_eq!(got.end(), 1673222400 + 86399);
    assert_eq!(got.uid(), id);
}

#[test]
fn scenario_three_all_day_events() {
    let mut cal = Calendar::new("main".into());
    let d1 = Event::new_all_day("one".into(), Date::from_ymd(2023, 1, 1).unwrap());
    let d2 = Event::new_all_day("two".into(), Date::from_ymd(2023, 1, 2).unwrap());
    let d3 = Event::new_all_day("three".into(), Date::from_ymd(2023, 1, 3).unwrap());
    let (i2, i3) = (d2.uid(), d3.uid());
    cal.add_event(d3);
    cal.add_event(d1);
    cal.add_event(d2);
    let q = EventRange::from(
        Some(Date::from_ymd(2023, 1, 2).unwrap().at(10, 0, 0)),
        Some(Date::from_ymd(2023, 1, 3).unwrap().at(23, 59, 59)),
    );
    let got: Vec<EventID> = cal.range(q).iter().map(|e| e.uid()).collect();
    assert_eq!(got, vec![i2, i3]);
}

#[test]
fn get_until_removed() {
    let mut store = EventStore::new();
    let e = event_at(7, "x", 10, 20);
    assert_eq!(store.insert(e), EventID(7));
    assert_eq!(store.get(EventID(7)).unwrap().name(), "x");
    store.insert(event_at(8, "y", 5, 6));
    assert!(store.remove(EventID(8)).is_some());
    assert_eq!(store.get(EventID(7)).unwrap().start(), 10);
    let removed = store.remove(EventID(7)).unwrap();
    assert_eq!(removed.name(), "x");
    assert!(store.get(EventID(7)).is_none());
    assert!(store.remove(EventID(7)).is_none());
    assert_eq!(store.len(), 0);
}

#[test]
fn slots_are_reused_after_removal() {
    let mut store = EventStore::new();
    for i in 0..10u128 {
        store.insert(event_at(i, "e", i as i64, i as i64 + 1));
    }
    for i in 0..10u128 {
        if i % 2 == 0 {
            store.remove(EventID(i));
        }
    }
    for i in 10..15u128 {
        store.insert(event_at(i, "f", i as i64, i as i64 + 1));
    }
    assert_eq!(store.len(), 10);
    for i in 0..15u128 {
        assert_eq!(store.contains(EventID(i)), i % 2 == 1 || i >= 10);
    }
    let all = store.range(EventRange::from(None, None));
    let starts: Vec<i64> = all.iter().map(|e| e.start()).collect();
    assert_eq!(starts, vec![1, 3, 5, 7, 9, 10, 11, 12, 13, 14]);
}

#[test]
fn range_is_sorted_and_complete() {
    let mut cal = Calendar::new("c".into());
    cal.add_event(event_at(1, "long", 0, 1000));
    cal.add_event(event_at(2, "early", 0, 10));
    cal.add_event(event_at(3, "mid", 400, 600));
    cal.add_event(event_at(4, "late", 900, 950));
    cal.add_event(event_at(5, "after", 1001, 1100));
    let got: Vec<u128> = cal.range(EventRange::from(Some(500), Some(950))).iter().map(|e| e.uid().0).collect();
    assert_eq!(got.len(), 3);
    assert!(got.contains(&1) && got.contains(&3) && got.contains(&4));
    assert_eq!(*got.last().unwrap(), 4);
    assert_eq!(got[2], 4);
    let edge: Vec<u128> = cal.range(EventRange::from(Some(1000), Some(1001))).iter().map(|e| e.uid().0).collect();
    assert_eq!(edge.len(), 2);
    assert!(cal.range(EventRange::from(Some(2000), Some(3000))).is_empty());
}

#[test]
fn equal_starts_are_all_returned() {
    let mut cal = Calendar::new("c".into());
    cal.add_event(event_at(1, "a", 100, 200));
    cal.add_event(event_at(2, "b", 100, 300));
    cal.add_event(event_at(3, "c", 50, 60));
    let got: Vec<i64> = cal.range(EventRange::from(None, None)).iter().map(|e| e.start()).collect();
    assert_eq!(got, vec![50, 100, 100]);
    let mut other = Calendar::new("d".into());
    other.add_event(event_at(9, "z", 100, 200));
    other.add_event(event_at(4, "y", 100, 300));
    other.add_event(event_at(6, "x", 100, 150));
    other.remove_event(EventID(4));
    other.add_event(event_at(4, "y", 100, 300));
    let ids: Vec<u128> = other.range(EventRange::from(None, None)).iter().map(|e| e.uid().0).collect();
    assert_eq!(ids, vec![4, 6, 9]);
}

#[test]
fn add_twice_conflicts_and_changes_nothing() {
    let mut cal = Calendar::new("c".into());
    assert!(cal.add_event(event_at(1, "first", 0, 10)).is_none());
    let back = cal.add_event(event_at(1, "second", 20, 30)).unwrap();
    assert_eq!(back.name(), "second");
    assert_eq!(cal.len(), 1);
    assert_eq!(cal.get(EventID(1)).unwrap().name(), "first");
    assert_eq!(cal.name(), "c");
}

#[test]
fn remove_event_from_calendar() {
    let mut cal = Calendar::new("c".into());
    cal.add_event(event_at(1, "first", 0, 10));
    assert!(cal.remove_event(EventID(2)).is_none());
    assert_eq!(cal.remove_event(EventID(1)).unwrap().name(), "first");
    assert!(!cal.contains(EventID(1)));
}
