use opencal::session::dispatch;
use opencal::{
    CalServer, ClientMessage, Date, EventID, EventRange, HubError, Liveness, WsCalSession,
};

#[test]
fn join_unknown_calendar_fails_and_changes_nothing() {
    let mut hub = CalServer::new();
    let a = hub.connect().unwrap();
    let b = hub.connect().unwrap();
    hub.create_calendar("main".into()).unwrap();
    hub.join_calendar(a, "main").unwrap();
    assert_eq!(hub.join_calendar(a, "nonexistent"), Err(HubError::CalendarNotFound));
    // a is still the only member of "main": b is told about b's change
    let (_, notice) = hub.add_event(b, "main", "x".into(), 0, 10).unwrap();
    assert_eq!(notice.recipients, vec![a]);
}

#[test]
fn create_calendar_rejects_empty_and_duplicate() {
    let mut hub = CalServer::new();
    assert_eq!(hub.create_calendar("".into()), Err(HubError::CalendarCreationFailed));
    assert_eq!(hub.create_calendar("main".into()), Ok(()));
    assert_eq!(hub.create_calendar("main".into()), Err(HubError::CalendarCreationFailed));
    assert_eq!(hub.list_calendars(), "main");
}

#[test]
fn list_calendars_joins_names_with_newlines() {
    let mut hub = CalServer::new();
    assert_eq!(hub.list_calendars(), "");
    hub.create_calendar("a".into()).unwrap();
    hub.create_calendar("b".into()).unwrap();
    hub.create_calendar("c".into()).unwrap();
    assert_eq!(hub.list_calendars(), "a\nb\nc");
}

#[test]
fn timed_out_session_leaves_every_room() {
    let mut hub = CalServer::new();
    hub.create_calendar("main".into()).unwrap();
    let mut watcher = WsCalSession::new(0);
    let id = hub.connect().unwrap();
    watcher.connected(id);
    let other = hub.connect().unwrap();
    hub.join_calendar(id, "main").unwrap();
    hub.join_calendar(other, "main").unwrap();

    watcher.heard(4000);
    assert_eq!(watcher.on_timer(5000), Liveness::Ping);
    assert_eq!(watcher.on_timer(14000), Liveness::Ping);
    assert_eq!(watcher.on_timer(14001), Liveness::TimedOut);
    hub.disconnect(watcher.id);
    assert!(!hub.has_session(id));
    assert_eq!(hub.session_count(), 1);

    let (_, notice) = hub.add_event(other, "main", "x".into(), 0, 10).unwrap();
    assert!(notice.recipients.is_empty());
    assert_eq!(hub.list_calendars(), "main");
}

#[test]
fn liveness_ignores_earlier_readings() {
    let mut s = WsCalSession::new(100);
    s.heard(50);
    assert_eq!(s.hb, 100);
    s.heard(200);
    assert_eq!(s.hb, 200);
    assert_eq!(s.on_timer(150), Liveness::Ping);
}

#[test]
fn connect_gives_distinct_ids() {
    let mut hub = CalServer::new();
    let mut ids = Vec::new();
    for _ in 0..50 {
        ids.push(hub.connect().unwrap());
    }
    let mut sorted = ids.clone();
    sorted.sort();
    sorted.dedup();
    assert_eq!(sorted.len(), 50);
    assert_eq!(hub.session_count(), 50);
    assert!(!hub.register_session(ids[0]));
    assert!(hub.register_session(ids[0].wrapping_add(1)) || ids.contains(&ids[0].wrapping_add(1)));
}

#[test]
fn add_get_delete_event() {
    let mut hub = CalServer::new();
    let me = hub.connect().unwrap();
    let peer = hub.connect().unwrap();
    hub.create_calendar("main".into()).unwrap();
    hub.join_calendar(me, "main").unwrap();
    hub.join_calendar(peer, "main").unwrap();
    let start = Date::from_ymd(2023, 1, 9).unwrap().at(0, 0, 0);
    let end = Date::from_ymd(2023, 1, 9).unwrap().at(23, 59, 59);

    assert_eq!(hub.add_event(me, "nope", "x".into(), start, end).err(), Some(HubError::CalendarNotFound));
    assert_eq!(hub.add_event(me, "main", "x".into(), end, start).err(), Some(HubError::InvalidEventTime));

    let (id, notice) = hub.add_event(me, "main", "Birthday".into(), start, end).unwrap();
    assert_eq!(notice.recipients, vec![peer]);
    assert_eq!(notice.text, format!("Event added: {}", id.0));

    let json = hub.get_event("main", id).unwrap();
    assert_eq!(
        json,
        format!(
            "{{\"uid\":{},\"start\":\"2023-01-09T00:00:00Z\",\"end\":\"2023-01-09T23:59:59Z\",\"name\":\"Birthday\",\"description\":null}}",
            id.0
        )
    );
    assert_eq!(hub.get_event("nope", id), Err(HubError::CalendarNotFound));
    assert_eq!(hub.get_event("main", EventID(id.0 ^ 1)), Err(HubError::EventNotFound));

    assert_eq!(hub.delete_event(me, "nope", id).err(), Some(HubError::CalendarNotFound));
    let notice = hub.delete_event(peer, "main", id).unwrap();
    assert_eq!(notice.recipients, vec![me]);
    assert_eq!(notice.text, format!("Event deleted: {}", id.0));
    assert_eq!(hub.delete_event(me, "main", id).err(), Some(HubError::EventNotFound));
    assert_eq!(hub.get_event("main", id), Err(HubError::EventNotFound));
}

#[test]
fn events_in_range_as_json_array() {
    let mut hub = CalServer::new();
    let me = hub.connect().unwrap();
    hub.create_calendar("main".into()).unwrap();
    assert_eq!(hub.get_events_in_range("main", EventRange::from(None, None)), Ok("[]".to_string()));
    let (a, _) = hub.add_event(me, "main", "a".into(), 86400, 86401).unwrap();
    let (b, _) = hub.add_event(me, "main", "b".into(), 0, 1).unwrap();
    let text = hub.get_events_in_range("main", EventRange::from(None, None)).unwrap();
    let expected = format!(
        "[{},{}]",
        hub.get_event("main", b).unwrap(),
        hub.get_event("main", a).unwrap()
    );
    assert_eq!(text, expected);
    let only_a = hub.get_events_in_range("main", EventRange::from(Some(2), None)).unwrap();
    assert_eq!(only_a, format!("[{}]", hub.get_event("main", a).unwrap()));
    assert_eq!(
        hub.get_events_in_range("nope", EventRange::from(None, None)),
        Err(HubError::CalendarNotFound)
    );
}

#[test]
fn range_fails_whole_when_one_event_does_not_serialize() {
    let mut hub = CalServer::new();
    let me = hub.connect().unwrap();
    hub.create_calendar("main".into()).unwrap();
    hub.add_event(me, "main", "ok".into(), 0, 1).unwrap();
    hub.add_event(me, "main", "far".into(), i64::MAX - 1, i64::MAX).unwrap();
    assert_eq!(
        hub.get_events_in_range("main", EventRange::from(None, None)),
        Err(HubError::EventFailedToSerialize)
    );
}

#[test]
fn joining_moves_between_rooms() {
    let mut hub = CalServer::new();
    let s = hub.connect().unwrap();
    let t = hub.connect().unwrap();
    hub.create_calendar("a".into()).unwrap();
    hub.create_calendar("b".into()).unwrap();
    hub.join_calendar(s, "a").unwrap();
    hub.join_calendar(s, "b").unwrap();
    let (_, in_a) = hub.add_event(t, "a", "x".into(), 0, 1).unwrap();
    let (_, in_b) = hub.add_event(t, "b", "x".into(), 0, 1).unwrap();
    assert!(in_a.recipients.is_empty());
    assert_eq!(in_b.recipients, vec![s]);
}

#[test]
fn error_descriptions() {
    assert_eq!(HubError::CalendarNotFound.description(), "Calendar not found");
    assert_eq!(HubError::CalendarCreationFailed.description(), "Calendar could not be created");
    assert_eq!(HubError::EventNotFound.description(), "Event not found");
    assert_eq!(HubError::EventFailedToSerialize.description(), "Event failed to serialize");
    assert_eq!(HubError::InvalidEventTime.description(), "Event must end after it starts");
    assert_eq!(HubError::CalendarFull.description(), "Calendar is full");
}

#[test]
fn dispatch_replies() {
    let mut hub = CalServer::new();
    let me = hub.connect().unwrap();
    let r = dispatch(&mut hub, me, ClientMessage::CreateCal { id: me, name: "main".into() });
    assert_eq!(r.text, "Calendar created");
    let r = dispatch(&mut hub, me, ClientMessage::CreateCal { id: me, name: "main".into() });
    assert_eq!(r.text, "Calendar could not be created");
    let r = dispatch(&mut hub, me, ClientMessage::Join { id: me, name: "zzz".into() });
    assert_eq!(r.text, "Calendar not found");
    let r = dispatch(&mut hub, me, ClientMessage::Join { id: me, name: "main".into() });
    assert_eq!(r.text, "Joined calendar");
    let r = dispatch(
        &mut hub,
        me,
        ClientMessage::AddEvent { cal_name: "main".into(), e_name: "e".into(), start: 0, end: 5, id: me },
    );
    assert!(r.text.starts_with("EventID: EventID(") && r.text.ends_with(")"));
    let id: u128 = r.text["EventID: EventID(".len()..r.text.len() - 1].parse().unwrap();
    assert_eq!(r.text, format!("EventID: {:?}", EventID(id)));
    assert!(r.notice.unwrap().recipients.is_empty());
    let r = dispatch(&mut hub, me, ClientMessage::GetEvent { cal_name: "main".into(), eid: EventID(id) });
    assert!(r.text.starts_with(&format!("{{\"uid\":{},", id)));
    let r = dispatch(
        &mut hub,
        me,
        ClientMessage::GetEventsInRange { cal_name: "main".into(), range: EventRange::from(Some(6), None) },
    );
    assert_eq!(r.text, "[]");
    let r = dispatch(&mut hub, me, ClientMessage::ListCals);
    assert_eq!(r.text, "main");
    let r = dispatch(&mut hub, me, ClientMessage::DeleteEvent { id: me, cal_name: "main".into(), eid: EventID(id) });
    assert_eq!(r.text, "Event Deleted");
    let r = dispatch(&mut hub, me, ClientMessage::DeleteEvent { id: me, cal_name: "main".into(), eid: EventID(id) });
    assert_eq!(r.text, "Event not found");
    assert!(r.notice.is_none());
    let r = dispatch(
        &mut hub,
        me,
        ClientMessage::AddEvent { cal_name: "main".into(), e_name: "e".into(), start: 5, end: 5, id: me },
    );
    assert_eq!(r.text, "Event must end after it starts");
    let r = dispatch(
        &mut hub,
        me,
        ClientMessage::AddEvent { cal_name: "nope".into(), e_name: "e".into(), start: 0, end: 5, id: me },
    );
    assert_eq!(r.text, "Calendar not found");
}

#[test]
fn scenario_birthday_through_hub() {
    let mut hub = CalServer::new();
    let me = hub.connect().unwrap();
    hub.create_calendar("main".into()).unwrap();
    let start = Date::from_ymd(2023, 1, 9).unwrap().at(0, 0, 0);
    let end = Date::from_ymd(2023, 1, 9).unwrap().at(23, 59, 59);
    let (id, _) = hub.add_event(me, "main", "Birthday".into(), start, end).unwrap();
    let json = hub.get_event("main", id).unwrap();
    assert!(json.contains("\"name\":\"Birthday\""));
    assert!(json.contains("\"start\":\"2023-01-09T00:00:00Z\""));
    assert!(json.contains("\"end\":\"2023-01-09T23:59:59Z\""));
}

#[test]
fn get_event_fails_to_serialize_out_of_range() {
    let mut hub = CalServer::new();
    let me = hub.connect().unwrap();
    hub.create_calendar("main".into()).unwrap();
    let (id, _) = hub.add_event(me, "main", "far".into(), 0, i64::MAX).unwrap();
    assert_eq!(hub.get_event("main", id), Err(HubError::EventFailedToSerialize));
    assert_eq!(
        hub.get_events_in_range("main", EventRange::from(Some(10), Some(20))),
        Err(HubError::EventFailedToSerialize)
    );
    hub.add_event(me, "main", "near".into(), -100, -50).unwrap();
    assert!(hub.get_events_in_range("main", EventRange::from(Some(-90), Some(-80))).unwrap().contains("near"));
}
