use kuboard::watch_events::Emission;
use kuboard::watch_events::Notification;
use kuboard::watch_events::ObjectMeta;
use kuboard::watch_events::StreamItem;
use kuboard::watch_events::WatchEvent;
use kuboard::watch_events::WatchEventType;
use kuboard::watch_task::composite_key;
use kuboard::watch_task::process_notification;
use kuboard::watch_task::run_watch_task;
use kuboard::watch_task::IdentitySet;

fn meta(ns: Option<&str>, name: &str) -> ObjectMeta {
    ObjectMeta {
        namespace: ns.map(|s| s.to_string()),
        name: Some(name.to_string()),
    }
}

fn upsert(ns: Option<&str>, name: &str) -> StreamItem {
    StreamItem::Notice(Notification::Upsert(meta(ns, name)))
}

fn remove(ns: Option<&str>, name: &str) -> StreamItem {
    StreamItem::Notice(Notification::Remove(meta(ns, name)))
}

fn expect_event(e: &Emission) -> &WatchEvent {
    match e {
        Emission::Event(ev) => ev,
        Emission::Fault(t) => panic!("expected a watch event, got fault {:?}", t),
    }
}

fn expect_fault(e: &Emission) -> &str {
    match e {
        Emission::Fault(t) => t.as_str(),
        Emission::Event(_) => panic!("expected a fault, got a watch event"),
    }
}

#[test]
fn upsert_upsert_remove_upsert_classifies_in_order() {
    let items = vec![
        upsert(Some("ns"), "a"),
        upsert(Some("ns"), "a"),
        remove(Some("ns"), "a"),
        upsert(Some("ns"), "a"),
    ];
    let out = run_watch_task(&items);
    assert_eq!(out.len(), 4);
    assert_eq!(expect_event(&out[0]).event_type, WatchEventType::Added);
    assert_eq!(expect_event(&out[1]).event_type, WatchEventType::Modified);
    assert_eq!(expect_event(&out[2]).event_type, WatchEventType::Deleted);
    assert_eq!(expect_event(&out[3]).event_type, WatchEventType::Added);
}

#[test]
fn removal_of_unknown_key_is_deleted() {
    let items = vec![remove(Some("ns"), "never-seen")];
    let out = run_watch_task(&items);
    assert_eq!(out.len(), 1);
    let ev = expect_event(&out[0]);
    assert_eq!(ev.event_type, WatchEventType::Deleted);
    assert_eq!(ev.meta.name.as_deref(), Some("never-seen"));
}

#[test]
fn init_markers_emit_nothing_but_later_upserts_follow_the_rule() {
    let items = vec![
        StreamItem::Notice(Notification::InitStart),
        StreamItem::Notice(Notification::InitUpsert(meta(Some("ns"), "a"))),
        StreamItem::Notice(Notification::InitDone),
        upsert(Some("ns"), "a"),
        upsert(Some("ns"), "a"),
    ];
    let out = run_watch_task(&items);
    // The markers are silent; the init upsert did not mark the key as seen.
    assert_eq!(out.len(), 2);
    assert_eq!(expect_event(&out[0]).event_type, WatchEventType::Added);
    assert_eq!(expect_event(&out[1]).event_type, WatchEventType::Modified);
}

#[test]
fn transient_fault_is_reported_and_the_task_goes_on() {
    let items = vec![
        StreamItem::Fault("connection reset".to_string()),
        upsert(Some("ns"), "a"),
        upsert(Some("ns"), "b"),
    ];
    let out = run_watch_task(&items);
    assert_eq!(out.len(), 3);
    assert_eq!(expect_fault(&out[0]), "Watch error: connection reset");
    let first = expect_event(&out[1]);
    let second = expect_event(&out[2]);
    assert_eq!(first.event_type, WatchEventType::Added);
    assert_eq!(second.event_type, WatchEventType::Added);
    assert_eq!(first.meta.name.as_deref(), Some("a"));
    assert_eq!(second.meta.name.as_deref(), Some("b"));
}

#[test]
fn stream_end_is_reported_once_and_nothing_after_it_is_processed() {
    let items = vec![
        upsert(Some("ns"), "a"),
        upsert(Some("ns"), "b"),
        upsert(Some("ns"), "c"),
        StreamItem::End,
        upsert(Some("ns"), "d"),
        StreamItem::End,
    ];
    let out = run_watch_task(&items);
    assert_eq!(out.len(), 4);
    assert_eq!(expect_event(&out[0]).event_type, WatchEventType::Added);
    assert_eq!(expect_event(&out[1]).event_type, WatchEventType::Added);
    assert_eq!(expect_event(&out[2]).event_type, WatchEventType::Added);
    assert_eq!(expect_fault(&out[3]), "Watch stream ended");
}

#[test]
fn composite_key_defaults_the_namespace() {
    let k = composite_key(&Some("kube-system".to_string()), &"dns".to_string());
    assert_eq!(k, "kube-system/dns");
    let k = composite_key(&None, &"web".to_string());
    assert_eq!(k, "default/web");
}

#[test]
fn nameless_objects_are_skipped() {
    let items = vec![StreamItem::Notice(Notification::Upsert(ObjectMeta {
        namespace: Some("ns".to_string()),
        name: None,
    }))];
    let out = run_watch_task(&items);
    assert_eq!(out.len(), 0);
}

#[test]
fn identity_set_tracks_presence() {
    let mut set = IdentitySet::new();
    let a = composite_key(&Some("ns".to_string()), &"a".to_string());
    assert!(!set.contains(&a));
    let first = process_notification(&mut set, &Notification::Upsert(meta(Some("ns"), "a")));
    assert_eq!(first.unwrap().event_type, WatchEventType::Added);
    assert!(set.contains(&a));
    let second = process_notification(&mut set, &Notification::Remove(meta(Some("ns"), "a")));
    assert_eq!(second.unwrap().event_type, WatchEventType::Deleted);
    assert!(!set.contains(&a));
}
