use droplets::bridge::{FugueBridge, FugueCommand, FugueRecord};

type Bridge = FugueBridge<u32, u32, u32>;

fn record(id: u64, tag: Option<&str>) -> FugueRecord<u32> {
    FugueRecord { id, tag: tag.map(|t| t.to_string()), payload: 7 }
}

#[test]
fn unknown_instance_is_reported() {
    let mut b = Bridge::new();
    assert_eq!(b.find_entry("default"), Err("No instances connected"));
    assert_eq!(b.find_entry("nope"), Err("Instance not found"));
    assert_eq!(b.queue("nope", record(1, None)), Err("Instance not found"));
    assert!(!b.has_instance("default"));
}

#[test]
fn register_find_and_unregister() {
    let mut b = Bridge::new();
    let (_c1, _h1) = b.register("id-1", "Drums", 0);
    let (_c2, _h2) = b.register("id-2", "Bass", 0);
    assert_eq!(b.find_entry("default"), Ok(0));
    assert_eq!(b.find_entry("Bass"), Ok(1));
    assert_eq!(b.find_entry("id-1"), Ok(0));
    assert!(b.has_instance("Drums"));
    b.update_name("id-2", "Lead");
    assert_eq!(
        b.list_all_instances(),
        vec![("id-1".to_string(), "Drums".to_string()), ("id-2".to_string(), "Lead".to_string())]
    );
    b.unregister("id-1");
    assert_eq!(b.len(), 1);
    assert_eq!(b.find_entry("id-1"), Err("Instance not found"));
    assert_eq!(b.find_entry("default"), Ok(0));
}

#[test]
fn reregistering_an_id_replaces_it() {
    let mut b = Bridge::new();
    let _a = b.register("id-1", "One", 0);
    let _b = b.register("id-1", "Uno", 0);
    assert_eq!(b.len(), 1);
    assert_eq!(b.list_all_instances(), vec![("id-1".to_string(), "Uno".to_string())]);
}

#[test]
fn queued_commands_reach_the_consumer() {
    let mut b = Bridge::new();
    let (mut consumer, _handle) = b.register("id-1", "Drums", 0);
    assert_eq!(b.queue("Drums", record(42, Some("bass"))), Ok(42));
    assert_eq!(b.cancel("default", 42), Ok(()));
    match consumer.pop().unwrap() {
        FugueCommand::Queue(r) => assert_eq!(r.id, 42),
        _ => panic!("expected a queue command"),
    }
    match consumer.pop().unwrap() {
        FugueCommand::Cancel { id } => assert_eq!(id, 42),
        _ => panic!("expected a cancel command"),
    }
}

#[test]
fn snapshots_follow_cancel_by_tag_and_clear() {
    let mut b = Bridge::new();
    let (_consumer, handle) = b.register("id-1", "Drums", 5);
    handle.update(vec![record(1, Some("bass")), record(2, Some("lead")), record(3, Some("bass"))]);
    handle.update_definitions(vec![record(1, Some("bass")), record(2, Some("lead"))]);
    assert_eq!(b.get_transport("Drums"), Ok(5));
    handle.update_transport(9);
    assert_eq!(b.get_transport("Drums"), Ok(9));
    assert_eq!(b.cancel_by_tag("Drums", "bass"), Ok(()));
    let ids: Vec<u64> = b.get_fugue_info("Drums").unwrap().iter().map(|r| r.id).collect();
    assert_eq!(ids, vec![2]);
    assert_eq!(b.get_definition("Drums", 2).unwrap().map(|r| r.id), Some(2));
    assert!(b.get_definition("Drums", 1).unwrap().is_none());
    assert_eq!(b.clear_all("Drums"), Ok(()));
    assert!(b.get_fugue_info("Drums").unwrap().is_empty());
    assert!(b.get_definitions("Drums").unwrap().is_empty());
}

#[test]
fn full_ring_reports_queue_full() {
    let mut b = Bridge::new();
    let (_consumer, _h) = b.register("id-1", "Drums", 0);
    let mut last = Ok(0);
    for i in 0..droplets::bridge::RING_BUFFER_SIZE as u64 + 1 {
        last = b.queue("Drums", record(i, None));
    }
    assert_eq!(last, Err("Queue full - audio thread not consuming fast enough"));
}

#[test]
fn refused_cancel_leaves_snapshots_alone() {
    let mut b = Bridge::new();
    let (_consumer, handle) = b.register("id-1", "Drums", 0);
    handle.update(vec![record(1, Some("bass")), record(2, None)]);
    handle.update_definitions(vec![record(1, Some("bass"))]);
    for i in 0..droplets::bridge::RING_BUFFER_SIZE as u64 {
        assert_eq!(b.queue("Drums", record(100 + i, None)), Ok(100 + i));
    }
    assert_eq!(b.cancel("Drums", 1), Err("Queue full"));
    assert_eq!(b.cancel_by_tag("Drums", "bass"), Err("Queue full"));
    assert_eq!(b.clear_all("Drums"), Err("Queue full"));
    let ids: Vec<u64> = b.get_fugue_info("Drums").unwrap().iter().map(|r| r.id).collect();
    assert_eq!(ids, vec![1, 2]);
    assert_eq!(b.get_definitions("Drums").unwrap().len(), 1);
}

#[test]
fn commands_go_to_the_selected_instance_only() {
    let mut b = Bridge::new();
    let (mut first, _h1) = b.register("id-1", "Drums", 0);
    let (mut second, h2) = b.register("id-2", "Keys", 0);
    h2.update(vec![record(7, None), record(8, None)]);
    assert_eq!(b.cancel("Keys", 7), Ok(()));
    assert!(first.pop().is_err());
    match second.pop() {
        Ok(FugueCommand::Cancel { id }) => assert_eq!(id, 7),
        _ => panic!("expected a cancel command on the second instance"),
    }
    let ids: Vec<u64> = b.get_fugue_info("Keys").unwrap().iter().map(|r| r.id).collect();
    assert_eq!(ids, vec![8]);
    b.update_name("id-2", "Piano");
    assert_eq!(b.cancel("Piano", 8), Ok(()));
    assert!(b.get_fugue_info("Piano").unwrap().is_empty());
}
