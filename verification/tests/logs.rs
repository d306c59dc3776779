use call_recorder::logging::{
    batch_result, get_logs, humio_batch, push_log, remote_config, Inbox, LogBuffer, RemoteEvent,
    Shipper, ShipperStep,
};

fn event(message: &str) -> RemoteEvent {
    RemoteEvent { timestamp: "t".to_string(), message: message.to_string() }
}

#[test]
fn entries_have_their_time() {
    let mut buffer = LogBuffer::new();
    assert_eq!(push_log(&mut buffer, "12:34:56", "hej"), "[12:34:56] hej");
    assert_eq!(get_logs(&buffer), vec!["[12:34:56] hej"]);
}

#[test]
fn only_the_latest_entries_are_kept() {
    let mut buffer = LogBuffer::new();
    for i in 0..503 {
        push_log(&mut buffer, "t", &format!("{}", i));
    }
    let logs = get_logs(&buffer);
    assert_eq!(logs.len(), 500);
    assert_eq!(logs[0], "[t] 3");
    assert_eq!(logs[499], "[t] 502");
}

#[test]
fn collector_needs_address_and_token() {
    let config = remote_config(Some(" https://h "), Some("token"), None).unwrap();
    assert_eq!(config.ingest_url, "https://h");
    assert_eq!(config.ingest_token, "token");
    assert_eq!(config.environment, "dev");
    let config = remote_config(Some("u"), Some("t"), Some("prod\n")).unwrap();
    assert_eq!(config.environment, "prod");
    let config = remote_config(Some("u"), Some("t"), Some(" ")).unwrap();
    assert_eq!(config.environment, "dev");
    assert!(remote_config(None, Some("t"), None).is_none());
    assert!(remote_config(Some("u"), Some(" "), None).is_none());
}

#[test]
fn shipper_gathers_and_sends() {
    let mut shipper = Shipper::new();
    assert_eq!(shipper.take_in(Inbox::Empty), ShipperStep::Wait);
    assert_eq!(shipper.take_in(Inbox::Event(event("a"))), ShipperStep::Poll);
    assert_eq!(shipper.take_in(Inbox::Event(event("b"))), ShipperStep::Poll);
    assert_eq!(shipper.take_in(Inbox::Empty), ShipperStep::Send);
    let batch = shipper.take_batch();
    let sent: Vec<&str> = batch.iter().map(|e| e.message.as_str()).collect();
    assert_eq!(sent, vec!["a", "b"]);
    assert_eq!(shipper.take_in(Inbox::Closed), ShipperStep::Stop);
}

#[test]
fn shipment_is_never_too_large() {
    let mut shipper = Shipper::new();
    for i in 0..99 {
        assert_eq!(shipper.take_in(Inbox::Event(event(&format!("{}", i)))), ShipperStep::Poll);
    }
    assert_eq!(shipper.take_in(Inbox::Event(event("99"))), ShipperStep::Send);
    assert_eq!(shipper.take_batch().len(), 100);
    assert_eq!(shipper.take_in(Inbox::Event(event("100"))), ShipperStep::Poll);
    assert_eq!(shipper.take_in(Inbox::Closed), ShipperStep::Send);
    assert_eq!(shipper.take_batch()[0].message, "100");
    assert_eq!(shipper.take_in(Inbox::Closed), ShipperStep::Stop);
}

#[test]
fn shipment_has_tags_and_attributes() {
    let batch = humio_batch("prod", &[event("hej")]);
    assert_eq!(batch.tags.system, "anna");
    assert_eq!(batch.tags.environment, "prod");
    assert_eq!(batch.events.len(), 1);
    assert_eq!(batch.events[0].timestamp, "t");
    assert_eq!(batch.events[0].rawstring, "hej");
    assert_eq!(batch.events[0].attributes.app, "anna");
    assert_eq!(batch.events[0].attributes.source, "desktop-app");
    assert_eq!(batch.events[0].attributes.message, "hej");
}

#[test]
fn collector_may_refuse() {
    assert_eq!(batch_result(true, "200 OK", ""), Ok(()));
    assert_eq!(batch_result(false, "401 Unauthorized", "nej"), Err("HTTP 401 Unauthorized: nej".to_string()));
}
