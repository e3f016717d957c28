use plotka::{
    InternalError, Message, Number, ParseError, Record, Server, StopAppMessage, StorageError,
};

fn record(fields: &[(&str, Number)]) -> Record {
    let mut r = Record::new();
    for (key, value) in fields {
        assert!(r.insert(key.to_string(), *value));
    }
    r
}

#[test]
fn connect_sends_exactly_one_init_message() {
    let mut server = Server::new();

    let (id, message) = server.connect();

    match message {
        Message::InitStorage { data: None } => {}
        _ => panic!("a connection to an empty store owes the empty marker"),
    }

    let deliveries = server.broadcast_ws_message("m");
    assert_eq!(deliveries.len(), 1);
    assert_eq!(deliveries[0].0, id);
}

#[test]
fn init_message_carries_the_snapshot() {
    let mut server = Server::new();
    let rec = record(&[
        ("a", Number::Int(1)),
        ("b", Number::Float(2.5f64.to_bits())),
    ]);
    server.handle_input(Ok(rec)).unwrap();

    let (_id, message) = server.connect();

    match message {
        Message::InitStorage { data: Some(rows) } => {
            assert_eq!(rows.len(), 1);
            assert_eq!(rows[0].get("a"), Some(Number::Int(1)));
            assert_eq!(rows[0].get("b"), Some(Number::Float(2.5f64.to_bits())));
        }
        _ => panic!("a connection to a non-empty store owes its snapshot"),
    }
}

#[test]
fn broadcast_plans_identical_payload_for_every_observer() {
    let mut server = Server::new();
    server.register(1);
    server.register(2);
    server.register(3);

    let deliveries = server.broadcast_ws_message("payload");

    assert_eq!(deliveries.len(), 3);
    assert_eq!(deliveries[0], (1, "payload".to_string()));
    assert_eq!(deliveries[1], (2, "payload".to_string()));
    assert_eq!(deliveries[2], (3, "payload".to_string()));
}

#[test]
fn registering_an_id_twice_keeps_one_entry() {
    let mut server = Server::new();
    server.register(7);
    server.register(7);

    assert_eq!(server.broadcast_ws_message("m").len(), 1);
}

#[test]
fn disconnect_is_idempotent() {
    let mut server = Server::new();
    server.register(1);
    server.register(2);

    server.disconnect(1);
    let deliveries = server.broadcast_ws_message("m");
    assert_eq!(deliveries.len(), 1);
    assert_eq!(deliveries[0].0, 2);

    server.disconnect(1);
    assert_eq!(server.broadcast_ws_message("m").len(), 1);
}

#[test]
fn handle_input_broadcasts_exactly_the_pushed_record() {
    let mut server = Server::new();
    let rec = record(&[("a", Number::Int(1))]);

    let message = server.handle_input(Ok(rec)).unwrap();

    assert!(server.is_running());
    match message {
        Message::PushRecord { record } => {
            assert_eq!(record.len(), 1);
            assert_eq!(record.get("a"), Some(Number::Int(1)));
        }
        _ => panic!("a successful push owes an Append notification"),
    }
}

#[test]
fn parse_error_is_fatal() {
    let mut server = Server::new();

    let outcome = server.handle_input(Err(ParseError));

    assert_eq!(outcome.err(), Some(InternalError::Parse));
    assert!(!server.is_running());
}

#[test]
fn storage_error_is_fatal_and_leaves_the_store_unchanged() {
    let mut server = Server::new();
    server
        .handle_input(Ok(record(&[("a", Number::Int(1))])))
        .unwrap();

    let outcome = server.handle_input(Ok(record(&[("b", Number::Int(2))])));

    assert_eq!(
        outcome.err(),
        Some(InternalError::Storage(StorageError::FieldMismatch))
    );
    assert!(!server.is_running());
    assert_eq!(server.storage.records_len(), 1);
}

#[test]
fn stop_is_idempotent_to_receive() {
    let mut server = Server::new();
    let _signal = StopAppMessage::new();

    server.stop();
    assert!(!server.is_running());
    server.stop();
    assert!(!server.is_running());
}
