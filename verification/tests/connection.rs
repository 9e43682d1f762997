use laundry_relay::connection::{
    Connection, Incoming, Next, Note, ServerMessage, StatusConnection, StatusNext, Step, PING_AFTER,
};
use laundry_relay::registry::Registry;
use laundry_relay::requests::{laundry_handler, Failure, LaundryRequest, Opening};

fn text(s: &str) -> String {
    s.to_string()
}

fn message(action: &str, payload: &str) -> Incoming<ServerMessage> {
    Incoming::Text(Some(ServerMessage {
        action: text(action),
        payload: serde_json::from_str(payload).unwrap(),
    }))
}

fn greeting(action: &str) -> Incoming<ServerMessage> {
    message(action, "{\"location\":\"north\",\"room\":\"1\"}")
}

fn request() -> LaundryRequest {
    LaundryRequest { location: text("north"), room: text("1"), machine: text("3") }
}

fn is_receive(step: &Step<u32>) -> bool {
    matches!(step.next, Next::Receive)
}

#[test]
fn a_client_announces_itself() {
    let mut registry: Registry<u32, u32> = Registry::new();
    let mut connection = Connection::new(0);
    assert_eq!(connection.client_info(), None);
    let step = connection.receive(&mut registry, greeting("CONNECT"), 7, 1);
    assert_eq!(step.note, Note::Connected);
    assert!(is_receive(&step));
    assert!(step.deliver.is_none());
    assert_eq!(connection.client_info(), Some(("north", "1")));
    assert_eq!(registry.session("north", "1"), Some(&7));
}

#[test]
fn a_keep_alive_counts_as_a_greeting() {
    let mut registry: Registry<u32, u32> = Registry::new();
    let mut connection = Connection::new(0);
    let step = connection.receive(&mut registry, greeting("KEEP_ALIVE"), 7, 1);
    assert_eq!(step.note, Note::Quiet);
    assert_eq!(connection.client_info(), Some(("north", "1")));
    assert_eq!(registry.session("north", "1"), Some(&7));
}

#[test]
fn a_greeting_without_location_or_room_is_ignored() {
    let mut registry: Registry<u32, u32> = Registry::new();
    let mut connection = Connection::new(0);
    for payload in [
        "{}",
        "null",
        "[\"north\",\"1\"]",
        "{\"location\":\"north\"}",
        "{\"location\":\"north\",\"room\":1}",
        "{\"location\":\"\",\"room\":\"1\"}",
    ] {
        let step = connection.receive(&mut registry, message("CONNECT", payload), 7, 1);
        assert_eq!(step.note, Note::Quiet);
        assert!(is_receive(&step));
        assert_eq!(connection.client_info(), None);
    }
    assert_eq!(registry.list_clients().body, "[]");
}

#[test]
fn the_answer_goes_to_the_request_that_waits() {
    for action in [
        "START_MACHINE_RESPONSE",
        "MACHINE_STATUS_RESPONSE",
        "MACHINE_HEALTH_RESPONSE",
        "MACHINES_RESPONSE",
    ] {
        let mut registry: Registry<u32, u32> = Registry::new();
        let mut connection = Connection::new(0);
        connection.receive(&mut registry, greeting("CONNECT"), 7, 1);
        assert!(matches!(laundry_handler(&mut registry, &request(), 100), Opening::Send { .. }));
        connection.receive(&mut registry, greeting("KEEP_ALIVE"), 7, 2);
        let step = connection.receive(&mut registry, message(action, "{\"b\": [1.5, -2], \"a\" : null}"), 7, 3);
        assert_eq!(step.note, Note::Answered);
        assert_eq!(step.deliver, Some((100, text("{\"a\":null,\"b\":[1.5,-2]}"))));
        let again = connection.receive(&mut registry, message(action, "{}"), 7, 4);
        assert_eq!(again.note, Note::NobodyWaiting);
        assert!(again.deliver.is_none());
    }
}

#[test]
fn an_answer_before_the_greeting_goes_nowhere() {
    let mut registry: Registry<u32, u32> = Registry::new();
    registry.connect(text("north"), text("1"), 7, 0);
    registry.set_sender("north", "1", 100);
    let mut connection = Connection::new(0);
    let step = connection.receive(&mut registry, message("MACHINES_RESPONSE", "{}"), 8, 1);
    assert_eq!(step.note, Note::Quiet);
    assert!(step.deliver.is_none());
    assert_eq!(registry.take_sender("north", "1"), Some(100));
}

#[test]
fn an_answer_of_a_client_that_was_swept_goes_nowhere() {
    let mut registry: Registry<u32, u32> = Registry::new();
    let mut connection = Connection::new(0);
    connection.receive(&mut registry, greeting("CONNECT"), 7, 0);
    registry.remove("north", "1");
    let step = connection.receive(&mut registry, message("MACHINES_RESPONSE", "{}"), 7, 1);
    assert_eq!(step.note, Note::Quiet);
    assert!(step.deliver.is_none());
}

#[test]
fn unknown_and_invalid_texts_change_nothing() {
    let mut registry: Registry<u32, u32> = Registry::new();
    let mut connection = Connection::new(0);
    let step = connection.receive(&mut registry, greeting("connect"), 7, 1);
    assert_eq!(step.note, Note::UnknownAction);
    let step = connection.receive(&mut registry, Incoming::Text(None), 7, 1);
    assert_eq!(step.note, Note::Invalid);
    let step = connection.receive(&mut registry, Incoming::Other, 7, 1);
    assert_eq!(step.note, Note::Quiet);
    assert!(is_receive(&step));
    assert_eq!(registry.list_clients().body, "[]");
}

#[test]
fn a_ping_is_answered_with_its_bytes() {
    let mut registry: Registry<u32, u32> = Registry::new();
    let mut connection = Connection::new(0);
    let step = connection.receive(&mut registry, Incoming::Ping(vec![1, 2, 3]), 7, PING_AFTER + 1);
    match step.next {
        Next::Pong(bytes) => assert_eq!(bytes, vec![1, 2, 3]),
        other => panic!("{:?}", other),
    }
    assert!(matches!(connection.sent_pong(&mut registry, true, PING_AFTER), Next::Receive));
    assert!(matches!(connection.sent_pong(&mut registry, true, PING_AFTER + 1), Next::Ping));
}

#[test]
fn pings_are_sent_more_than_twenty_seconds_apart() {
    let mut registry: Registry<u32, u32> = Registry::new();
    let mut connection = Connection::new(5);
    assert_eq!(PING_AFTER, 20_000_000_000);
    let step = connection.receive(&mut registry, Incoming::Other, 7, PING_AFTER + 5);
    assert!(matches!(step.next, Next::Receive));
    let step = connection.receive(&mut registry, Incoming::Other, 7, PING_AFTER + 6);
    assert!(matches!(step.next, Next::Ping));
    assert!(matches!(connection.sent_ping(&mut registry, true, PING_AFTER + 7), Next::Receive));
    let step = connection.receive(&mut registry, Incoming::Other, 7, 2 * PING_AFTER + 7);
    assert!(matches!(step.next, Next::Receive));
    let step = connection.receive(&mut registry, Incoming::Other, 7, 2 * PING_AFTER + 8);
    assert!(matches!(step.next, Next::Ping));
}

#[test]
fn a_clock_that_runs_back_sends_no_ping() {
    let mut registry: Registry<u32, u32> = Registry::new();
    let mut connection = Connection::new(100);
    let step = connection.receive(&mut registry, Incoming::Other, 7, 0);
    assert!(matches!(step.next, Next::Receive));
}

#[test]
fn a_client_is_gone_when_its_connection_ends() {
    for way in 0..4 {
        let mut registry: Registry<u32, u32> = Registry::new();
        registry.connect(text("south"), text("1"), 3, 0);
        let mut connection = Connection::new(0);
        connection.receive(&mut registry, greeting("CONNECT"), 7, 1);
        let next = match way {
            0 => connection.receive(&mut registry, Incoming::Close, 7, 2).next,
            1 => connection.receive(&mut registry, Incoming::End, 7, 2).next,
            2 => connection.sent_pong(&mut registry, false, 2),
            _ => connection.sent_ping(&mut registry, false, 2),
        };
        assert!(matches!(next, Next::Close));
        assert_eq!(registry.session("north", "1"), None);
        assert_eq!(registry.session("south", "1"), Some(&3));
        match laundry_handler(&mut registry, &request(), 1) {
            Opening::Answer(reply) => assert_eq!(reply.status, 404),
            Opening::Send { .. } => panic!("sent to a client that is gone"),
        }
    }
}

#[test]
fn closing_is_noted() {
    let mut registry: Registry<u32, u32> = Registry::new();
    let mut connection = Connection::new(0);
    assert_eq!(connection.receive(&mut registry, Incoming::Close, 7, 2).note, Note::ClosedByPeer);
    assert_eq!(connection.receive(&mut registry, Incoming::End, 7, 2).note, Note::Quiet);
}

#[test]
fn a_connection_ends_for_the_client_it_greeted_as_last() {
    let mut registry: Registry<u32, u32> = Registry::new();
    let mut connection = Connection::new(0);
    connection.receive(&mut registry, greeting("CONNECT"), 7, 1);
    connection.receive(&mut registry, message("CONNECT", "{\"location\":\"north\",\"room\":\"2\"}"), 7, 1);
    connection.receive(&mut registry, Incoming::End, 7, 2);
    assert_eq!(registry.session("north", "1"), Some(&7));
    assert_eq!(registry.session("north", "2"), None);
}

#[test]
fn a_requester_asks_over_a_websocket() {
    let mut connection = StatusConnection::new(0);
    let (next, note) = connection.receive(Incoming::Text(Some(request())), PING_AFTER + 1);
    assert_eq!(note, Note::Quiet);
    match next {
        StatusNext::Ask(asked) => assert_eq!(asked.machine, "3"),
        other => panic!("{:?}", other),
    }
    match connection.answered(Ok(text("{\"free\":true}"))) {
        StatusNext::Send(sent) => assert_eq!(sent, "{\"free\":true}"),
        other => panic!("{:?}", other),
    }
    match connection.answered(Err(Failure { status: 404, message: text("Client not found") })) {
        StatusNext::Send(sent) => assert_eq!(sent, "Client not found"),
        other => panic!("{:?}", other),
    }
    assert!(matches!(connection.sent(true, PING_AFTER), StatusNext::Receive));
    assert!(matches!(connection.sent(true, PING_AFTER + 1), StatusNext::Ping));
    assert!(matches!(connection.sent(false, 1), StatusNext::Close));
    assert!(matches!(connection.sent_ping(true, PING_AFTER + 1), StatusNext::Receive));
    assert!(matches!(connection.sent(true, PING_AFTER + 2), StatusNext::Receive));
    assert!(matches!(connection.sent_ping(false, PING_AFTER + 1), StatusNext::Close));
}

#[test]
fn what_else_comes_over_a_requesters_websocket() {
    let connection = StatusConnection::new(0);
    match connection.receive(Incoming::Ping(vec![9]), 1) {
        (StatusNext::Pong(bytes), Note::Quiet) => assert_eq!(bytes, vec![9]),
        other => panic!("{:?}", other),
    }
    assert!(matches!(connection.receive(Incoming::Text(None), 1), (StatusNext::Receive, Note::Invalid)));
    assert!(matches!(connection.receive(Incoming::Other, PING_AFTER + 1), (StatusNext::Ping, Note::Quiet)));
    assert!(matches!(connection.receive(Incoming::Close, 1), (StatusNext::Close, Note::ClosedByPeer)));
    assert!(matches!(connection.receive(Incoming::End, 1), (StatusNext::Close, Note::Quiet)));
}
