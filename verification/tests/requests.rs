use laundry_relay::registry::Registry;
use laundry_relay::reply::{Content, Reply};
use laundry_relay::requests::{
    conclude, get_machines, laundry_handler, machine_health_handler, machine_status_handler,
    ws_machine_status_logic, ws_machine_status_result, Call, Delivery, LaundryRequest, Opening,
};

fn text(s: &str) -> String {
    s.to_string()
}

fn request() -> LaundryRequest {
    LaundryRequest { location: text("north"), room: text("1"), machine: text("W\"3\"") }
}

fn registry() -> Registry<u32, u32> {
    let mut registry: Registry<u32, u32> = Registry::new();
    registry.connect(text("north"), text("1"), 7, 0);
    registry
}

fn sent(opening: Opening) -> (String, String, String) {
    match opening {
        Opening::Send { location, room, text } => (location, room, text),
        Opening::Answer(reply) => panic!("answered at once: {:?}", reply),
    }
}

fn answer(opening: Opening) -> Reply {
    match opening {
        Opening::Send { .. } => panic!("sent"),
        Opening::Answer(reply) => reply,
    }
}

fn expect(reply: Reply, status: u16, body: &str) {
    assert_eq!(reply.status, status);
    assert_eq!(reply.content, Content::Text);
    assert_eq!(reply.body, body);
}

fn message(action: &str) -> String {
    format!(
        "{{\"action\":\"{}\",\"payload\":{{\"location\":\"north\",\"machine\":\"W\\\"3\\\"\",\"room\":\"1\"}}}}",
        action
    )
}

#[test]
fn start_machine_is_sent_to_the_client() {
    let mut registry = registry();
    let (location, room, text) = sent(laundry_handler(&mut registry, &request(), 100));
    assert_eq!((location.as_str(), room.as_str()), ("north", "1"));
    assert_eq!(text, message("START_MACHINE"));
    assert_eq!(registry.take_sender("north", "1"), Some(100));
}

#[test]
fn machine_status_is_asked_of_the_client() {
    let mut registry = registry();
    let (_, _, text) = sent(machine_status_handler(&mut registry, &request(), 100));
    assert_eq!(text, message("GET_MACHINE_STATUS"));
    let (_, _, text) = sent(ws_machine_status_logic(&mut registry, &request(), 101));
    assert_eq!(text, message("GET_MACHINE_STATUS"));
    assert_eq!(registry.take_sender("north", "1"), Some(101));
}

#[test]
fn machine_health_is_asked_of_the_client() {
    let mut registry = registry();
    let (_, _, text) = sent(machine_health_handler(&mut registry, &request(), 100));
    assert_eq!(text, message("GET_MACHINE_HEALTH"));
}

#[test]
fn machines_are_asked_of_the_client() {
    let mut registry = registry();
    let params = vec![
        (text("room"), text("9")),
        (text("location"), text("north")),
        (text("room"), text("1")),
    ];
    let (location, room, text) = sent(get_machines(&mut registry, &params, 100));
    assert_eq!((location.as_str(), room.as_str()), ("north", "1"));
    assert_eq!(text, "{\"action\":\"GET_MACHINES\",\"payload\":{}}");
    assert_eq!(registry.take_sender("north", "1"), Some(100));
}

#[test]
fn machines_need_location_and_room() {
    let mut registry = registry();
    let only_room = vec![(text("room"), text("1"))];
    let only_location = vec![(text("location"), text("north"))];
    for params in [only_room, only_location, Vec::new()] {
        let reply = answer(get_machines(&mut registry, &params, 100));
        expect(reply, 400, "Missing location or room parameters");
    }
    assert_eq!(registry.take_sender("north", "1"), None);
}

#[test]
fn an_unknown_client_is_not_found() {
    let mut registry: Registry<u32, u32> = Registry::new();
    registry.connect(text("south"), text("1"), 7, 0);
    expect(answer(laundry_handler(&mut registry, &request(), 1)), 404, "Client not found");
    expect(answer(machine_status_handler(&mut registry, &request(), 1)), 404, "Client not found");
    expect(answer(machine_health_handler(&mut registry, &request(), 1)), 404, "Client not found");
    expect(answer(ws_machine_status_logic(&mut registry, &request(), 1)), 404, "Client not found");
    let params = vec![(text("location"), text("north")), (text("room"), text("1"))];
    expect(answer(get_machines(&mut registry, &params, 1)), 404, "Client not found");
    assert_eq!(registry.take_sender("south", "1"), None);
}

#[test]
fn a_call_that_cannot_be_sent_fails() {
    expect(conclude(Call::StartMachine, Delivery::NotSent), 500, "Failed to send message to the client");
    for call in [Call::GetMachines, Call::GetMachineStatus, Call::GetMachineHealth] {
        expect(conclude(call, Delivery::NotSent), 500, "Failed to send request to the client");
    }
}

#[test]
fn the_requester_is_told_what_became_of_the_call() {
    expect(conclude(Call::GetMachines, Delivery::Answered(text("[1]"))), 200, "[1]");
    expect(
        conclude(Call::StartMachine, Delivery::Dropped),
        500,
        "Failed to receive response from client",
    );
    expect(conclude(Call::GetMachineHealth, Delivery::TimedOut), 408, "Request timed out");
}

#[test]
fn a_websocket_requester_is_told_the_same() {
    let answered = ws_machine_status_result(conclude(Call::GetMachineStatus, Delivery::Answered(text("{}"))));
    assert_eq!(answered.unwrap(), "{}");
    let failure = ws_machine_status_result(conclude(Call::GetMachineStatus, Delivery::TimedOut)).unwrap_err();
    assert_eq!(failure.status, 408);
    assert_eq!(failure.message, "Request timed out");
}

#[test]
fn the_client_reads_what_was_asked() {
    let mut registry: Registry<u32, u32> = Registry::new();
    let odd = "a\"\\/\n\u{0}\u{7f}\u{2028}\u{1f9fa}";
    registry.connect(text(odd), text("r\t"), 7, 0);
    let data = LaundryRequest { location: text(odd), room: text("r\t"), machine: text("{}") };
    let (_, _, sent_text) = sent(machine_health_handler(&mut registry, &data, 1));
    let read: serde_json::Value = serde_json::from_str(&sent_text).unwrap();
    assert_eq!(read["action"].as_str(), Some("GET_MACHINE_HEALTH"));
    assert_eq!(read["payload"]["location"].as_str(), Some(odd));
    assert_eq!(read["payload"]["room"].as_str(), Some("r\t"));
    assert_eq!(read["payload"]["machine"].as_str(), Some("{}"));
    let listed: serde_json::Value = serde_json::from_str(&registry.list_clients().body).unwrap();
    assert_eq!(listed[0]["location"].as_str(), Some(odd));
    assert_eq!(listed[0]["room"].as_str(), Some("r\t"));
}
