//! Requests that a client has to answer: what is sent to it, and what the requester is told.
use crate::json::{
    comes_back, json_insert, json_new_members, json_object, json_parse, json_text, json_to_string, json_tree,
    nested_within, no_fractions, no_members, put_text, reads_as, JsonTree,
};
use crate::query::{pairs, param, value_of};
use crate::registry::{with_sender, ClientView, Key, Registry};
use crate::reply::{text_reply, Content, Reply, ReplyView};
use vstd::prelude::*;

verus! {

/// How long a requester waits for the client's answer, in seconds.
pub const REPLY_TIMEOUT_SECS: u64 = 10;

/// A request about one machine of a room.
#[derive(Debug)]
pub struct LaundryRequest {
    pub location: String,
    pub room: String,
    pub machine: String,
}

/// What a request about a machine is.
pub struct LaundryRequestView {
    pub location: Seq<char>,
    pub room: Seq<char>,
    pub machine: Seq<char>,
}

impl LaundryRequestView {
    /// The client that the request is for.
    pub open spec fn key(self) -> Key {
        (self.location, self.room)
    }

    /// What the client is told of the request.
    pub open spec fn payload(self) -> JsonTree {
        JsonTree::Obj(
            no_members().insert("machine"@, JsonTree::Str(self.machine)).insert(
                "location"@,
                JsonTree::Str(self.location),
            ).insert("room"@, JsonTree::Str(self.room)),
        )
    }
}

impl View for LaundryRequest {
    type V = LaundryRequestView;

    open spec fn view(&self) -> LaundryRequestView {
        LaundryRequestView { location: self.location@, room: self.room@, machine: self.machine@ }
    }
}

/// What a client is asked to do.
#[derive(Clone, Copy, Debug, PartialEq, Eq, Structural)]
pub enum Call {
    StartMachine,
    GetMachines,
    GetMachineStatus,
    GetMachineHealth,
}

/// The name under which a call is sent.
pub open spec fn action_of(call: Call) -> Seq<char> {
    match call {
        Call::StartMachine => "START_MACHINE"@,
        Call::GetMachines => "GET_MACHINES"@,
        Call::GetMachineStatus => "GET_MACHINE_STATUS"@,
        Call::GetMachineHealth => "GET_MACHINE_HEALTH"@,
    }
}

/// What the requester is told when a call could not be sent.
pub open spec fn send_failure_of(call: Call) -> Seq<char> {
    match call {
        Call::StartMachine => "Failed to send message to the client"@,
        _ => "Failed to send request to the client"@,
    }
}

/// The message that carries a call to a client.
pub open spec fn message(call: Call, payload: JsonTree) -> JsonTree {
    JsonTree::Obj(no_members().insert("action"@, JsonTree::Str(action_of(call))).insert("payload"@, payload))
}

/// How a request goes on.
pub enum Opening {
    /// The text is to be sent to the client of the location and room.
    Send { location: String, room: String, text: String },
    /// The requester is answered at once.
    Answer(Reply),
}

/// What the start of a request is.
pub enum OpeningView {
    Send { key: Key, text: Seq<char> },
    Answer(ReplyView),
}

impl View for Opening {
    type V = OpeningView;

    open spec fn view(&self) -> OpeningView {
        match self {
            Opening::Send { location, room, text } => OpeningView::Send { key: (location@, room@), text: text@ },
            Opening::Answer(reply) => OpeningView::Answer(reply@),
        }
    }
}

/// How a call starts: it is sent where the client is there, and answered with 404 elsewhere.
pub open spec fn opening<S, T>(
    clients: Map<Key, ClientView<S, T>>,
    call: Call,
    key: Key,
    payload: JsonTree,
) -> OpeningView {
    if clients.contains_key(key) {
        OpeningView::Send { key, text: json_text(message(call, payload)) }
    } else {
        OpeningView::Answer(text_reply(404, "Client not found"@))
    }
}

/// Whether the client reads the text that is to be sent to it, if any, as the message that
/// carries the call.
pub open spec fn is_read(opening: OpeningView, call: Call, payload: JsonTree) -> bool {
    opening matches OpeningView::Send { text, .. } ==> json_parse(text) == Some(message(call, payload))
}

/// The message that carries a request about a machine, or a request without a payload, comes
/// back unchanged from its text.
proof fn lemma_message_comes_back(call: Call, request: LaundryRequestView)
    ensures
        comes_back(message(call, request.payload())),
        comes_back(message(call, JsonTree::Obj(no_members()))),
{
    reveal_with_fuel(nested_within, 4);
    reveal_with_fuel(no_fractions, 4);
}

/// What became of a call that was to be sent.
#[derive(Debug)]
pub enum Delivery {
    /// It could not be sent.
    NotSent,
    /// The client answered.
    Answered(String),
    /// The sender for the answer was dropped: the client left, or another request took its place.
    Dropped,
    /// No answer came in time.
    TimedOut,
}

/// What the requester is told in the end.
pub open spec fn conclusion(call: Call, delivery: Delivery) -> ReplyView {
    match delivery {
        Delivery::NotSent => text_reply(500, send_failure_of(call)),
        Delivery::Answered(text) => text_reply(200, text@),
        Delivery::Dropped => text_reply(500, "Failed to receive response from client"@),
        Delivery::TimedOut => text_reply(408, "Request timed out"@),
    }
}

impl Call {
    /// The name under which the call is sent.
    pub fn action(&self) -> (action: &'static str)
        ensures
            action@ == action_of(*self),
    {
        match self {
            Call::StartMachine => "START_MACHINE",
            Call::GetMachines => "GET_MACHINES",
            Call::GetMachineStatus => "GET_MACHINE_STATUS",
            Call::GetMachineHealth => "GET_MACHINE_HEALTH",
        }
    }

    /// What the requester is told when the call could not be sent.
    pub fn send_failure(&self) -> (text: &'static str)
        ensures
            text@ == send_failure_of(*self),
    {
        match self {
            Call::StartMachine => "Failed to send message to the client",
            _ => "Failed to send request to the client",
        }
    }
}

/// Starts a call: where the client is there, it gets `sender` for its answer.
fn open_call<S, T>(
    registry: &mut Registry<S, T>,
    call: Call,
    location: &str,
    room: &str,
    payload: serde_json::Value,
    sender: T,
) -> (res: Opening)
    requires
        old(registry).wf(),
    ensures
        final(registry).wf(),
        final(registry)@ == with_sender(old(registry)@, (location@, room@), Some(sender)),
        res@ == opening(old(registry)@, call, (location@, room@), json_tree(payload)),
        res@ matches OpeningView::Send { text, .. } ==> reads_as(text, message(call, json_tree(payload))),
{
    if registry.set_sender(location, room, sender) {
        let mut members = json_new_members();
        put_text(&mut members, "action", call.action());
        json_insert(&mut members, "payload".to_owned(), payload);
        Opening::Send {
            location: location.to_owned(),
            room: room.to_owned(),
            text: json_to_string(&json_object(members)),
        }
    } else {
        Opening::Answer(Reply::text(404, "Client not found"))
    }
}

/// What the client is told of a request about a machine.
fn machine_payload(data: &LaundryRequest) -> (payload: serde_json::Value)
    ensures
        json_tree(payload) == data@.payload(),
{
    let mut members = json_new_members();
    put_text(&mut members, "machine", data.machine.as_str());
    put_text(&mut members, "location", data.location.as_str());
    put_text(&mut members, "room", data.room.as_str());
    json_object(members)
}

/// Asks a client to start a machine.
pub fn laundry_handler<S, T>(registry: &mut Registry<S, T>, data: &LaundryRequest, sender: T) -> (res: Opening)
    requires
        old(registry).wf(),
    ensures
        final(registry).wf(),
        final(registry)@ == with_sender(old(registry)@, data@.key(), Some(sender)),
        res@ == opening(old(registry)@, Call::StartMachine, data@.key(), data@.payload()),
        is_read(res@, Call::StartMachine, data@.payload()),
{
    proof {
        lemma_message_comes_back(Call::StartMachine, data@);
    }
    let payload = machine_payload(data);
    open_call(registry, Call::StartMachine, data.location.as_str(), data.room.as_str(), payload, sender)
}

/// Asks a client for its machines.
pub fn get_machines<S, T>(registry: &mut Registry<S, T>, params: &Vec<(String, String)>, sender: T) -> (res: Opening)
    requires
        old(registry).wf(),
    ensures
        final(registry).wf(),
        match (value_of(pairs(params@), "location"@), value_of(pairs(params@), "room"@)) {
            (Some(location), Some(room)) => {
                &&& final(registry)@ == with_sender(old(registry)@, (location, room), Some(sender))
                &&& res@ == opening(
                    old(registry)@,
                    Call::GetMachines,
                    (location, room),
                    JsonTree::Obj(no_members()),
                )
                &&& is_read(res@, Call::GetMachines, JsonTree::Obj(no_members()))
            },
            _ => {
                &&& final(registry)@ == old(registry)@
                &&& res@ == OpeningView::Answer(text_reply(400, "Missing location or room parameters"@))
            },
        },
{
    match (param(params, "location"), param(params, "room")) {
        (Some(location), Some(room)) => {
            let payload = json_object(json_new_members());
            proof {
                lemma_message_comes_back(Call::GetMachines, arbitrary());
            }
            open_call(registry, Call::GetMachines, location.as_str(), room.as_str(), payload, sender)
        },
        _ => Opening::Answer(Reply::text(400, "Missing location or room parameters")),
    }
}

/// Asks a client how a machine is doing.
pub fn machine_status_handler<S, T>(registry: &mut Registry<S, T>, params: &LaundryRequest, sender: T) -> (res: Opening)
    requires
        old(registry).wf(),
    ensures
        final(registry).wf(),
        final(registry)@ == with_sender(old(registry)@, params@.key(), Some(sender)),
        res@ == opening(old(registry)@, Call::GetMachineStatus, params@.key(), params@.payload()),
        is_read(res@, Call::GetMachineStatus, params@.payload()),
{
    proof {
        lemma_message_comes_back(Call::GetMachineStatus, params@);
    }
    let payload = machine_payload(params);
    open_call(registry, Call::GetMachineStatus, params.location.as_str(), params.room.as_str(), payload, sender)
}

/// Asks a client whether a machine is in order.
pub fn machine_health_handler<S, T>(registry: &mut Registry<S, T>, params: &LaundryRequest, sender: T) -> (res: Opening)
    requires
        old(registry).wf(),
    ensures
        final(registry).wf(),
        final(registry)@ == with_sender(old(registry)@, params@.key(), Some(sender)),
        res@ == opening(old(registry)@, Call::GetMachineHealth, params@.key(), params@.payload()),
        is_read(res@, Call::GetMachineHealth, params@.payload()),
{
    proof {
        lemma_message_comes_back(Call::GetMachineHealth, params@);
    }
    let payload = machine_payload(params);
    open_call(registry, Call::GetMachineHealth, params.location.as_str(), params.room.as_str(), payload, sender)
}

/// Asks a client how a machine is doing, for a requester on a WebSocket.
pub fn ws_machine_status_logic<S, T>(registry: &mut Registry<S, T>, params: &LaundryRequest, sender: T) -> (res:
    Opening)
    requires
        old(registry).wf(),
    ensures
        final(registry).wf(),
        final(registry)@ == with_sender(old(registry)@, params@.key(), Some(sender)),
        res@ == opening(old(registry)@, Call::GetMachineStatus, params@.key(), params@.payload()),
        is_read(res@, Call::GetMachineStatus, params@.payload()),
{
    machine_status_handler(registry, params, sender)
}

/// Tells the requester what became of its call.
pub fn conclude(call: Call, delivery: Delivery) -> (reply: Reply)
    ensures
        reply@ == conclusion(call, delivery),
{
    match delivery {
        Delivery::NotSent => Reply::text(500, call.send_failure()),
        Delivery::Answered(text) => Reply::text(200, text.as_str()),
        Delivery::Dropped => Reply::text(500, "Failed to receive response from client"),
        Delivery::TimedOut => Reply::text(408, "Request timed out"),
    }
}

/// What a requester on a WebSocket is told instead of the client's answer.
#[derive(Debug)]
pub struct Failure {
    pub status: u16,
    pub message: String,
}

/// The text of the client's answer, or the status and the text of a failure.
pub open spec fn result_view(result: Result<String, Failure>) -> Result<Seq<char>, (u16, Seq<char>)> {
    match result {
        Ok(text) => Ok(text@),
        Err(failure) => Err((failure.status, failure.message@)),
    }
}

/// What a requester on a WebSocket gets where an HTTP requester would get `reply`: the client's
/// answer if the status is 200, and a failure if not.
pub open spec fn ws_result(reply: ReplyView) -> Result<Seq<char>, (u16, Seq<char>)> {
    if reply.status == 200 {
        Ok(reply.body)
    } else {
        Err((reply.status, reply.body))
    }
}

/// The text that a requester on a WebSocket is sent.
pub open spec fn ws_text(result: Result<Seq<char>, (u16, Seq<char>)>) -> Seq<char> {
    match result {
        Ok(text) => text,
        Err((_, text)) => text,
    }
}

/// What a requester on a WebSocket gets where an HTTP requester would get `reply`.
pub fn ws_machine_status_result(reply: Reply) -> (res: Result<String, Failure>)
    ensures
        result_view(res) == ws_result(reply@),
{
    if reply.status == 200 {
        Ok(reply.body)
    } else {
        Err(Failure { status: reply.status, message: reply.body })
    }
}

/// A requester is told the client's answer with the status 200, and gets no answer with that
/// status otherwise.
pub proof fn law_success_is_the_clients_answer(call: Call, delivery: Delivery)
    ensures
        conclusion(call, delivery).status == 200 <==> delivery is Answered,
        delivery matches Delivery::Answered(text) ==> conclusion(call, delivery) == text_reply(200, text@),
        delivery !is Answered ==> conclusion(call, delivery).status == 500 || conclusion(call, delivery).status == 408,
{
}

/// A requester on a WebSocket is sent the text that an HTTP requester would be answered, be it
/// the client's answer or a failure.
pub proof fn law_same_text_over_websocket(reply: ReplyView)
    ensures
        ws_text(ws_result(reply)) == reply.body,
        ws_result(reply) is Ok <==> reply.status == 200,
{
}

/// A request about a machine reaches the client of its location and room, where that client is
/// there, as a message with exactly two members: the action of the call, and a payload with exactly
/// the machine, the location and the room of the request. Where the client is not there, the
/// requester is told so with the status 404.
pub proof fn law_request_is_sent_as_asked<S, T>(
    clients: Map<Key, ClientView<S, T>>,
    call: Call,
    request: LaundryRequest,
    start: Opening,
)
    requires
        start@ == opening(clients, call, request@.key(), request@.payload()),
        is_read(start@, call, request@.payload()),
    ensures
        clients.contains_key((request.location@, request.room@)) ==> {
            &&& start matches Opening::Send { location, room, text }
            &&& location@ == request.location@
            &&& room@ == request.room@
            &&& text@ == json_text(message(call, request@.payload()))
            &&& json_parse(text@) == Some(
                JsonTree::Obj(
                    map![
                        "action"@ => JsonTree::Str(match call {
                            Call::StartMachine => "START_MACHINE"@,
                            Call::GetMachines => "GET_MACHINES"@,
                            Call::GetMachineStatus => "GET_MACHINE_STATUS"@,
                            Call::GetMachineHealth => "GET_MACHINE_HEALTH"@,
                        }),
                        "payload"@ => JsonTree::Obj(
                            map![
                                "machine"@ => JsonTree::Str(request.machine@),
                                "location"@ => JsonTree::Str(request.location@),
                                "room"@ => JsonTree::Str(request.room@),
                            ],
                        ),
                    ],
                ),
            )
        },
        !clients.contains_key((request.location@, request.room@)) ==> {
            &&& start matches Opening::Answer(reply)
            &&& reply.status == 404
            &&& reply.content == Content::Text
            &&& reply.body@ == "Client not found"@
        },
{
}

/// What a client reads in the message of a request: the strings under `machine`, `location` and
/// `room` of the payload are those of the request, and there is nothing else in it.
pub proof fn law_client_reads_the_request(call: Call, request: LaundryRequest, start: Opening)
    requires
        start is Send,
        is_read(start@, call, request@.payload()),
    ensures
        ({
            &&& json_parse(start->text@) matches Some(JsonTree::Obj(members))
            &&& members.dom() == set!["action"@, "payload"@]
            &&& members["payload"@] matches JsonTree::Obj(payload)
            &&& payload.dom() == set!["machine"@, "location"@, "room"@]
            &&& payload["machine"@] == JsonTree::Str(request.machine@)
            &&& payload["location"@] == JsonTree::Str(request.location@)
            &&& payload["room"@] == JsonTree::Str(request.room@)
        }),
{
    lemma_keys_differ();
    let members = message(call, request@.payload())->Obj_0;
    let payload = request@.payload()->Obj_0;
    assert(members.dom() =~= set!["action"@, "payload"@]);
    assert(payload.dom() =~= set!["machine"@, "location"@, "room"@]);
}

/// The names of the members of messages differ.
proof fn lemma_keys_differ()
    ensures
        "action"@ != "payload"@,
        "machine"@ != "location"@,
        "machine"@ != "room"@,
        "location"@ != "room"@,
{
    reveal_strlit("action");
    reveal_strlit("payload");
    reveal_strlit("machine");
    reveal_strlit("location");
    reveal_strlit("room");
    assert("action"@.len() == 6);
    assert("payload"@.len() == 7);
    assert("machine"@.len() == 7);
    assert("location"@.len() == 8);
    assert("room"@.len() == 4);
}

/// The names of the calls differ.
proof fn lemma_actions_differ(one: Call, other: Call)
    ensures
        action_of(one) == action_of(other) ==> one == other,
{
    reveal_strlit("START_MACHINE");
    reveal_strlit("GET_MACHINES");
    reveal_strlit("GET_MACHINE_STATUS");
    reveal_strlit("GET_MACHINE_HEALTH");
    assert("START_MACHINE"@.len() == 13);
    assert("GET_MACHINES"@.len() == 12);
    assert("GET_MACHINE_STATUS"@.len() == 18);
    assert("GET_MACHINE_HEALTH"@.len() == 18);
    assert("GET_MACHINE_STATUS"@[12] == 'S');
    assert("GET_MACHINE_HEALTH"@[12] == 'H');
}

/// Requests that differ in the call, the machine, the location or the room lead to different texts.
pub proof fn law_different_requests_are_told_apart(
    one: Call,
    request: LaundryRequest,
    start: Opening,
    other: Call,
    another: LaundryRequest,
    restart: Opening,
)
    requires
        start is Send,
        restart is Send,
        is_read(start@, one, request@.payload()),
        is_read(restart@, other, another@.payload()),
        start->text@ == restart->text@,
    ensures
        one == other,
        request.machine@ == another.machine@,
        request.location@ == another.location@,
        request.room@ == another.room@,
{
    law_client_reads_the_request(one, request, start);
    law_client_reads_the_request(other, another, restart);
    lemma_keys_differ();
    let members = message(one, request@.payload())->Obj_0;
    let others = message(other, another@.payload())->Obj_0;
    assert(members == others);
    assert(members["action"@] == JsonTree::Str(action_of(one)));
    assert(others["action"@] == JsonTree::Str(action_of(other)));
    lemma_actions_differ(one, other);
}

/// A request for the machines of a room reaches the client of that location and room, where it is
/// there, as a message with the action `GET_MACHINES` and an empty payload; where it is not, the
/// requester is told so with the status 404.
pub proof fn law_machines_are_asked_for<S, T>(
    clients: Map<Key, ClientView<S, T>>,
    location: Seq<char>,
    room: Seq<char>,
    start: Opening,
)
    requires
        start@ == opening(clients, Call::GetMachines, (location, room), JsonTree::Obj(no_members())),
        is_read(start@, Call::GetMachines, JsonTree::Obj(no_members())),
    ensures
        clients.contains_key((location, room)) ==> {
            &&& start matches Opening::Send { location: to, room: within, text }
            &&& to@ == location
            &&& within@ == room
            &&& json_parse(text@) == Some(
                JsonTree::Obj(
                    map![
                        "action"@ => JsonTree::Str("GET_MACHINES"@),
                        "payload"@ => JsonTree::Obj(Map::<Seq<char>, JsonTree>::empty()),
                    ],
                ),
            )
        },
        !clients.contains_key((location, room)) ==> {
            &&& start matches Opening::Answer(reply)
            &&& reply.status == 404
            &&& reply.content == Content::Text
            &&& reply.body@ == "Client not found"@
        },
{
}

/// What a requester is told of each outcome: the client's answer as it is, that the call could not
/// be sent, that the answer was lost, or, after ten seconds, that none came.
pub proof fn law_what_requesters_are_told(call: Call, delivery: Delivery, reply: Reply)
    requires
        reply@ == conclusion(call, delivery),
    ensures
        reply.content == Content::Text,
        delivery matches Delivery::Answered(text) ==> reply.status == 200 && reply.body@ == text@,
        delivery is NotSent && call == Call::StartMachine ==> reply.status == 500 && reply.body@
            == "Failed to send message to the client"@,
        delivery is NotSent && call != Call::StartMachine ==> reply.status == 500 && reply.body@
            == "Failed to send request to the client"@,
        delivery is Dropped ==> reply.status == 500 && reply.body@ == "Failed to receive response from client"@,
        delivery is TimedOut ==> reply.status == 408 && reply.body@ == "Request timed out"@,
        REPLY_TIMEOUT_SECS == 10,
{
}

/// A requester on a WebSocket gets the body of a successful answer, or the status and the body of a
/// failure, and is sent that body either way.
pub proof fn law_websocket_results(reply: Reply, result: Result<String, Failure>)
    requires
        result_view(result) == ws_result(reply@),
    ensures
        reply.status == 200 ==> (result matches Ok(text) && text@ == reply.body@),
        reply.status != 200 ==> (result matches Err(failure) && failure.status == reply.status && failure.message@
            == reply.body@),
        ws_text(result_view(result)) == reply.body@,
{
}

} // verus!
