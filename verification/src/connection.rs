//! The WebSocket connections: those of the machines' clients, and those of requesters that
//! ask for the status of machines.
use crate::json::{json_text, json_to_string, json_tree, reads_as, text_at, tree_member, tree_str, JsonTree};
use crate::registry::{connected, elapsed, waiting, with_sender, ClientView, Key, Registry};
use crate::reply::{text_reply, Content, ReplyView};
use crate::requests::{
    conclusion, message, opening, result_view, ws_text, Call, Delivery, Failure, LaundryRequest, LaundryRequestView,
    OpeningView,
};
use crate::text::same_text;
use vstd::prelude::*;

verus! {

/// How long after a ping the next one is sent at the earliest, in nanoseconds.
pub const PING_AFTER: u128 = 20_000_000_000;

/// A message of a client.
#[derive(Debug)]
pub struct ServerMessage {
    pub action: String,
    pub payload: serde_json::Value,
}

/// What a message of a client is.
pub struct ServerMessageView {
    pub action: Seq<char>,
    pub payload: JsonTree,
}

impl View for ServerMessage {
    type V = ServerMessageView;

    open spec fn view(&self) -> ServerMessageView {
        ServerMessageView { action: self.action@, payload: json_tree(self.payload) }
    }
}

/// What comes in over a connection, its texts read as messages of the type `M`.
#[derive(Debug)]
pub enum Incoming<M> {
    /// A ping with its bytes.
    Ping(Vec<u8>),
    /// A text, with the message that it is, if it is one.
    Text(Option<M>),
    /// The other side closes the connection.
    Close,
    /// A message of another kind.
    Other,
    /// Nothing any more: the connection ended or failed.
    End,
}

/// What to do next on a connection.
#[derive(Debug)]
pub enum Next {
    /// Wait for what comes in.
    Receive,
    /// Answer a ping with its bytes.
    Pong(Vec<u8>),
    /// Send a ping without bytes.
    Ping,
    /// Close the connection.
    Close,
}

/// What there is to do next.
pub enum NextView {
    Receive,
    Pong(Seq<u8>),
    Ping,
    Close,
}

impl View for Next {
    type V = NextView;

    open spec fn view(&self) -> NextView {
        match self {
            Next::Receive => NextView::Receive,
            Next::Pong(bytes) => NextView::Pong(bytes@),
            Next::Ping => NextView::Ping,
            Next::Close => NextView::Close,
        }
    }
}

/// What is worth noting of a step.
#[derive(Clone, Copy, Debug, PartialEq, Eq, Structural)]
pub enum Note {
    /// Nothing.
    Quiet,
    /// The client announced itself.
    Connected,
    /// The client's answer went to the request that waited for it.
    Answered,
    /// The client answered, and no request waited for it.
    NobodyWaiting,
    /// The client sent a message with an unknown action.
    UnknownAction,
    /// The other side sent a text that is no message.
    Invalid,
    /// The other side closed the connection.
    ClosedByPeer,
}

/// A step of a client's connection: an answer that is to go through a sender, what is worth
/// noting, and what to do next.
pub struct Step<T> {
    pub deliver: Option<(T, String)>,
    pub note: Note,
    pub next: Next,
}

/// What a step is.
pub struct StepView<T> {
    pub deliver: Option<(T, Seq<char>)>,
    pub note: Note,
    pub next: NextView,
}

impl<T> View for Step<T> {
    type V = StepView<T>;

    open spec fn view(&self) -> StepView<T> {
        StepView {
            deliver: match self.deliver {
                Some((sender, text)) => Some((sender, text@)),
                None => None,
            },
            note: self.note,
            next: self.next@,
        }
    }
}

/// The connection of a client: which client it is, once it has said so, and when it was
/// last sent a ping.
pub struct Connection {
    client_info: Option<(String, String)>,
    last_ping: u128,
}

/// What a client's connection is.
pub struct ConnectionView {
    pub client: Option<Key>,
    pub last_ping: int,
}

impl View for Connection {
    type V = ConnectionView;

    closed spec fn view(&self) -> ConnectionView {
        ConnectionView {
            client: match self.client_info {
                Some((location, room)) => Some((location@, room@)),
                None => None,
            },
            last_ping: self.last_ping as int,
        }
    }
}

/// Whether a message tells that its sender is there.
pub open spec fn is_greeting(action: Seq<char>) -> bool {
    action == "CONNECT"@ || action == "KEEP_ALIVE"@
}

/// Whether a message answers a request.
pub open spec fn is_response(action: Seq<char>) -> bool {
    ||| action == "START_MACHINE_RESPONSE"@
    ||| action == "MACHINE_STATUS_RESPONSE"@
    ||| action == "MACHINE_HEALTH_RESPONSE"@
    ||| action == "MACHINES_RESPONSE"@
}

/// The text under `key` of a payload; empty where there is none.
pub open spec fn payload_text(payload: JsonTree, key: Seq<char>) -> Seq<char> {
    match tree_str(tree_member(payload, key)) {
        Some(text) => text,
        None => Seq::empty(),
    }
}

/// The location and room that a payload names.
pub open spec fn payload_key(payload: JsonTree) -> Key {
    (payload_text(payload, "location"@), payload_text(payload, "room"@))
}

/// Whether a location and a room are both given.
pub open spec fn is_named(key: Key) -> bool {
    key.0.len() > 0 && key.1.len() > 0
}

/// Which client a connection belongs to after a message.
pub open spec fn client_after(client: Option<Key>, message: ServerMessageView) -> Option<Key> {
    if is_greeting(message.action) && is_named(payload_key(message.payload)) {
        Some(payload_key(message.payload))
    } else {
        client
    }
}

/// The clients after a message of the client `client`.
pub open spec fn clients_after<S, T>(
    clients: Map<Key, ClientView<S, T>>,
    client: Option<Key>,
    message: ServerMessageView,
    session: S,
    now: int,
) -> Map<Key, ClientView<S, T>> {
    if is_greeting(message.action) {
        let key = payload_key(message.payload);
        connected(clients, key.0, key.1, session, now)
    } else if is_response(message.action) && client is Some {
        with_sender(clients, client->0, None)
    } else {
        clients
    }
}

/// The sender that a message goes to.
pub open spec fn receiver_of<S, T>(
    clients: Map<Key, ClientView<S, T>>,
    client: Option<Key>,
    message: ServerMessageView,
) -> Option<T> {
    if is_response(message.action) && client is Some {
        waiting(clients, client->0)
    } else {
        None
    }
}

/// What is worth noting of a message.
pub open spec fn note_of<S, T>(
    clients: Map<Key, ClientView<S, T>>,
    client: Option<Key>,
    message: ServerMessageView,
) -> Note {
    if is_greeting(message.action) {
        if message.action == "CONNECT"@ && is_named(payload_key(message.payload)) {
            Note::Connected
        } else {
            Note::Quiet
        }
    } else if is_response(message.action) {
        if client is None || !clients.contains_key(client->0) {
            Note::Quiet
        } else if clients[client->0].response_sender is Some {
            Note::Answered
        } else {
            Note::NobodyWaiting
        }
    } else {
        Note::UnknownAction
    }
}

/// What to do after a message has been dealt with: send a ping if the last one is long ago,
/// and wait for the next message if not.
pub open spec fn after_message(last_ping: int, now: int) -> NextView {
    if elapsed(last_ping, now) > PING_AFTER {
        NextView::Ping
    } else {
        NextView::Receive
    }
}

/// The clients once the connection of `client` has ended.
pub open spec fn clients_without<S, T>(
    clients: Map<Key, ClientView<S, T>>,
    client: Option<Key>,
) -> Map<Key, ClientView<S, T>> {
    match client {
        Some(key) => clients.remove(key),
        None => clients,
    }
}

/// A client's connection, the clients, and the step to be taken, after something came in.
pub struct Received<S, T> {
    pub connection: ConnectionView,
    pub clients: Map<Key, ClientView<S, T>>,
    pub step: StepView<T>,
}

/// What something that comes in over a client's connection leads to.
pub open spec fn received<S, T>(
    connection: ConnectionView,
    clients: Map<Key, ClientView<S, T>>,
    incoming: Incoming<ServerMessage>,
    session: S,
    now: int,
) -> Received<S, T> {
    let proceed = after_message(connection.last_ping, now);
    match incoming {
        Incoming::Ping(bytes) => Received {
            connection,
            clients,
            step: StepView { deliver: None, note: Note::Quiet, next: NextView::Pong(bytes@) },
        },
        Incoming::Text(Some(message)) => Received {
            connection: ConnectionView { client: client_after(connection.client, message@), ..connection },
            clients: clients_after(clients, connection.client, message@, session, now),
            step: StepView {
                deliver: match receiver_of(clients, connection.client, message@) {
                    Some(sender) => Some((sender, json_text(message@.payload))),
                    None => None,
                },
                note: note_of(clients, connection.client, message@),
                next: proceed,
            },
        },
        Incoming::Text(None) => Received {
            connection,
            clients,
            step: StepView { deliver: None, note: Note::Invalid, next: proceed },
        },
        Incoming::Other => Received {
            connection,
            clients,
            step: StepView { deliver: None, note: Note::Quiet, next: proceed },
        },
        Incoming::Close => Received {
            connection,
            clients: clients_without(clients, connection.client),
            step: StepView { deliver: None, note: Note::ClosedByPeer, next: NextView::Close },
        },
        Incoming::End => Received {
            connection,
            clients: clients_without(clients, connection.client),
            step: StepView { deliver: None, note: Note::Quiet, next: NextView::Close },
        },
    }
}

/// No message both says that its sender is there and answers a request.
proof fn lemma_greeting_is_no_response(action: Seq<char>)
    ensures
        !(is_greeting(action) && is_response(action)),
{
    reveal_strlit("CONNECT");
    assert("CONNECT"@.len() == 7);
    reveal_strlit("KEEP_ALIVE");
    assert("KEEP_ALIVE"@.len() == 10);
    reveal_strlit("START_MACHINE_RESPONSE");
    assert("START_MACHINE_RESPONSE"@.len() == 22);
    reveal_strlit("MACHINE_STATUS_RESPONSE");
    assert("MACHINE_STATUS_RESPONSE"@.len() == 23);
    reveal_strlit("MACHINE_HEALTH_RESPONSE");
    assert("MACHINE_HEALTH_RESPONSE"@.len() == 23);
    reveal_strlit("MACHINES_RESPONSE");
    assert("MACHINES_RESPONSE"@.len() == 17);
}

/// What to do after a message has been dealt with.
fn proceed(last_ping: u128, now: u128) -> (next: Next)
    ensures
        next@ == after_message(last_ping as int, now as int),
{
    if now.saturating_sub(last_ping) > PING_AFTER {
        Next::Ping
    } else {
        Next::Receive
    }
}

/// Tells whether a message says that its sender is there.
fn greets(action: &str) -> (greets: bool)
    ensures
        greets == is_greeting(action@),
{
    same_text(action, "CONNECT") || same_text(action, "KEEP_ALIVE")
}

/// Tells whether a message answers a request.
fn responds(action: &str) -> (responds: bool)
    ensures
        responds == is_response(action@),
{
    same_text(action, "START_MACHINE_RESPONSE") || same_text(action, "MACHINE_STATUS_RESPONSE") || same_text(
        action,
        "MACHINE_HEALTH_RESPONSE",
    ) || same_text(action, "MACHINES_RESPONSE")
}

/// The text under `key` of a payload; empty where there is none.
fn text_or_empty(payload: &serde_json::Value, key: &str) -> (text: String)
    ensures
        text@ == payload_text(json_tree(*payload), key@),
{
    match text_at(payload, key) {
        Some(text) => text,
        None => String::new(),
    }
}

impl Connection {
    /// A new connection, opened at `now`.
    pub fn new(now: u128) -> (connection: Connection)
        ensures
            connection@ == (ConnectionView { client: None, last_ping: now as int }),
    {
        Connection { client_info: None, last_ping: now }
    }

    /// The client that the connection belongs to.
    pub fn client_info(&self) -> (client: Option<(&str, &str)>)
        ensures
            (match client {
                Some((location, room)) => Some((location@, room@)),
                None => None,
            }) == self@.client,
    {
        match &self.client_info {
            Some((location, room)) => Some((location.as_str(), room.as_str())),
            None => None,
        }
    }

    /// Takes the client of this connection out of the registry.
    fn leave<S, T>(&self, registry: &mut Registry<S, T>)
        requires
            old(registry).wf(),
        ensures
            final(registry).wf(),
            final(registry)@ == clients_without(old(registry)@, self@.client),
    {
        match &self.client_info {
            Some((location, room)) => registry.remove(location.as_str(), room.as_str()),
            None => {},
        }
    }

    /// Deals with a message of the client: what goes to a waiting request, and what is worth noting.
    fn read<S, T>(
        &mut self,
        registry: &mut Registry<S, T>,
        message: ServerMessage,
        session: S,
        now: u128,
    ) -> (res: (Option<(T, String)>, Note))
        requires
            old(registry).wf(),
        ensures
            final(registry).wf(),
            final(registry)@ == clients_after(old(registry)@, old(self)@.client, message@, session, now as int),
            final(self)@ == (ConnectionView {
                client: client_after(old(self)@.client, message@),
                last_ping: old(self)@.last_ping,
            }),
            res.1 == note_of(old(registry)@, old(self)@.client, message@),
            (match res.0 {
                Some((sender, text)) => Some((sender, text@)),
                None => None,
            }) == match receiver_of(old(registry)@, old(self)@.client, message@) {
                Some(sender) => Some((sender, json_text(message@.payload))),
                None => None,
            },
            res.0 is Some ==> reads_as(json_text(message@.payload), message@.payload),
    {
        proof {
            lemma_greeting_is_no_response(message.action@);
        }
        let action = message.action.as_str();
        if greets(action) {
            let location = text_or_empty(&message.payload, "location");
            let room = text_or_empty(&message.payload, "room");
            let mut note = Note::Quiet;
            if registry.connect(location.clone(), room.clone(), session, now) {
                self.client_info = Some((location, room));
                if same_text(action, "CONNECT") {
                    note = Note::Connected;
                }
            }
            (None, note)
        } else if responds(action) {
            match &self.client_info {
                Some((location, room)) => {
                    if registry.session(location.as_str(), room.as_str()).is_some() {
                        match registry.take_sender(location.as_str(), room.as_str()) {
                            Some(sender) => (Some((sender, json_to_string(&message.payload))), Note::Answered),
                            None => (None, Note::NobodyWaiting),
                        }
                    } else {
                        (None, Note::Quiet)
                    }
                },
                None => (None, Note::Quiet),
            }
        } else {
            (None, Note::UnknownAction)
        }
    }

    /// Deals with what came in over the connection at `now`; `session` is the way back to
    /// the client. An answer that goes to a waiting request is read there as the client's payload.
    pub fn receive<S, T>(
        &mut self,
        registry: &mut Registry<S, T>,
        incoming: Incoming<ServerMessage>,
        session: S,
        now: u128,
    ) -> (step: Step<T>)
        requires
            old(registry).wf(),
        ensures
            final(registry).wf(),
            ({
                let result = received(old(self)@, old(registry)@, incoming, session, now as int);
                &&& final(self)@ == result.connection
                &&& final(registry)@ == result.clients
                &&& step@ == result.step
            }),
            step@.deliver matches Some((sender, text)) ==> incoming matches Incoming::Text(Some(message)) && reads_as(
                text,
                message@.payload,
            ),
    {
        match incoming {
            Incoming::Ping(bytes) => Step { deliver: None, note: Note::Quiet, next: Next::Pong(bytes) },
            Incoming::Text(Some(message)) => {
                let (deliver, note) = self.read(registry, message, session, now);
                Step { deliver, note, next: proceed(self.last_ping, now) }
            },
            Incoming::Text(None) => Step { deliver: None, note: Note::Invalid, next: proceed(self.last_ping, now) },
            Incoming::Other => Step { deliver: None, note: Note::Quiet, next: proceed(self.last_ping, now) },
            Incoming::Close => {
                self.leave(registry);
                Step { deliver: None, note: Note::ClosedByPeer, next: Next::Close }
            },
            Incoming::End => {
                self.leave(registry);
                Step { deliver: None, note: Note::Quiet, next: Next::Close }
            },
        }
    }

    /// Goes on after an answer to a ping was sent, or failed to be sent, at `now`.
    pub fn sent_pong<S, T>(&mut self, registry: &mut Registry<S, T>, sent: bool, now: u128) -> (next: Next)
        requires
            old(registry).wf(),
        ensures
            final(registry).wf(),
            final(self)@ == old(self)@,
            final(registry)@ == if sent {
                old(registry)@
            } else {
                clients_without(old(registry)@, old(self)@.client)
            },
            next@ == if sent {
                after_message(old(self)@.last_ping, now as int)
            } else {
                NextView::Close
            },
    {
        if sent {
            proceed(self.last_ping, now)
        } else {
            self.leave(registry);
            Next::Close
        }
    }

    /// Goes on after a ping was sent, or failed to be sent, at `now`.
    pub fn sent_ping<S, T>(&mut self, registry: &mut Registry<S, T>, sent: bool, now: u128) -> (next: Next)
        requires
            old(registry).wf(),
        ensures
            final(registry).wf(),
            final(self)@ == (ConnectionView {
                client: old(self)@.client,
                last_ping: if sent {
                    now as int
                } else {
                    old(self)@.last_ping
                },
            }),
            final(registry)@ == if sent {
                old(registry)@
            } else {
                clients_without(old(registry)@, old(self)@.client)
            },
            next@ == if sent {
                NextView::Receive
            } else {
                NextView::Close
            },
    {
        if sent {
            self.last_ping = now;
            Next::Receive
        } else {
            self.leave(registry);
            Next::Close
        }
    }
}

/// What to do next on the connection of a requester.
#[derive(Debug)]
pub enum StatusNext {
    /// Wait for what comes in.
    Receive,
    /// Answer a ping with its bytes.
    Pong(Vec<u8>),
    /// Ask for the status of a machine.
    Ask(LaundryRequest),
    /// Send a text.
    Send(String),
    /// Send a ping without bytes.
    Ping,
    /// Close the connection.
    Close,
}

/// What there is to do next on the connection of a requester.
pub enum StatusNextView {
    Receive,
    Pong(Seq<u8>),
    Ask(LaundryRequestView),
    Send(Seq<char>),
    Ping,
    Close,
}

impl View for StatusNext {
    type V = StatusNextView;

    open spec fn view(&self) -> StatusNextView {
        match self {
            StatusNext::Receive => StatusNextView::Receive,
            StatusNext::Pong(bytes) => StatusNextView::Pong(bytes@),
            StatusNext::Ask(request) => StatusNextView::Ask(request@),
            StatusNext::Send(text) => StatusNextView::Send(text@),
            StatusNext::Ping => StatusNextView::Ping,
            StatusNext::Close => StatusNextView::Close,
        }
    }
}

/// What to do after a message of a requester has been dealt with.
pub open spec fn status_after_message(last_ping: int, now: int) -> StatusNextView {
    if elapsed(last_ping, now) > PING_AFTER {
        StatusNextView::Ping
    } else {
        StatusNextView::Receive
    }
}

/// What something that comes in over the connection of a requester leads to.
pub open spec fn status_received(last_ping: int, incoming: Incoming<LaundryRequest>, now: int) -> (
    StatusNextView,
    Note,
) {
    match incoming {
        Incoming::Ping(bytes) => (StatusNextView::Pong(bytes@), Note::Quiet),
        Incoming::Text(Some(request)) => (StatusNextView::Ask(request@), Note::Quiet),
        Incoming::Text(None) => (status_after_message(last_ping, now), Note::Invalid),
        Incoming::Other => (status_after_message(last_ping, now), Note::Quiet),
        Incoming::Close => (StatusNextView::Close, Note::ClosedByPeer),
        Incoming::End => (StatusNextView::Close, Note::Quiet),
    }
}

/// The connection of a requester that asks for the status of machines: when it was last
/// sent a ping.
pub struct StatusConnection {
    last_ping: u128,
}

impl View for StatusConnection {
    type V = int;

    closed spec fn view(&self) -> int {
        self.last_ping as int
    }
}

impl StatusConnection {
    /// A new connection, opened at `now`.
    pub fn new(now: u128) -> (connection: StatusConnection)
        ensures
            connection@ == now,
    {
        StatusConnection { last_ping: now }
    }

    /// What to do after a message has been dealt with.
    fn go_on(&self, now: u128) -> (next: StatusNext)
        ensures
            next@ == status_after_message(self@, now as int),
    {
        match proceed(self.last_ping, now) {
            Next::Ping => StatusNext::Ping,
            _ => StatusNext::Receive,
        }
    }

    /// Deals with what came in over the connection at `now`.
    pub fn receive(&self, incoming: Incoming<LaundryRequest>, now: u128) -> (res: (StatusNext, Note))
        ensures
            (res.0@, res.1) == status_received(self@, incoming, now as int),
    {
        match incoming {
            Incoming::Ping(bytes) => (StatusNext::Pong(bytes), Note::Quiet),
            Incoming::Text(Some(request)) => (StatusNext::Ask(request), Note::Quiet),
            Incoming::Text(None) => (self.go_on(now), Note::Invalid),
            Incoming::Other => (self.go_on(now), Note::Quiet),
            Incoming::Close => (StatusNext::Close, Note::ClosedByPeer),
            Incoming::End => (StatusNext::Close, Note::Quiet),
        }
    }

    /// Passes on what the question led to: the client's answer, or the text of the failure.
    pub fn answered(&self, result: Result<String, Failure>) -> (next: StatusNext)
        ensures
            next@ == StatusNextView::Send(ws_text(result_view(result))),
    {
        match result {
            Ok(text) => StatusNext::Send(text),
            Err(failure) => StatusNext::Send(failure.message),
        }
    }

    /// Goes on after a text or the answer to a ping was sent, or failed to be sent, at `now`.
    pub fn sent(&self, sent: bool, now: u128) -> (next: StatusNext)
        ensures
            next@ == if sent {
                status_after_message(self@, now as int)
            } else {
                StatusNextView::Close
            },
    {
        if sent {
            self.go_on(now)
        } else {
            StatusNext::Close
        }
    }

    /// Goes on after a ping was sent, or failed to be sent, at `now`.
    pub fn sent_ping(&mut self, sent: bool, now: u128) -> (next: StatusNext)
        ensures
            final(self)@ == if sent {
                now as int
            } else {
                old(self)@
            },
            next@ == if sent {
                StatusNextView::Receive
            } else {
                StatusNextView::Close
            },
    {
        if sent {
            self.last_ping = now;
            StatusNext::Receive
        } else {
            StatusNext::Close
        }
    }
}

/// The answer of a client goes to the request that was sent to it last, with the text of the
/// payload; after that no request waits for the client, and a further answer goes nowhere.
pub proof fn law_answer_goes_to_the_request<S, T>(
    clients: Map<Key, ClientView<S, T>>,
    key: Key,
    sender: T,
    last_ping: int,
    answer: ServerMessage,
    again: ServerMessage,
    session: S,
    now: int,
    later: int,
)
    requires
        clients.contains_key(key),
        is_response(answer@.action),
        is_response(again@.action),
    ensures
        ({
            let connection = ConnectionView { client: Some(key), last_ping };
            let asked = with_sender(clients, key, Some(sender));
            let first = received(connection, asked, Incoming::Text(Some(answer)), session, now);
            let second = received(first.connection, first.clients, Incoming::Text(Some(again)), session, later);
            &&& first.step.deliver == Some((sender, json_text(answer@.payload)))
            &&& first.step.note == Note::Answered
            &&& first.connection == connection
            &&& first.clients == with_sender(clients, key, None)
            &&& second.step.deliver is None
            &&& second.step.note == Note::NobodyWaiting
            &&& second.clients == first.clients
        }),
{
    lemma_greeting_is_no_response(answer@.action);
    lemma_greeting_is_no_response(again@.action);
    let asked = with_sender(clients, key, Some(sender));
    assert(with_sender(asked, key, None) =~= with_sender(clients, key, None));
    assert(with_sender(with_sender(clients, key, None), key, None) =~= with_sender(clients, key, None));
}

/// The way of a request: a client greets with its location and room; a request for them is sent to
/// it; the client answers over the same connection; and the requester is told the text of the
/// answer's payload, with the status 200.
pub proof fn law_round_trip<S, T>(
    connection: ConnectionView,
    clients: Map<Key, ClientView<S, T>>,
    greeting: ServerMessage,
    session: S,
    now: int,
    call: Call,
    payload: JsonTree,
    sender: T,
    answer: ServerMessage,
    later: int,
    text: String,
)
    requires
        is_greeting(greeting@.action),
        is_named(payload_key(greeting@.payload)),
        is_response(answer@.action),
        text@ == json_text(answer@.payload),
    ensures
        ({
            let key = payload_key(greeting@.payload);
            let greeted = received(connection, clients, Incoming::Text(Some(greeting)), session, now);
            let asked = with_sender(greeted.clients, key, Some(sender));
            let answered = received(greeted.connection, asked, Incoming::Text(Some(answer)), session, later);
            &&& opening(greeted.clients, call, key, payload) == OpeningView::Send {
                key,
                text: json_text(message(call, payload)),
            }
            &&& answered.step.deliver == Some((sender, text@))
            &&& conclusion(call, Delivery::Answered(text)) == text_reply(200, json_text(answer@.payload))
        }),
{
    lemma_greeting_is_no_response(greeting@.action);
    lemma_greeting_is_no_response(answer@.action);
}

/// An answer concerns the client of the connection that it came over, and no other: no other
/// client changes, and what is delivered goes through the sender of that client.
pub proof fn law_answers_do_not_cross<S, T>(
    connection: ConnectionView,
    clients: Map<Key, ClientView<S, T>>,
    answer: ServerMessage,
    session: S,
    now: int,
    other: Key,
)
    requires
        is_response(answer@.action),
        connection.client != Some(other),
    ensures
        ({
            let result = received(connection, clients, Incoming::Text(Some(answer)), session, now);
            &&& result.clients.get(other) == clients.get(other)
            &&& result.step.deliver matches Some((sender, text)) ==> connection.client is Some && waiting(
                clients,
                connection.client->0,
            ) == Some(sender)
        }),
{
    lemma_greeting_is_no_response(answer@.action);
}

/// Once a client has greeted with its location and room, requests for them are sent to it, over
/// the session that it greeted on.
pub proof fn law_greeted_client_is_reached<S, T>(
    connection: ConnectionView,
    clients: Map<Key, ClientView<S, T>>,
    greeting: ServerMessage,
    session: S,
    now: int,
    call: Call,
    payload: JsonTree,
)
    requires
        is_greeting(greeting@.action),
        is_named(payload_key(greeting@.payload)),
    ensures
        ({
            let key = payload_key(greeting@.payload);
            let result = received(connection, clients, Incoming::Text(Some(greeting)), session, now);
            &&& result.connection.client == Some(key)
            &&& result.clients.contains_key(key)
            &&& result.clients[key].session == session
            &&& result.clients[key].last_heartbeat == now
            &&& opening(result.clients, call, key, payload) == OpeningView::Send {
                key,
                text: json_text(message(call, payload)),
            }
        }),
{
}

/// Once the connection of a client has ended, for whatever reason, the client is gone: requests
/// for it are answered with 404, and no sender is kept for it. The other clients stay.
pub proof fn law_gone_client_is_not_found<S, T>(
    clients: Map<Key, ClientView<S, T>>,
    key: Key,
    call: Call,
    payload: JsonTree,
    other: Key,
)
    requires
        other != key,
    ensures
        opening(clients_without(clients, Some(key)), call, key, payload) == OpeningView::Answer(
            text_reply(404, "Client not found"@),
        ),
        waiting(clients_without(clients, Some(key)), key) is None,
        clients_without(clients, Some(key)).get(other) == clients.get(other),
{
}

/// What ends a connection: the other side closes it, or nothing comes in any more. Nothing else
/// that comes in does.
pub proof fn law_what_ends_a_connection<S, T>(
    connection: ConnectionView,
    clients: Map<Key, ClientView<S, T>>,
    incoming: Incoming<ServerMessage>,
    session: S,
    now: int,
)
    ensures
        ({
            let result = received(connection, clients, incoming, session, now);
            &&& result.step.next is Close <==> incoming is Close || incoming is End
            &&& result.step.next is Close ==> result.clients == clients_without(clients, connection.client)
        }),
{
}

/// Texts that are no messages, messages with an unknown action, greetings without a location or
/// room, pings and the like change no client.
pub proof fn law_nothing_else_changes_clients<S, T>(
    connection: ConnectionView,
    clients: Map<Key, ClientView<S, T>>,
    incoming: Incoming<ServerMessage>,
    session: S,
    now: int,
)
    requires
        match incoming {
            Incoming::Text(Some(message)) => if is_greeting(message@.action) {
                !is_named(payload_key(message@.payload))
            } else {
                !is_response(message@.action)
            },
            Incoming::Close => false,
            Incoming::End => false,
            _ => true,
        },
    ensures
        ({
            let result = received(connection, clients, incoming, session, now);
            result.clients == clients && result.connection == connection && result.step.deliver is None
        }),
{
    if let Incoming::Text(Some(message)) = incoming {
        lemma_greeting_is_no_response(message@.action);
    }
}

/// A ping is due after a message if and only if more than the time between pings has passed since
/// the last one; so after a ping none is due for that time.
pub proof fn law_pings_keep_their_distance(last_ping: int, now: int)
    ensures
        after_message(last_ping, now) == NextView::Ping <==> now - last_ping > PING_AFTER,
        after_message(last_ping, now) == NextView::Receive <==> now - last_ping <= PING_AFTER,
        status_after_message(last_ping, now) == StatusNextView::Ping <==> now - last_ping > PING_AFTER,
        status_after_message(last_ping, now) == StatusNextView::Receive <==> now - last_ping <= PING_AFTER,
{
}

/// A `CONNECT` or `KEEP_ALIVE` message whose payload has a string under `location` and one under
/// `room`, neither of them empty, makes the client of exactly these be there, reached over the
/// session of the message and heard of now; the connection belongs to it from then on, and requests
/// for that location and room are sent to it. The other clients stay as they were, a request that
/// waited for the client still does, and nothing is delivered.
pub proof fn law_greeting_registers_the_client<S, T>(
    connection: ConnectionView,
    clients: Map<Key, ClientView<S, T>>,
    greeting: ServerMessage,
    members: Map<Seq<char>, JsonTree>,
    location: Seq<char>,
    room: Seq<char>,
    session: S,
    now: int,
    call: Call,
    request: LaundryRequest,
)
    requires
        greeting.action@ == "CONNECT"@ || greeting.action@ == "KEEP_ALIVE"@,
        json_tree(greeting.payload) == JsonTree::Obj(members),
        members.contains_key("location"@),
        members["location"@] == JsonTree::Str(location),
        location.len() > 0,
        members.contains_key("room"@),
        members["room"@] == JsonTree::Str(room),
        room.len() > 0,
        request.location@ == location,
        request.room@ == room,
    ensures
        ({
            let after = received(connection, clients, Incoming::Text(Some(greeting)), session, now);
            let key = (location, room);
            &&& after.connection.client == Some(key)
            &&& after.connection.last_ping == connection.last_ping
            &&& after.clients.contains_key(key)
            &&& after.clients[key].location == location
            &&& after.clients[key].room == room
            &&& after.clients[key].session == session
            &&& after.clients[key].last_heartbeat == now
            &&& clients.contains_key(key) ==> after.clients[key].response_sender == clients[key].response_sender
            &&& !clients.contains_key(key) ==> after.clients[key].response_sender is None
            &&& after.clients.remove(key) == clients.remove(key)
            &&& after.step.deliver is None
            &&& after.step.note == Note::Connected <==> greeting.action@ == "CONNECT"@
            &&& opening(after.clients, call, request@.key(), request@.payload()) matches OpeningView::Send {
                key: to,
                text,
            }
            &&& to == key
        }),
{
    let after = received(connection, clients, Incoming::Text(Some(greeting)), session, now);
    lemma_greeting_is_no_response(greeting.action@);
    assert(after.clients.remove((location, room)) =~= clients.remove((location, room)));
}

/// A `CONNECT` or `KEEP_ALIVE` message whose payload lacks a string, or has an empty one, under
/// `location` or under `room` changes nothing.
pub proof fn law_greeting_without_a_name<S, T>(
    connection: ConnectionView,
    clients: Map<Key, ClientView<S, T>>,
    greeting: ServerMessage,
    missing: Seq<char>,
    session: S,
    now: int,
)
    requires
        greeting.action@ == "CONNECT"@ || greeting.action@ == "KEEP_ALIVE"@,
        missing == "location"@ || missing == "room"@,
        json_tree(greeting.payload) matches JsonTree::Obj(members) ==> (members.contains_key(missing) ==> (
        members[missing] matches JsonTree::Str(text) ==> text.len() == 0)),
    ensures
        ({
            let after = received(connection, clients, Incoming::Text(Some(greeting)), session, now);
            &&& after.connection == connection
            &&& after.clients == clients
            &&& after.step.deliver is None
            &&& after.step.note == Note::Quiet
        }),
{
    lemma_greeting_is_no_response(greeting.action@);
}

/// Each of the four answers of a client goes, with the text of its payload, through the sender of
/// the request that waits for the client that the connection belongs to. That client then has no
/// sender, and is otherwise as it was; no other client changes.
pub proof fn law_answer_is_delivered<S, T>(
    key: Key,
    last_ping: int,
    clients: Map<Key, ClientView<S, T>>,
    answer: ServerMessage,
    session: S,
    now: int,
    step: Step<T>,
)
    requires
        answer.action@ == "START_MACHINE_RESPONSE"@ || answer.action@ == "MACHINE_STATUS_RESPONSE"@
            || answer.action@ == "MACHINE_HEALTH_RESPONSE"@ || answer.action@ == "MACHINES_RESPONSE"@,
        clients.contains_key(key),
        step@ == received(
            ConnectionView { client: Some(key), last_ping },
            clients,
            Incoming::Text(Some(answer)),
            session,
            now,
        ).step,
    ensures
        ({
            let connection = ConnectionView { client: Some(key), last_ping };
            let after = received(connection, clients, Incoming::Text(Some(answer)), session, now);
            &&& after.connection == connection
            &&& after.clients.contains_key(key)
            &&& after.clients[key].response_sender is None
            &&& after.clients[key].location == clients[key].location
            &&& after.clients[key].room == clients[key].room
            &&& after.clients[key].session == clients[key].session
            &&& after.clients[key].last_heartbeat == clients[key].last_heartbeat
            &&& after.clients.remove(key) == clients.remove(key)
        }),
        clients[key].response_sender matches Some(sender) ==> step.note == Note::Answered && (step.deliver matches Some(
            (through, text),
        ) && through == sender && text@ == json_text(json_tree(answer.payload))),
        clients[key].response_sender is None ==> step.note == Note::NobodyWaiting && step.deliver is None,
{
    let connection = ConnectionView { client: Some(key), last_ping };
    let after = received(connection, clients, Incoming::Text(Some(answer)), session, now);
    lemma_greeting_is_no_response(answer.action@);
    assert(after.clients.remove(key) =~= clients.remove(key));
}

/// An answer over a connection whose client is not known, or is not there any more, goes nowhere
/// and changes nothing; so does a message with any other action.
pub proof fn law_other_messages_go_nowhere<S, T>(
    connection: ConnectionView,
    clients: Map<Key, ClientView<S, T>>,
    message: ServerMessage,
    session: S,
    now: int,
)
    requires
        message.action@ != "CONNECT"@,
        message.action@ != "KEEP_ALIVE"@,
        connection.client is None || !clients.contains_key(connection.client->0) || (message.action@
            != "START_MACHINE_RESPONSE"@ && message.action@ != "MACHINE_STATUS_RESPONSE"@ && message.action@
            != "MACHINE_HEALTH_RESPONSE"@ && message.action@ != "MACHINES_RESPONSE"@),
    ensures
        ({
            let after = received(connection, clients, Incoming::Text(Some(message)), session, now);
            &&& after.connection == connection
            &&& after.clients == clients
            &&& after.step.deliver is None
            &&& after.step.note == Note::UnknownAction <==> message.action@ != "START_MACHINE_RESPONSE"@
                && message.action@ != "MACHINE_STATUS_RESPONSE"@ && message.action@ != "MACHINE_HEALTH_RESPONSE"@
                && message.action@ != "MACHINES_RESPONSE"@
        }),
{
}

/// What is done next on a client's connection: a ping is answered with its own bytes; when the other
/// side closes or nothing comes any more, the connection is closed and its client, and no other, is
/// gone; and after anything else a ping is sent if and only if the last one is more than twenty
/// seconds ago.
pub proof fn law_what_is_done_next<S, T>(
    connection: ConnectionView,
    clients: Map<Key, ClientView<S, T>>,
    incoming: Incoming<ServerMessage>,
    session: S,
    now: int,
    step: Step<T>,
)
    requires
        step@ == received(connection, clients, incoming, session, now).step,
    ensures
        ({
            let after = received(connection, clients, incoming, session, now);
            &&& incoming matches Incoming::Ping(bytes) ==> {
                &&& step.next matches Next::Pong(back)
                &&& back@ == bytes@
                &&& after.clients == clients
                &&& after.connection == connection
                &&& step.deliver is None
            }
            &&& incoming is Close || incoming is End ==> {
                &&& step.next is Close
                &&& step.deliver is None
                &&& after.connection == connection
                &&& connection.client matches Some(key) ==> after.clients == clients.remove(key)
                &&& connection.client is None ==> after.clients == clients
            }
            &&& incoming is Other || incoming == Incoming::<ServerMessage>::Text(None) ==> {
                &&& after.clients == clients
                &&& after.connection == connection
                &&& step.deliver is None
            }
            &&& incoming is Text || incoming is Other ==> {
                &&& step.next is Ping <==> now - connection.last_ping > 20_000_000_000
                &&& step.next is Receive <==> now - connection.last_ping <= 20_000_000_000
            }
            &&& step.note == Note::ClosedByPeer <==> incoming is Close
            &&& step.note == Note::Invalid <==> incoming == Incoming::<ServerMessage>::Text(None)
        }),
{
}

/// What is left when a connection ends, and what is done after a message: the client of the
/// connection, and no other, is gone; a ping is sent if and only if the last one is more than twenty
/// seconds ago.
pub proof fn law_leaving_and_pinging<S, T>(
    clients: Map<Key, ClientView<S, T>>,
    client: Option<Key>,
    last_ping: int,
    now: int,
    next: Next,
    status: StatusNext,
)
    requires
        next@ == after_message(last_ping, now),
        status@ == status_after_message(last_ping, now),
    ensures
        client matches Some(key) ==> clients_without(clients, client) == clients.remove(key),
        client is None ==> clients_without(clients, client) == clients,
        next is Ping <==> now - last_ping > 20_000_000_000,
        next is Receive <==> now - last_ping <= 20_000_000_000,
        status is Ping <==> now - last_ping > 20_000_000_000,
        status is Receive <==> now - last_ping <= 20_000_000_000,
{
}

/// A request that comes in over a requester's connection is asked as it is, with its own location,
/// room and machine; so it is sent to the client of that location and room where that client is
/// there, and where it is not, the requester is told so with the status 404.
pub proof fn law_status_question_is_asked_as_it_came<S, T>(
    last_ping: int,
    request: LaundryRequest,
    now: int,
    next: StatusNext,
    clients: Map<Key, ClientView<S, T>>,
)
    requires
        next@ == status_received(last_ping, Incoming::Text(Some(request)), now).0,
    ensures
        ({
            &&& next matches StatusNext::Ask(asked)
            &&& asked.location@ == request.location@
            &&& asked.room@ == request.room@
            &&& asked.machine@ == request.machine@
            &&& clients.contains_key((request.location@, request.room@)) ==> opening(
                clients,
                Call::GetMachineStatus,
                asked@.key(),
                asked@.payload(),
            ) == OpeningView::Send {
                key: (request.location@, request.room@),
                text: json_text(
                    JsonTree::Obj(
                        map![
                            "action"@ => JsonTree::Str("GET_MACHINE_STATUS"@),
                            "payload"@ => JsonTree::Obj(
                                map![
                                    "machine"@ => JsonTree::Str(request.machine@),
                                    "location"@ => JsonTree::Str(request.location@),
                                    "room"@ => JsonTree::Str(request.room@),
                                ],
                            ),
                        ],
                    ),
                ),
            }
            &&& !clients.contains_key((request.location@, request.room@)) ==> opening(
                clients,
                Call::GetMachineStatus,
                asked@.key(),
                asked@.payload(),
            ) == OpeningView::Answer(
                ReplyView { status: 404, content: Content::Text, body: "Client not found"@ },
            )
        }),
{
}

/// What is done next on a requester's connection, but for requests: a ping is answered with its own
/// bytes, and the connection is closed when the other side closes it or nothing comes any more.
pub proof fn law_what_is_done_next_for_requesters(
    last_ping: int,
    incoming: Incoming<LaundryRequest>,
    now: int,
    next: StatusNext,
    note: Note,
)
    requires
        (next@, note) == status_received(last_ping, incoming, now),
    ensures
        incoming matches Incoming::Ping(bytes) ==> (next matches StatusNext::Pong(back) && back@ == bytes@),
        next is Close <==> incoming is Close || incoming is End,
        next is Ask <==> incoming is Text && incoming->Text_0 is Some,
        next is Pong <==> incoming is Ping,
        next !is Send,
        incoming is Other || incoming == Incoming::<LaundryRequest>::Text(None) ==> {
            &&& next is Ping <==> now - last_ping > 20_000_000_000
            &&& next is Receive <==> now - last_ping <= 20_000_000_000
        },
        note == Note::Invalid <==> incoming == Incoming::<LaundryRequest>::Text(None),
        note == Note::ClosedByPeer <==> incoming is Close,
{
}

/// A requester is sent the client's answer, or the message of the failure, as it is.
pub proof fn law_requesters_are_sent_the_answer(result: Result<String, Failure>, next: StatusNext)
    requires
        next@ == StatusNextView::Send(ws_text(result_view(result))),
    ensures
        result matches Ok(answer) ==> (next matches StatusNext::Send(text) && text@ == answer@),
        result matches Err(failure) ==> (next matches StatusNext::Send(text) && text@ == failure.message@),
{
}

} // verus!
