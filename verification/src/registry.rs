//! The machines' clients that are connected, by location and room.
use crate::json::{
    comes_back, json_array, json_new_members, json_object, json_parse, json_trees, nested_within, no_fractions,
    no_members, put_text, JsonTree,
};
use crate::reply::{json_reply, Reply};
use crate::text::same_text;
use vstd::prelude::*;

verus! {

/// How long a client may stay silent before it counts as gone, in nanoseconds.
pub const INACTIVE_AFTER: u128 = 60_000_000_000;

/// How often the clients are swept, in seconds.
pub const SWEEP_EVERY_SECS: u64 = 5;

/// The location and room of a client.
pub type Key = (Seq<char>, Seq<char>);

/// A connected client: the room that it serves, when it last gave a sign of life (in
/// nanoseconds of the server's own clock), the session that reaches it, and the
/// sender through which the request that waits for its answer gets that answer.
pub struct Client<S, T> {
    location: String,
    room: String,
    last_heartbeat: u128,
    session: S,
    response_sender: Option<T>,
}

/// What a client is.
pub struct ClientView<S, T> {
    pub location: Seq<char>,
    pub room: Seq<char>,
    pub last_heartbeat: int,
    pub session: S,
    pub response_sender: Option<T>,
}

impl<S, T> ClientView<S, T> {
    pub open spec fn key(self) -> Key {
        (self.location, self.room)
    }

    /// The client with another sender.
    pub open spec fn with_sender(self, sender: Option<T>) -> Self {
        ClientView { response_sender: sender, ..self }
    }
}

impl<S, T> View for Client<S, T> {
    type V = ClientView<S, T>;

    closed spec fn view(&self) -> ClientView<S, T> {
        ClientView {
            location: self.location@,
            room: self.room@,
            last_heartbeat: self.last_heartbeat as int,
            session: self.session,
            response_sender: self.response_sender,
        }
    }
}

/// A client that was taken out for its silence, and how long it had been silent.
pub struct Removed {
    pub location: String,
    pub room: String,
    pub silent_for: u128,
}

/// What a removed client was.
pub struct RemovedView {
    pub location: Seq<char>,
    pub room: Seq<char>,
    pub silent_for: int,
}

impl View for Removed {
    type V = RemovedView;

    open spec fn view(&self) -> RemovedView {
        RemovedView { location: self.location@, room: self.room@, silent_for: self.silent_for as int }
    }
}

/// What a sweep did: the clients that it took out, and how many were there before and after.
pub struct Sweep {
    pub removed: Vec<Removed>,
    pub before: usize,
    pub after: usize,
}

/// The connected clients, at most one of each location and room.
pub struct Registry<S, T> {
    clients: Vec<Client<S, T>>,
}

/// The time from `since` to `now`, and 0 where `since` is the later.
pub open spec fn elapsed(since: int, now: int) -> int {
    if now >= since {
        now - since
    } else {
        0
    }
}

/// Whether a client that was last heard of at `last_heartbeat` counts as there.
pub open spec fn active(last_heartbeat: int, now: int) -> bool {
    elapsed(last_heartbeat, now) <= INACTIVE_AFTER
}

/// Whether no two clients of a list share a location and room.
pub open spec fn distinct_keys<S, T>(clients: Seq<ClientView<S, T>>) -> bool {
    forall|i: int, j: int|
        0 <= i < j < clients.len() ==> (#[trigger] clients[i]).key() != (#[trigger] clients[j]).key()
}

/// Whether every client of a list has a location and a room.
pub open spec fn named<S, T>(clients: Seq<ClientView<S, T>>) -> bool {
    forall|i: int|
        0 <= i < clients.len() ==> (#[trigger] clients[i]).location.len() > 0 && clients[i].room.len() > 0
}

/// The clients of a list by their keys.
pub open spec fn by_key<S, T>(clients: Seq<ClientView<S, T>>) -> Map<Key, ClientView<S, T>>
    decreases clients.len(),
{
    if clients.len() == 0 {
        Map::empty()
    } else {
        by_key(clients.drop_last()).insert(clients.last().key(), clients.last())
    }
}

/// A list's clients by their keys after a client of that location and room gave a sign of
/// life at `now` over `session`. A client that was there keeps its sender. A sign of life
/// without a location or without a room changes nothing.
pub open spec fn connected<S, T>(
    clients: Map<Key, ClientView<S, T>>,
    location: Seq<char>,
    room: Seq<char>,
    session: S,
    now: int,
) -> Map<Key, ClientView<S, T>> {
    if location.len() == 0 || room.len() == 0 {
        clients
    } else {
        let key = (location, room);
        clients.insert(
            key,
            ClientView {
                location,
                room,
                last_heartbeat: now,
                session,
                response_sender: if clients.contains_key(key) {
                    clients[key].response_sender
                } else {
                    None
                },
            },
        )
    }
}

/// The clients after the one under `key`, if it is there, got another sender.
pub open spec fn with_sender<S, T>(
    clients: Map<Key, ClientView<S, T>>,
    key: Key,
    sender: Option<T>,
) -> Map<Key, ClientView<S, T>> {
    if clients.contains_key(key) {
        clients.insert(key, clients[key].with_sender(sender))
    } else {
        clients
    }
}

/// The sender of the request that waits for the client under `key`.
pub open spec fn waiting<S, T>(clients: Map<Key, ClientView<S, T>>, key: Key) -> Option<T> {
    if clients.contains_key(key) {
        clients[key].response_sender
    } else {
        None
    }
}

/// The clients that count as there at `now`.
pub open spec fn swept<S, T>(clients: Map<Key, ClientView<S, T>>, now: int) -> Map<Key, ClientView<S, T>> {
    clients.restrict(
        Set::new(|key: Key| clients.contains_key(key) && active(clients[key].last_heartbeat, now)),
    )
}

/// Whether a client counts as there at `now`.
pub open spec fn is_active<S, T>(now: int) -> spec_fn(ClientView<S, T>) -> bool {
    |client: ClientView<S, T>| active(client.last_heartbeat, now)
}

/// Whether a client counts as gone at `now`.
pub open spec fn is_inactive<S, T>(now: int) -> spec_fn(ClientView<S, T>) -> bool {
    |client: ClientView<S, T>| !active(client.last_heartbeat, now)
}

/// What a client is reported as when it is taken out at `now`.
pub open spec fn removed_at<S, T>(now: int) -> spec_fn(ClientView<S, T>) -> RemovedView {
    |client: ClientView<S, T>| RemovedView {
        location: client.location,
        room: client.room,
        silent_for: elapsed(client.last_heartbeat, now),
    }
}

/// The document that a client is listed as.
pub open spec fn client_tree<S, T>() -> spec_fn(ClientView<S, T>) -> JsonTree {
    |client: ClientView<S, T>| JsonTree::Obj(
        no_members().insert("location"@, JsonTree::Str(client.location)).insert("room"@, JsonTree::Str(client.room)),
    )
}

/// In a list without a repeated key, a client is found under its own key, and under no other.
proof fn lemma_by_key<S, T>(clients: Seq<ClientView<S, T>>)
    ensures
        forall|key: Key| #[trigger]
            by_key(clients).contains_key(key) <==> exists|i: int|
                0 <= i < clients.len() && (#[trigger] clients[i]).key() == key,
        forall|key: Key| #[trigger]
            by_key(clients).contains_key(key) ==> by_key(clients)[key].key() == key,
        distinct_keys(clients) ==> forall|i: int|
            0 <= i < clients.len() ==> by_key(clients)[(#[trigger] clients[i]).key()] == clients[i],
        by_key(clients).dom().finite(),
        distinct_keys(clients) ==> by_key(clients).dom().len() == clients.len(),
    decreases clients.len(),
{
    if clients.len() > 0 {
        let rest = clients.drop_last();
        let last = clients.last();
        lemma_by_key(rest);
        assert forall|key: Key| #[trigger] by_key(clients).contains_key(key) implies exists|i: int|
            0 <= i < clients.len() && (#[trigger] clients[i]).key() == key by {
            if key == last.key() {
                assert(clients[clients.len() - 1].key() == key);
            } else {
                assert(by_key(rest).contains_key(key));
                let i = choose|i: int| 0 <= i < rest.len() && (#[trigger] rest[i]).key() == key;
                assert(clients[i].key() == key);
            }
        }
        assert forall|key: Key|
            (exists|i: int| 0 <= i < clients.len() && (#[trigger] clients[i]).key() == key) implies #[trigger] by_key(
            clients,
        ).contains_key(key) by {
            let i = choose|i: int| 0 <= i < clients.len() && (#[trigger] clients[i]).key() == key;
            if i < rest.len() {
                assert(rest[i].key() == key);
                assert(by_key(rest).contains_key(key));
            }
        }
        assert forall|key: Key| #[trigger] by_key(clients).contains_key(key) implies by_key(clients)[key].key()
            == key by {
            if key != last.key() {
                assert(by_key(rest).contains_key(key));
            }
        }
        if distinct_keys(clients) {
            assert(distinct_keys(rest)) by {
                assert forall|i: int, j: int| 0 <= i < j < rest.len() implies (#[trigger] rest[i]).key() != (
                #[trigger] rest[j]).key() by {
                    assert(clients[i].key() != clients[j].key());
                }
            }
            assert forall|i: int| 0 <= i < clients.len() implies by_key(clients)[(#[trigger] clients[i]).key()]
                == clients[i] by {
                if i < rest.len() {
                    assert(rest[i] == clients[i]);
                    assert(clients[i].key() != clients[clients.len() - 1].key());
                }
            }
            assert(!by_key(rest).contains_key(last.key())) by {
                if by_key(rest).contains_key(last.key()) {
                    let i = choose|i: int| 0 <= i < rest.len() && (#[trigger] rest[i]).key() == last.key();
                    assert(clients[i].key() != clients[clients.len() - 1].key());
                }
            }
        }
    }
}

/// A map that holds each client of a list under its own key, and nothing else, is the
/// list's map.
proof fn lemma_is_by_key<S, T>(clients: Seq<ClientView<S, T>>, map: Map<Key, ClientView<S, T>>)
    requires
        distinct_keys(clients),
        forall|i: int|
            0 <= i < clients.len() ==> map.contains_key((#[trigger] clients[i]).key())
                && map[clients[i].key()] == clients[i],
        forall|key: Key| #[trigger]
            map.contains_key(key) ==> exists|i: int|
                0 <= i < clients.len() && (#[trigger] clients[i]).key() == key,
    ensures
        by_key(clients) == map,
{
    lemma_by_key(clients);
    assert forall|key: Key| by_key(clients).contains_key(key) implies map.contains_key(key)
        && by_key(clients)[key] == map[key] by {
        let i = choose|i: int| 0 <= i < clients.len() && (#[trigger] clients[i]).key() == key;
        assert(map.contains_key(clients[i].key()));
    }
    assert(by_key(clients) =~= map);
}

/// Changing one client of a list in place, its key kept, changes it in the map.
proof fn lemma_by_key_update<S, T>(clients: Seq<ClientView<S, T>>, i: int, client: ClientView<S, T>)
    requires
        distinct_keys(clients),
        0 <= i < clients.len(),
        client.key() == clients[i].key(),
    ensures
        distinct_keys(clients.update(i, client)),
        by_key(clients.update(i, client)) == by_key(clients).insert(client.key(), client),
{
    let changed = clients.update(i, client);
    let map = by_key(clients).insert(client.key(), client);
    assert forall|a: int, b: int| 0 <= a < b < changed.len() implies (#[trigger] changed[a]).key() != (
    #[trigger] changed[b]).key() by {
        assert(clients[a].key() != clients[b].key());
    }
    lemma_by_key(clients);
    assert forall|a: int| 0 <= a < changed.len() implies map.contains_key((#[trigger] changed[a]).key())
        && map[changed[a].key()] == changed[a] by {
        assert(by_key(clients).contains_key(clients[a].key()));
        if a != i {
            assert(changed[a].key() != changed[i].key());
        }
    }
    assert forall|key: Key| #[trigger] map.contains_key(key) implies exists|a: int|
        0 <= a < changed.len() && (#[trigger] changed[a]).key() == key by {
        if key == client.key() {
            assert(changed[i].key() == key);
        } else {
            let a = choose|a: int| 0 <= a < clients.len() && (#[trigger] clients[a]).key() == key;
            assert(changed[a].key() == key);
        }
    }
    lemma_is_by_key(changed, map);
}

/// A client with a key of its own, put at the end of a list, is added to the map.
proof fn lemma_by_key_push<S, T>(clients: Seq<ClientView<S, T>>, client: ClientView<S, T>)
    requires
        distinct_keys(clients),
        !by_key(clients).contains_key(client.key()),
    ensures
        distinct_keys(clients.push(client)),
        by_key(clients.push(client)) == by_key(clients).insert(client.key(), client),
{
    lemma_by_key(clients);
    let longer = clients.push(client);
    assert(longer.drop_last() =~= clients);
    assert forall|a: int, b: int| 0 <= a < b < longer.len() implies (#[trigger] longer[a]).key() != (
    #[trigger] longer[b]).key() by {
        assert(clients[a].key() == longer[a].key());
        if b < clients.len() {
            assert(clients[a].key() != clients[b].key());
        }
    }
}

/// Taking one client out of a list takes its key out of the map.
proof fn lemma_by_key_remove<S, T>(clients: Seq<ClientView<S, T>>, i: int)
    requires
        distinct_keys(clients),
        0 <= i < clients.len(),
    ensures
        distinct_keys(clients.remove(i)),
        by_key(clients.remove(i)) == by_key(clients).remove(clients[i].key()),
{
    let shorter = clients.remove(i);
    let map = by_key(clients).remove(clients[i].key());
    assert forall|a: int| 0 <= a < shorter.len() implies #[trigger] shorter[a] == clients[if a < i {
        a
    } else {
        a + 1
    }] by {}
    assert forall|a: int, b: int| 0 <= a < b < shorter.len() implies (#[trigger] shorter[a]).key() != (
    #[trigger] shorter[b]).key() by {
        let c = if a < i { a } else { a + 1 };
        let d = if b < i { b } else { b + 1 };
        assert(clients[c].key() != clients[d].key());
    }
    lemma_by_key(clients);
    assert forall|a: int| 0 <= a < shorter.len() implies map.contains_key((#[trigger] shorter[a]).key())
        && map[shorter[a].key()] == shorter[a] by {
        let c = if a < i { a } else { a + 1 };
        assert(by_key(clients).contains_key(clients[c].key()));
        assert(clients[c].key() != clients[i].key()) by {
            if c < i {
                assert(clients[c].key() != clients[i].key());
            } else {
                assert(clients[i].key() != clients[c].key());
            }
        }
    }
    assert forall|key: Key| #[trigger] map.contains_key(key) implies exists|a: int|
        0 <= a < shorter.len() && (#[trigger] shorter[a]).key() == key by {
        let c = choose|c: int| 0 <= c < clients.len() && (#[trigger] clients[c]).key() == key;
        let a = if c < i { c } else { c - 1 };
        assert(shorter[a].key() == key);
    }
    lemma_is_by_key(shorter, map);
}

/// Keeping the active clients of a list keeps the active clients of the map.
proof fn lemma_by_key_filter<S, T>(clients: Seq<ClientView<S, T>>, now: int)
    requires
        distinct_keys(clients),
    ensures
        distinct_keys(clients.filter(is_active(now))),
        by_key(clients.filter(is_active(now))) == swept(by_key(clients), now),
    decreases clients.len(),
{
    reveal(Seq::filter);
    let kept = clients.filter(is_active(now));
    lemma_by_key(clients);
    if clients.len() == 0 {
        assert(by_key(kept) =~= swept(by_key(clients), now));
    } else {
        let rest = clients.drop_last();
        let last = clients.last();
        assert(distinct_keys(rest)) by {
            assert forall|i: int, j: int| 0 <= i < j < rest.len() implies (#[trigger] rest[i]).key() != (
            #[trigger] rest[j]).key() by {
                assert(clients[i].key() != clients[j].key());
            }
        }
        lemma_by_key_filter(rest, now);
        lemma_by_key(rest);
        assert(!by_key(rest).contains_key(last.key())) by {
            if by_key(rest).contains_key(last.key()) {
                let i = choose|i: int| 0 <= i < rest.len() && (#[trigger] rest[i]).key() == last.key();
                assert(clients[i].key() != clients[clients.len() - 1].key());
            }
        }
        if active(last.last_heartbeat, now) {
            lemma_by_key_push(rest.filter(is_active(now)), last);
        }
        assert(by_key(kept) =~= swept(by_key(clients), now));
    }
}

/// The document of a list of clients comes back unchanged from its text.
proof fn lemma_listing_comes_back<S, T>(clients: Seq<ClientView<S, T>>)
    ensures
        comes_back(JsonTree::Arr(clients.map_values(client_tree()))),
{
    reveal_with_fuel(nested_within, 4);
    reveal_with_fuel(no_fractions, 4);
}

impl<S, T> Registry<S, T> {
    /// The clients in the order in which they are listed.
    pub closed spec fn listing(self) -> Seq<ClientView<S, T>> {
        self.clients@.map_values(|client: Client<S, T>| client@)
    }

    /// No two clients share a location and room, and none lacks one.
    pub closed spec fn wf(self) -> bool {
        distinct_keys(self.listing()) && named(self.listing())
    }

    /// A registry without clients.
    pub fn new() -> (registry: Self)
        ensures
            registry.wf(),
            registry@ == Map::<Key, ClientView<S, T>>::empty(),
    {
        Registry { clients: Vec::new() }
    }

    /// The position of the client of a location and room.
    fn find(&self, location: &str, room: &str) -> (found: Option<usize>)
        ensures
            match found {
                Some(i) => i < self.listing().len() && self.listing()[i as int].key() == (location@, room@),
                None => !self@.contains_key((location@, room@)),
            },
            found is Some ==> self@.contains_key((location@, room@)),
    {
        let mut i: usize = 0;
        proof {
            lemma_by_key(self.listing());
        }
        while i < self.clients.len()
            invariant
                i <= self.clients.len(),
                forall|j: int| 0 <= j < i ==> (#[trigger] self.listing()[j]).key() != (location@, room@),
            decreases self.clients.len() - i,
        {
            assert(self.listing()[i as int] == self.clients@[i as int]@);
            if same_text(self.clients[i].location.as_str(), location) && same_text(
                self.clients[i].room.as_str(),
                room,
            ) {
                proof {
                    lemma_by_key(self.listing());
                }
                return Some(i);
            }
            i += 1;
        }
        None
    }

    /// Takes note that the client of a location and room is there: it is reached over
    /// `session` and was heard of at `now`. One that was not there is added. Nothing is
    /// noted, and the answer is `false`, where the location or the room is empty.
    pub fn connect(&mut self, location: String, room: String, session: S, now: u128) -> (noted: bool)
        requires
            old(self).wf(),
        ensures
            final(self).wf(),
            final(self)@ == connected(old(self)@, location@, room@, session, now as int),
            noted == (location@.len() > 0 && room@.len() > 0),
    {
        if location.as_str().is_empty() || room.as_str().is_empty() {
            return false;
        }
        let ghost before = self.listing();
        match self.find(location.as_str(), room.as_str()) {
            Some(i) => {
                self.clients[i].last_heartbeat = now;
                self.clients[i].session = session;
                proof {
                    let client = self.clients@[i as int]@;
                    assert(self.listing() =~= before.update(i as int, client));
                    lemma_by_key(before);
                    lemma_by_key_update(before, i as int, client);
                }
            },
            None => {
                self.clients.push(
                    Client { location, room, last_heartbeat: now, session, response_sender: None },
                );
                proof {
                    let client = self.clients@.last()@;
                    assert(self.listing() =~= before.push(client));
                    lemma_by_key_push(before, client);
                }
            },
        }
        true
    }

    /// Makes `sender` the one through which the next answer of the client of a location
    /// and room goes, and drops the one that was there. Answers whether there is such a
    /// client.
    pub fn set_sender(&mut self, location: &str, room: &str, sender: T) -> (found: bool)
        requires
            old(self).wf(),
        ensures
            final(self).wf(),
            final(self)@ == with_sender(old(self)@, (location@, room@), Some(sender)),
            found == old(self)@.contains_key((location@, room@)),
    {
        let ghost before = self.listing();
        match self.find(location, room) {
            Some(i) => {
                self.clients[i].response_sender = Some(sender);
                proof {
                    let client = self.clients@[i as int]@;
                    assert(self.listing() =~= before.update(i as int, client));
                    lemma_by_key(before);
                    lemma_by_key_update(before, i as int, client);
                }
                true
            },
            None => false,
        }
    }

    /// Takes out the sender through which the answer of the client of a location and room
    /// goes.
    pub fn take_sender(&mut self, location: &str, room: &str) -> (sender: Option<T>)
        requires
            old(self).wf(),
        ensures
            final(self).wf(),
            final(self)@ == with_sender(old(self)@, (location@, room@), None),
            sender == waiting(old(self)@, (location@, room@)),
    {
        let ghost before = self.listing();
        match self.find(location, room) {
            Some(i) => {
                let sender = self.clients[i].response_sender.take();
                proof {
                    let client = self.clients@[i as int]@;
                    assert(self.listing() =~= before.update(i as int, client));
                    lemma_by_key(before);
                    lemma_by_key_update(before, i as int, client);
                }
                sender
            },
            None => None,
        }
    }

    /// Takes out the client of a location and room, and drops its sender.
    pub fn remove(&mut self, location: &str, room: &str)
        requires
            old(self).wf(),
        ensures
            final(self).wf(),
            final(self)@ == old(self)@.remove((location@, room@)),
    {
        let ghost before = self.listing();
        match self.find(location, room) {
            Some(i) => {
                let _gone = self.clients.remove(i);
                proof {
                    assert(self.listing() =~= before.remove(i as int));
                    lemma_by_key(before);
                    lemma_by_key_remove(before, i as int);
                }
            },
            None => {
                assert(self@ =~= old(self)@.remove((location@, room@)));
            },
        }
    }

    /// Takes out every client that has been silent for more than [`INACTIVE_AFTER`] at `now`.
    pub fn remove_inactive_clients(&mut self, now: u128) -> (sweep: Sweep)
        requires
            old(self).wf(),
        ensures
            final(self).wf(),
            final(self)@ == swept(old(self)@, now as int),
            final(self).listing() == old(self).listing().filter(is_active(now as int)),
            sweep.removed@.map_values(|removed: Removed| removed@) == old(self).listing().filter(
                is_inactive(now as int),
            ).map_values(removed_at(now as int)),
            sweep.before == old(self).listing().len(),
            sweep.after == final(self).listing().len(),
            sweep.removed@.len() == sweep.before - sweep.after,
    {
        let before: usize = self.clients.len();
        let mut removed: Vec<Removed> = Vec::new();
        let mut i: usize = 0;
        let ghost all = self.listing();
        let ghost mut seen: int = 0;
        proof {
            reveal(Seq::filter);
            assert(all.take(0) =~= Seq::empty());
            assert(all.skip(0) =~= all);
            assert(removed@.map_values(|removed: Removed| removed@) =~= all.take(0).filter(
                is_inactive(now as int),
            ).map_values(removed_at(now as int)));
        }
        while i < self.clients.len()
            invariant
                0 <= seen <= all.len(),
                i == all.take(seen).filter(is_active(now as int)).len(),
                i <= self.clients.len(),
                self.listing() == all.take(seen).filter(is_active(now as int)) + all.skip(seen),
                removed@.map_values(|removed: Removed| removed@) == all.take(seen).filter(
                    is_inactive(now as int),
                ).map_values(removed_at(now as int)),
                removed@.len() + i == seen,
            decreases self.clients.len() - i,
        {
            let ghost client = self.clients@[i as int]@;
            let ghost listed = self.listing();
            proof {
                assert(listed[i as int] == client);
                assert(client == all[seen]);
                assert(all.take(seen + 1) =~= all.take(seen).push(client));
                all.take(seen).lemma_filter_push(client, is_active(now as int));
                all.take(seen).lemma_filter_push(client, is_inactive(now as int));
            }
            let silent_for: u128 = now.saturating_sub(self.clients[i].last_heartbeat);
            if silent_for <= INACTIVE_AFTER {
                i += 1;
                assert(self.listing() =~= all.take(seen + 1).filter(is_active(now as int)) + all.skip(seen + 1));
            } else {
                let ghost reported = removed@.map_values(|removed: Removed| removed@);
                let gone = self.clients.remove(i);
                assert(gone@ == client);
                removed.push(Removed { location: gone.location, room: gone.room, silent_for });
                assert(self.listing() =~= listed.remove(i as int));
                assert(self.listing() =~= all.take(seen + 1).filter(is_active(now as int)) + all.skip(seen + 1));
                assert(removed@.map_values(|removed: Removed| removed@) =~= reported.push(
                    removed_at(now as int)(client),
                ));
                assert(removed@.map_values(|removed: Removed| removed@) =~= all.take(seen + 1).filter(
                    is_inactive(now as int),
                ).map_values(removed_at(now as int)));
            }
            proof {
                seen = seen + 1;
            }
        }
        proof {
            assert(all.take(seen) =~= all);
            assert(self.listing() =~= all.filter(is_active(now as int)));
            lemma_by_key_filter(all, now as int);
            assert forall|j: int| 0 <= j < self.listing().len() implies (#[trigger] self.listing()[j]).location.len()
                > 0 && self.listing()[j].room.len() > 0 by {
                all.lemma_filter_contains_rev(is_active(now as int), self.listing()[j]);
            }
        }
        Sweep { removed, before, after: self.clients.len() }
    }

    /// The answer to the question which clients are connected. Its body is read as that list.
    pub fn list_clients(&self) -> (reply: Reply)
        requires
            self.wf(),
        ensures
            reply@ == json_reply(200, JsonTree::Arr(self.listing().map_values(client_tree()))),
            json_parse(reply@.body) == Some(JsonTree::Arr(self.listing().map_values(client_tree()))),
    {
        let mut items: Vec<serde_json::Value> = Vec::new();
        let mut i: usize = 0;
        assert(json_trees(items@) =~= self.listing().take(0).map_values(client_tree()));
        while i < self.clients.len()
            invariant
                i <= self.clients.len(),
                json_trees(items@) == self.listing().take(i as int).map_values(client_tree()),
            decreases self.clients.len() - i,
        {
            let ghost before = json_trees(items@);
            let mut members = json_new_members();
            put_text(&mut members, "location", self.clients[i].location.as_str());
            put_text(&mut members, "room", self.clients[i].room.as_str());
            items.push(json_object(members));
            assert(self.listing()[i as int] == self.clients@[i as int]@);
            assert(json_trees(items@) =~= before.push(client_tree()(self.listing()[i as int])));
            assert(json_trees(items@) =~= self.listing().take(i + 1).map_values(client_tree()));
            i += 1;
        }
        assert(self.listing().take(i as int) =~= self.listing());
        proof {
            lemma_listing_comes_back(self.listing());
        }
        Reply::json(200, &json_array(items))
    }

    /// The session that reaches the client of a location and room.
    pub fn session(&self, location: &str, room: &str) -> (session: Option<&S>)
        requires
            self.wf(),
        ensures
            match session {
                Some(session) => self@.contains_key((location@, room@)) && *session == self@[(
                    location@,
                    room@,
                )].session,
                None => !self@.contains_key((location@, room@)),
            },
    {
        match self.find(location, room) {
            Some(i) => {
                proof {
                    lemma_by_key(self.listing());
                    assert(self.listing()[i as int] == self.clients@[i as int]@);
                }
                Some(&self.clients[i].session)
            },
            None => None,
        }
    }
}

/// Of a well-formed registry: each listed client is found under its own location and room,
/// neither of which is empty; no client is listed twice; and every client is listed.
pub proof fn law_listing<S, T>(registry: Registry<S, T>)
    requires
        registry.wf(),
    ensures
        distinct_keys(registry.listing()),
        named(registry.listing()),
        forall|i: int|
            0 <= i < registry.listing().len() ==> registry@.contains_key((#[trigger] registry.listing()[i]).key())
                && registry@[registry.listing()[i].key()] == registry.listing()[i],
        forall|key: Key| #[trigger]
            registry@.contains_key(key) ==> exists|i: int|
                0 <= i < registry.listing().len() && (#[trigger] registry.listing()[i]).key() == key,
        registry@.dom().finite(),
        registry@.dom().len() == registry.listing().len(),
{
    lemma_by_key(registry.listing());
    assert forall|i: int| 0 <= i < registry.listing().len() implies registry@.contains_key(
        (#[trigger] registry.listing()[i]).key(),
    ) by {}
}

/// Every client of a well-formed registry stands under its own location and room, neither of
/// which is empty.
pub proof fn law_clients_are_named<S, T>(registry: Registry<S, T>, key: Key)
    requires
        registry.wf(),
        registry@.contains_key(key),
    ensures
        registry@[key].key() == key,
        key.0.len() > 0,
        key.1.len() > 0,
{
    lemma_by_key(registry.listing());
    let i = choose|i: int| 0 <= i < registry.listing().len() && (#[trigger] registry.listing()[i]).key() == key;
    assert(registry.listing()[i].location.len() > 0);
}

/// A sweep takes out no client that gave a sign of life in the time allowed, and leaves none
/// that did not.
pub proof fn law_sweep_takes_out_the_silent<S, T>(clients: Map<Key, ClientView<S, T>>, now: int, key: Key)
    requires
        clients.contains_key(key),
    ensures
        swept(clients, now).contains_key(key) <==> now - clients[key].last_heartbeat <= INACTIVE_AFTER,
        swept(clients, now).contains_key(key) ==> swept(clients, now)[key] == clients[key],
        swept(clients, now).submap_of(clients),
{
}

/// A second sweep at the same time takes out nothing more, and one at a later time takes out
/// what two sweeps would.
pub proof fn law_sweep_twice<S, T>(clients: Map<Key, ClientView<S, T>>, now: int, later: int)
    requires
        now <= later,
    ensures
        swept(swept(clients, now), now) == swept(clients, now),
        swept(swept(clients, now), later) == swept(clients, later),
{
    assert(swept(swept(clients, now), now) =~= swept(clients, now));
    assert(swept(swept(clients, now), later) =~= swept(clients, later));
}

/// A client that gave a sign of life outlasts every sweep in the time allowed after it.
pub proof fn law_sign_of_life_outlasts_sweep<S, T>(
    clients: Map<Key, ClientView<S, T>>,
    location: Seq<char>,
    room: Seq<char>,
    session: S,
    now: int,
    later: int,
)
    requires
        location.len() > 0,
        room.len() > 0,
        later - now <= INACTIVE_AFTER,
    ensures
        swept(connected(clients, location, room, session, now), later).contains_key((location, room)),
{
}

/// A sign of life changes the client that gave it alone, and takes no request's sender from
/// any client.
pub proof fn law_sign_of_life_keeps_requests<S, T>(
    clients: Map<Key, ClientView<S, T>>,
    location: Seq<char>,
    room: Seq<char>,
    session: S,
    now: int,
    key: Key,
)
    ensures
        waiting(connected(clients, location, room, session, now), key) == waiting(clients, key),
        key != (location, room) ==> connected(clients, location, room, session, now).get(key) == clients.get(key),
{
}

/// Of two requests for the same client, the later one gets the answer: it is as if the
/// earlier one had not been.
pub proof fn law_later_request_takes_over<S, T>(
    clients: Map<Key, ClientView<S, T>>,
    key: Key,
    earlier: T,
    later: T,
)
    ensures
        with_sender(with_sender(clients, key, Some(earlier)), key, Some(later)) == with_sender(
            clients,
            key,
            Some(later),
        ),
        clients.contains_key(key) ==> waiting(with_sender(clients, key, Some(later)), key) == Some(later),
{
    assert(with_sender(with_sender(clients, key, Some(earlier)), key, Some(later)) =~= with_sender(
        clients,
        key,
        Some(later),
    ));
}

/// A request changes the client that it is for alone.
pub proof fn law_requests_do_not_cross<S, T>(
    clients: Map<Key, ClientView<S, T>>,
    key: Key,
    sender: Option<T>,
    other: Key,
)
    requires
        other != key,
    ensures
        with_sender(clients, key, sender).get(other) == clients.get(other),
        with_sender(clients, key, sender).dom() == clients.dom(),
{
    assert(with_sender(clients, key, sender).dom() =~= clients.dom());
}

impl<S, T> View for Registry<S, T> {
    type V = Map<Key, ClientView<S, T>>;

    closed spec fn view(&self) -> Map<Key, ClientView<S, T>> {
        by_key(self.listing())
    }
}

/// After a sign of life that gives a location and a room, the client of exactly these is there, with
/// the session that it was given over and the time that it was given at. A request that waited for
/// it still does, and none waits for one that was not there. No other client changes. A sign of life
/// without a location or without a room changes nothing.
pub proof fn law_sign_of_life<S, T>(
    clients: Map<Key, ClientView<S, T>>,
    location: Seq<char>,
    room: Seq<char>,
    session: S,
    now: int,
)
    ensures
        location.len() > 0 && room.len() > 0 ==> ({
            let after = connected(clients, location, room, session, now);
            &&& after.contains_key((location, room))
            &&& after[(location, room)].location == location
            &&& after[(location, room)].room == room
            &&& after[(location, room)].session == session
            &&& after[(location, room)].last_heartbeat == now
            &&& clients.contains_key((location, room)) ==> after[(location, room)].response_sender == clients[(
                location,
                room,
            )].response_sender
            &&& !clients.contains_key((location, room)) ==> after[(location, room)].response_sender is None
            &&& after.remove((location, room)) == clients.remove((location, room))
        }),
        location.len() == 0 || room.len() == 0 ==> connected(clients, location, room, session, now) == clients,
{
    let after = connected(clients, location, room, session, now);
    if location.len() > 0 && room.len() > 0 {
        assert(after.remove((location, room)) =~= clients.remove((location, room)));
    }
}

/// Setting or taking the sender of a client that is there changes that sender alone; of one that is
/// not there, nothing. The sender that waits is that of the client.
pub proof fn law_senders<S, T>(clients: Map<Key, ClientView<S, T>>, key: Key, sender: Option<T>)
    ensures
        clients.contains_key(key) ==> ({
            let after = with_sender(clients, key, sender);
            &&& after.contains_key(key)
            &&& after[key].response_sender == sender
            &&& after[key].location == clients[key].location
            &&& after[key].room == clients[key].room
            &&& after[key].session == clients[key].session
            &&& after[key].last_heartbeat == clients[key].last_heartbeat
            &&& after.remove(key) == clients.remove(key)
            &&& waiting(clients, key) == clients[key].response_sender
        }),
        !clients.contains_key(key) ==> with_sender(clients, key, sender) == clients && waiting(clients, key) is None,
{
    if clients.contains_key(key) {
        assert(with_sender(clients, key, sender).remove(key) =~= clients.remove(key));
    }
}

/// A client counts as there for one minute after its last sign of life, and not after that; the
/// clients are swept every five seconds.
pub proof fn law_one_minute<S, T>(clients: Map<Key, ClientView<S, T>>, client: ClientView<S, T>, now: int, key: Key)
    ensures
        swept(clients, now).contains_key(key) <==> clients.contains_key(key) && now - clients[key].last_heartbeat
            <= 60_000_000_000,
        swept(clients, now).contains_key(key) ==> swept(clients, now)[key] == clients[key],
        is_active(now)(client) <==> now - client.last_heartbeat <= 60_000_000_000,
        is_inactive(now)(client) <==> now - client.last_heartbeat > 60_000_000_000,
        SWEEP_EVERY_SECS == 5,
{
}

/// A client that is taken out for its silence is reported under its own location and room, with the
/// time since its last sign of life.
pub proof fn law_removed_clients_are_reported<S, T>(removed: Removed, client: ClientView<S, T>, now: int)
    requires
        removed@ == removed_at(now)(client),
        now >= client.last_heartbeat,
    ensures
        removed.location@ == client.location,
        removed.room@ == client.room,
        removed.silent_for == now - client.last_heartbeat,
{
}

/// Every client stands under the location and room that it serves, and is listed as a document with
/// exactly these two members.
pub proof fn law_clients_are_listed<S, T>(registry: Registry<S, T>, key: Key)
    requires
        registry.wf(),
        registry@.contains_key(key),
    ensures
        registry@[key].location == key.0,
        registry@[key].room == key.1,
        exists|i: int|
            0 <= i < registry.listing().len() && (#[trigger] registry.listing().map_values(client_tree())[i])
                == JsonTree::Obj(map!["location"@ => JsonTree::Str(key.0), "room"@ => JsonTree::Str(key.1)]),
        registry.listing().map_values(client_tree()).len() == registry@.dom().len(),
{
    law_listing(registry);
    law_clients_are_named(registry, key);
    let i = choose|i: int| 0 <= i < registry.listing().len() && (#[trigger] registry.listing()[i]).key() == key;
    let item = registry.listing().map_values(client_tree())[i];
    assert(registry.listing()[i].location == key.0 && registry.listing()[i].room == key.1);
    assert(item == JsonTree::Obj(map!["location"@ => JsonTree::Str(key.0), "room"@ => JsonTree::Str(key.1)]));
}

} // verus!
