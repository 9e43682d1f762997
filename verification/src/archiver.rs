//! The archive of what the laundry service publishes: which documents are fetched for a
//! location, and which files they go to.
use crate::files::{
    file_name, law_where_documents_are_kept, location_path, path_of_location, path_of_room, room_path,
};
use crate::json::{
    json_from_slice, json_member, json_parse, json_parse_bytes, json_pretty, json_to_string_pretty,
    json_tree, json_trees, no_fractions, readable, reads_as, text_at, tree_items, tree_member, tree_str, JsonTree,
};
use crate::rotation::{
    belongs, law_files_share_no_copy, law_store_is_local, law_store_leaves_other_files, stored, Directory,
};
use crate::text::{join2, texts};
use vstd::prelude::*;
use vstd::string::*;

verus! {

/// How long to wait before each document is fetched, in seconds.
pub const FETCH_DELAY_SECS: u64 = 1;

/// Where the document of a location is published.
pub open spec fn location_url(location: Seq<char>) -> Seq<char> {
    "https://lessive.foxomy.com/api/v1/location/"@ + location
}

/// Where the machines of a room are published.
pub open spec fn room_url(location: Seq<char>, room: Seq<char>) -> Seq<char> {
    location_url(location) + "/room/"@ + room + "/machines"@
}

/// Where the document of a location is published.
pub fn url_of_location(location: &str) -> (url: String)
    ensures
        url@ == location_url(location@),
{
    join2("https://lessive.foxomy.com/api/v1/location/", location)
}

/// Where the machines of a room are published.
pub fn url_of_room(location: &str, room: &str) -> (url: String)
    ensures
        url@ == room_url(location@, room@),
{
    url_of_location(location).concat("/room/").concat(room).concat("/machines")
}

/// A room whose machines are to be fetched: where they are published, and its name.
#[derive(Debug)]
pub struct RoomJob {
    pub url: String,
    pub room_id: String,
}

/// What a room to be fetched is.
pub struct RoomJobView {
    pub url: Seq<char>,
    pub room_id: Seq<char>,
}

impl View for RoomJob {
    type V = RoomJobView;

    open spec fn view(&self) -> RoomJobView {
        RoomJobView { url: self.url@, room_id: self.room_id@ }
    }
}

/// What is to be fetched for a room of a location's document: nothing where the room does
/// not name both itself and its location.
pub open spec fn room_job(room: JsonTree) -> Option<RoomJobView> {
    match (tree_str(tree_member(room, "roomId"@)), tree_str(tree_member(room, "locationId"@))) {
        (Some(room_id), Some(location_id)) => Some(
            RoomJobView { url: room_url(location_id, room_id), room_id },
        ),
        _ => None,
    }
}

/// What is to be fetched for rooms, in their order.
pub open spec fn jobs_for(rooms: Seq<JsonTree>) -> Seq<RoomJobView> {
    rooms.filter_map(|room: JsonTree| room_job(room))
}

/// What is to be fetched for the rooms of a location's document, in their order.
pub open spec fn room_jobs(location: JsonTree) -> Seq<RoomJobView> {
    match tree_items(tree_member(location, "rooms"@)) {
        Some(rooms) => jobs_for(rooms),
        None => Seq::empty(),
    }
}

/// What to do next for the archive.
#[derive(Debug)]
pub enum ArchiveStep {
    /// Keep a document in the file with this path, as [`crate::rotation::store_file`] says.
    Store { path: Vec<String>, text: String },
    /// Fetch the machines of a room.
    FetchRoom { room_id: String, url: String },
    /// Stop: the location is archived.
    Archived,
    /// Stop: the document of the location could not be fetched.
    NotFetched,
    /// Stop: a document could not be kept.
    Failed,
}

/// What there is to do next for the archive.
pub enum ArchiveStepView {
    Store { path: Seq<Seq<char>>, text: Seq<char> },
    FetchRoom(RoomJobView),
    Archived,
    NotFetched,
    Failed,
}

impl View for ArchiveStep {
    type V = ArchiveStepView;

    open spec fn view(&self) -> ArchiveStepView {
        match self {
            ArchiveStep::Store { path, text } => ArchiveStepView::Store { path: texts(path@), text: text@ },
            ArchiveStep::FetchRoom { room_id, url } => ArchiveStepView::FetchRoom(
                RoomJobView { url: url@, room_id: room_id@ },
            ),
            ArchiveStep::Archived => ArchiveStepView::Archived,
            ArchiveStep::NotFetched => ArchiveStepView::NotFetched,
            ArchiveStep::Failed => ArchiveStepView::Failed,
        }
    }
}

/// What to do next when these rooms are left.
pub open spec fn go_on(rooms: Seq<RoomJobView>) -> ArchiveStepView {
    if rooms.len() == 0 {
        ArchiveStepView::Archived
    } else {
        ArchiveStepView::FetchRoom(rooms[0])
    }
}

/// The document that was fetched, if there is one.
pub open spec fn fetched(body: Option<Seq<u8>>) -> Option<JsonTree> {
    match body {
        Some(bytes) => json_parse_bytes(bytes),
        None => None,
    }
}

/// The bytes that came, if any.
pub open spec fn opt_bytes(body: Option<Vec<u8>>) -> Option<Seq<u8>> {
    match body {
        Some(bytes) => Some(bytes@),
        None => None,
    }
}

/// What to do once the document of a location has come, or has not.
pub open spec fn after_location(location_id: Seq<char>, document: Option<JsonTree>) -> ArchiveStepView {
    match document {
        Some(tree) => ArchiveStepView::Store { path: location_path(location_id), text: json_pretty(tree) },
        None => ArchiveStepView::NotFetched,
    }
}

/// What to do once the machines of the first of `rooms` have come, or have not.
pub open spec fn after_room(
    location_id: Seq<char>,
    rooms: Seq<RoomJobView>,
    document: Option<JsonTree>,
) -> ArchiveStepView {
    if rooms.len() == 0 {
        go_on(rooms)
    } else {
        match document {
            Some(tree) => ArchiveStepView::Store {
                path: room_path(location_id, rooms[0].room_id),
                text: json_pretty(tree),
            },
            None => go_on(rooms.drop_first()),
        }
    }
}

/// The rooms that are left once the machines of the first of `rooms` have come, or have not.
pub open spec fn rooms_after(rooms: Seq<RoomJobView>) -> Seq<RoomJobView> {
    if rooms.len() == 0 {
        rooms
    } else {
        rooms.drop_first()
    }
}

/// Whether a text that is to be kept is read back as the document, where the document holds no
/// number but integers.
pub open spec fn reads_back(step: ArchiveStepView, document: Option<JsonTree>) -> bool {
    match step {
        ArchiveStepView::Store { text, .. } => document matches Some(tree) ==> no_fractions(tree) ==> json_parse(text)
            == Some(tree),
        _ => true,
    }
}

/// Whether a text that is to be kept is read back as the document, where the document comes back
/// unchanged at all.
pub open spec fn kept_reads_as(step: ArchiveStepView, document: Option<JsonTree>) -> bool {
    match step {
        ArchiveStepView::Store { text, .. } => document matches Some(tree) ==> reads_as(text, tree),
        _ => true,
    }
}

/// What a document holds, if there is one.
pub open spec fn opt_tree(document: Option<serde_json::Value>) -> Option<JsonTree> {
    match document {
        Some(value) => Some(json_tree(value)),
        None => None,
    }
}

/// A run of the archiver: the location, and the rooms that are left to be fetched.
pub struct Archiver {
    location_id: String,
    rooms: Vec<RoomJob>,
}

/// What a run of the archiver is.
pub struct ArchiverView {
    pub location_id: Seq<char>,
    pub rooms: Seq<RoomJobView>,
}

/// What the rooms to be fetched are.
pub open spec fn jobs_of(rooms: Seq<RoomJob>) -> Seq<RoomJobView> {
    rooms.map_values(|room: RoomJob| room@)
}

impl View for Archiver {
    type V = ArchiverView;

    closed spec fn view(&self) -> ArchiverView {
        ArchiverView { location_id: self.location_id@, rooms: jobs_of(self.rooms@) }
    }
}

/// What is to be fetched for a room.
fn job_of(room: &serde_json::Value) -> (job: Option<RoomJob>)
    ensures
        (match job {
            Some(job) => Some(job@),
            None => None,
        }) == room_job(json_tree(*room)),
{
    match (text_at(room, "roomId"), text_at(room, "locationId")) {
        (Some(room_id), Some(location_id)) => Some(
            RoomJob { url: url_of_room(location_id.as_str(), room_id.as_str()), room_id },
        ),
        _ => None,
    }
}

/// What is to be fetched for the rooms of a location's document, in their order.
pub fn jobs_in(location: &serde_json::Value) -> (jobs: Vec<RoomJob>)
    ensures
        jobs_of(jobs@) == room_jobs(json_tree(*location)),
{
    let mut jobs: Vec<RoomJob> = Vec::new();
    match json_member(location, "rooms").as_array() {
        Some(rooms) => {
            let ghost trees = json_trees(rooms@);
            let ghost pick = |room: JsonTree| room_job(room);
            let mut i: usize = 0;
            assert(trees.take(0) =~= Seq::empty());
            assert(trees.take(0).filter_map(pick) =~= Seq::empty());
            assert(jobs_of(jobs@) =~= trees.take(0).filter_map(pick));
            while i < rooms.len()
                invariant
                    i <= rooms.len(),
                    trees == json_trees(rooms@),
                    pick == (|room: JsonTree| room_job(room)),
                    jobs_of(jobs@) == trees.take(i as int).filter_map(pick),
                decreases rooms.len() - i,
            {
                let ghost before = jobs_of(jobs@);
                proof {
                    assert(trees[i as int] == json_tree(rooms@[i as int]));
                    trees.lemma_filter_map_take_succ(pick, i as int);
                }
                match job_of(&rooms[i]) {
                    Some(job) => {
                        jobs.push(job);
                        assert(jobs_of(jobs@) =~= before.push(job@));
                        assert(jobs_of(jobs@) =~= trees.take(i + 1).filter_map(pick));
                    },
                    None => {
                        assert(jobs_of(jobs@) =~= trees.take(i + 1).filter_map(pick));
                    },
                }
                i += 1;
            }
            assert(trees.take(i as int) =~= trees);
        },
        None => {
            assert(jobs_of(jobs@) =~= Seq::empty());
        },
    }
    jobs
}

/// The document that was fetched, if there is one.
fn document_of(body: Option<Vec<u8>>) -> (document: Option<serde_json::Value>)
    ensures
        opt_tree(document) == fetched(opt_bytes(body)),
        document matches Some(value) ==> readable(json_tree(value)),
{
    match body {
        Some(bytes) => match json_from_slice(bytes.as_slice()) {
            Ok(value) => Some(value),
            Err(_) => None,
        },
        None => None,
    }
}

impl Archiver {
    /// A run for a location.
    pub fn new(location_id: &str) -> (archiver: Archiver)
        ensures
            archiver@.location_id == location_id@,
            archiver@.rooms == Seq::<RoomJobView>::empty(),
    {
        let archiver = Archiver { location_id: location_id.to_owned(), rooms: Vec::new() };
        assert(archiver@.rooms =~= Seq::<RoomJobView>::empty());
        archiver
    }

    /// Where the document is published that is to be fetched first: that of the location.
    pub fn start(&self) -> (url: String)
        ensures
            url@ == location_url(self@.location_id),
    {
        url_of_location(self.location_id.as_str())
    }

    /// What to do next when no document has come.
    fn go_on(&self) -> (step: ArchiveStep)
        ensures
            step@ == go_on(self@.rooms),
    {
        if self.rooms.len() == 0 {
            ArchiveStep::Archived
        } else {
            assert(self@.rooms[0] == self.rooms@[0]@);
            ArchiveStep::FetchRoom { room_id: self.rooms[0].room_id.clone(), url: self.rooms[0].url.clone() }
        }
    }

    /// Goes on once the location's document has been read, or could not be.
    pub fn location_read(&mut self, document: Option<serde_json::Value>) -> (step: ArchiveStep)
        ensures
            step@ == after_location(old(self)@.location_id, opt_tree(document)),
            final(self)@.location_id == old(self)@.location_id,
            final(self)@.rooms == match opt_tree(document) {
                Some(tree) => room_jobs(tree),
                None => old(self)@.rooms,
            },
            kept_reads_as(step@, opt_tree(document)),
    {
        match document {
            Some(value) => {
                self.rooms = jobs_in(&value);
                ArchiveStep::Store {
                    path: path_of_location(self.location_id.as_str()),
                    text: json_to_string_pretty(&value),
                }
            },
            None => ArchiveStep::NotFetched,
        }
    }

    /// Goes on once a room's machines have been read, or could not be.
    pub fn room_read(&mut self, document: Option<serde_json::Value>) -> (step: ArchiveStep)
        ensures
            step@ == after_room(old(self)@.location_id, old(self)@.rooms, opt_tree(document)),
            final(self)@.location_id == old(self)@.location_id,
            final(self)@.rooms == rooms_after(old(self)@.rooms),
            kept_reads_as(step@, opt_tree(document)),
    {
        if self.rooms.len() == 0 {
            return self.go_on();
        }
        let room = self.rooms.remove(0);
        assert(room@ == old(self)@.rooms[0]);
        assert(self@.rooms =~= old(self)@.rooms.drop_first());
        match document {
            Some(value) => ArchiveStep::Store {
                path: path_of_room(self.location_id.as_str(), room.room_id.as_str()),
                text: json_to_string_pretty(&value),
            },
            None => self.go_on(),
        }
    }

    /// Goes on once the bytes of the location's document have come, or have not. The text
    /// that is to be kept is read back as the document, if the document holds no number but
    /// integers.
    pub fn location_fetched(&mut self, body: Option<Vec<u8>>) -> (step: ArchiveStep)
        ensures
            step@ == after_location(old(self)@.location_id, fetched(opt_bytes(body))),
            final(self)@.location_id == old(self)@.location_id,
            final(self)@.rooms == match fetched(opt_bytes(body)) {
                Some(tree) => room_jobs(tree),
                None => old(self)@.rooms,
            },
            reads_back(step@, fetched(opt_bytes(body))),
    {
        let document = document_of(body);
        self.location_read(document)
    }

    /// Goes on once the bytes of a room's machines have come, or have not. Of the text that is
    /// to be kept the same holds as for a location.
    pub fn room_fetched(&mut self, body: Option<Vec<u8>>) -> (step: ArchiveStep)
        ensures
            step@ == after_room(old(self)@.location_id, old(self)@.rooms, fetched(opt_bytes(body))),
            final(self)@.location_id == old(self)@.location_id,
            final(self)@.rooms == rooms_after(old(self)@.rooms),
            reads_back(step@, fetched(opt_bytes(body))),
    {
        let document = document_of(body);
        self.room_read(document)
    }

    /// Goes on once a document has been kept, or could not be.
    pub fn stored(&self, kept: bool) -> (step: ArchiveStep)
        ensures
            step@ == if kept {
                go_on(self@.rooms)
            } else {
                ArchiveStepView::Failed
            },
    {
        if kept {
            self.go_on()
        } else {
            ArchiveStep::Failed
        }
    }
}

/// Whatever comes of the machines of a room, as long as what came could be kept, the run goes
/// on with the room after it.
pub proof fn law_next_room_is_fetched(
    location_id: Seq<char>,
    rooms: Seq<RoomJobView>,
    document: Option<JsonTree>,
)
    requires
        rooms.len() > 0,
    ensures
        rooms_after(rooms) == rooms.drop_first(),
        match after_room(location_id, rooms, document) {
            // Once the document is kept, the run goes on with `go_on(rooms_after(rooms))`.
            ArchiveStepView::Store { path, text } => document is Some && path == room_path(
                location_id,
                rooms[0].room_id,
            ),
            step => document is None && step == go_on(rooms_after(rooms)),
        },
{
}

/// The steps of a run from `step` on, where `rooms` are left, all documents can be kept, and
/// `documents` are what comes of the rooms, in turn.
pub open spec fn run_from(
    location_id: Seq<char>,
    rooms: Seq<RoomJobView>,
    step: ArchiveStepView,
    documents: Seq<Option<JsonTree>>,
) -> Seq<ArchiveStepView>
    decreases
            documents.len(),
            if step is Store {
                1nat
            } else {
                0
            },
{
    seq![step] + match step {
        ArchiveStepView::FetchRoom(_) => if documents.len() > 0 {
            run_from(
                location_id,
                rooms_after(rooms),
                after_room(location_id, rooms, documents[0]),
                documents.drop_first(),
            )
        } else {
            Seq::empty()
        },
        ArchiveStepView::Store { .. } => run_from(location_id, rooms, go_on(rooms), documents),
        _ => Seq::empty(),
    }
}

/// What is done for one room: its machines are fetched, and kept if they came.
pub open spec fn room_steps(location_id: Seq<char>, room: RoomJobView, document: Option<JsonTree>) -> Seq<
    ArchiveStepView,
> {
    match document {
        Some(tree) => seq![
            ArchiveStepView::FetchRoom(room),
            ArchiveStepView::Store { path: room_path(location_id, room.room_id), text: json_pretty(tree) },
        ],
        None => seq![ArchiveStepView::FetchRoom(room)],
    }
}

/// What is done for rooms, one after the other.
pub open spec fn all_room_steps(
    location_id: Seq<char>,
    rooms: Seq<RoomJobView>,
    documents: Seq<Option<JsonTree>>,
) -> Seq<ArchiveStepView>
    decreases rooms.len(),
{
    if rooms.len() == 0 {
        Seq::empty()
    } else {
        room_steps(location_id, rooms[0], documents[0]) + all_room_steps(
            location_id,
            rooms.drop_first(),
            documents.drop_first(),
        )
    }
}

/// A run fetches the machines of every room, in turn and once each, keeps those that came, each in
/// the file of its room, and ends with the location archived. A room whose machines did not come
/// holds up no other.
pub proof fn law_every_room_is_archived(
    location_id: Seq<char>,
    rooms: Seq<RoomJobView>,
    documents: Seq<Option<JsonTree>>,
)
    requires
        documents.len() == rooms.len(),
    ensures
        run_from(location_id, rooms, go_on(rooms), documents) == all_room_steps(location_id, rooms, documents).push(
            ArchiveStepView::Archived,
        ),
    decreases rooms.len(),
{
    let ended = seq![ArchiveStepView::Archived];
    if rooms.len() == 0 {
        assert(run_from(location_id, rooms, go_on(rooms), documents) =~= ended);
        assert(all_room_steps(location_id, rooms, documents).push(ArchiveStepView::Archived) =~= ended);
    } else {
        let rest = rooms.drop_first();
        let others = documents.drop_first();
        law_every_room_is_archived(location_id, rest, others);
        let later = run_from(location_id, rest, go_on(rest), others);
        let next = after_room(location_id, rooms, documents[0]);
        assert(run_from(location_id, rooms, go_on(rooms), documents) == seq![go_on(rooms)] + run_from(
            location_id,
            rest,
            next,
            others,
        ));
        if documents[0] is Some {
            assert(run_from(location_id, rest, next, others) == seq![next] + later);
        }
        assert(run_from(location_id, rooms, go_on(rooms), documents) =~= room_steps(
            location_id,
            rooms[0],
            documents[0],
        ) + later);
        assert(all_room_steps(location_id, rooms, documents).push(ArchiveStepView::Archived) =~= room_steps(
            location_id,
            rooms[0],
            documents[0],
        ) + later);
    }
}

/// The directories of the archive, by the parts of their paths.
pub type Disk = Map<Seq<Seq<char>>, Directory>;

/// The files of a directory; none where there is no such directory.
pub open spec fn files_in(disk: Disk, path: Seq<Seq<char>>) -> Directory {
    if disk.contains_key(path) {
        disk[path]
    } else {
        Map::empty()
    }
}

/// The archive after a step: a document that is to be kept is kept in its file, what the file
/// held before becoming its newest copy. The other steps change nothing.
pub open spec fn disk_after(disk: Disk, step: ArchiveStepView) -> Disk {
    match step {
        ArchiveStepView::Store { path, text } => disk.insert(
            path.drop_last(),
            stored(files_in(disk, path.drop_last()), path.last(), text),
        ),
        _ => disk,
    }
}

/// The archive after steps, one after the other.
pub open spec fn disk_after_all(disk: Disk, steps: Seq<ArchiveStepView>) -> Disk
    decreases steps.len(),
{
    if steps.len() == 0 {
        disk
    } else {
        disk_after_all(disk_after(disk, steps[0]), steps.drop_first())
    }
}

/// The directory of the locations' documents.
pub open spec fn location_dir() -> Seq<Seq<char>> {
    seq!["location"@]
}

/// The directory of the documents of a location's rooms.
pub open spec fn room_dir(location_id: Seq<char>) -> Seq<Seq<char>> {
    seq!["room"@, location_id]
}

/// The steps of a run for a location whose document has come.
pub open spec fn run_of(location_id: Seq<char>, location: JsonTree, documents: Seq<Option<JsonTree>>) -> Seq<
    ArchiveStepView,
> {
    let rooms = room_jobs(location);
    seq![after_location(location_id, Some(location))] + run_from(location_id, rooms, go_on(rooms), documents)
}

/// A directory after the machines of a room have been kept in it, if they came.
pub open spec fn room_kept(dir: Directory, room: RoomJobView, document: Option<JsonTree>) -> Directory {
    match document {
        Some(tree) => stored(dir, file_name(room.room_id), json_pretty(tree)),
        None => dir,
    }
}

/// A directory after the machines of rooms have been kept in it, one room after the other.
spec fn rooms_kept(dir: Directory, rooms: Seq<RoomJobView>, documents: Seq<Option<JsonTree>>) -> Directory
    decreases rooms.len(),
{
    if rooms.len() == 0 {
        dir
    } else {
        rooms_kept(room_kept(dir, rooms[0], documents[0]), rooms.drop_first(), documents.drop_first())
    }
}

/// Whether no two rooms have the same name.
pub open spec fn distinct_rooms(rooms: Seq<RoomJobView>) -> bool {
    forall|i: int, j: int|
        0 <= i < j < rooms.len() ==> (#[trigger] rooms[i]).room_id != (#[trigger] rooms[j]).room_id
}

/// Whether a name is that of a room's file, or of one of its copies.
pub open spec fn is_of_room(room: RoomJobView, name: Seq<char>) -> bool {
    belongs(file_name(room.room_id), name)
}

/// Steps of two lists, one list after the other.
proof fn lemma_disk_after_two(disk: Disk, first: Seq<ArchiveStepView>, second: Seq<ArchiveStepView>)
    ensures
        disk_after_all(disk, first + second) == disk_after_all(disk_after_all(disk, first), second),
    decreases first.len(),
{
    if first.len() == 0 {
        assert(first + second =~= second);
    } else {
        assert((first + second).drop_first() =~= first.drop_first() + second);
        lemma_disk_after_two(disk_after(disk, first[0]), first.drop_first(), second);
    }
}

/// What is done for one room keeps its machines in the directory of the rooms, if they came.
proof fn lemma_room_on_disk(disk: Disk, location_id: Seq<char>, room: RoomJobView, document: Option<JsonTree>)
    ensures
        ({
            let after = disk_after_all(disk, room_steps(location_id, room, document));
            let dir = room_dir(location_id);
            &&& files_in(after, dir) == room_kept(files_in(disk, dir), room, document)
            &&& forall|other: Seq<Seq<char>>| other != dir ==> #[trigger] after.get(other) == disk.get(other)
        }),
{
    let steps = room_steps(location_id, room, document);
    let path = room_path(location_id, room.room_id);
    assert(path.drop_last() =~= room_dir(location_id));
    assert(path.last() == file_name(room.room_id));
    let rest = steps.drop_first();
    assert(disk_after_all(disk, steps) == disk_after_all(disk, rest));
    if document is Some {
        assert(rest.drop_first() =~= Seq::empty());
        assert(disk_after_all(disk, rest) == disk_after_all(disk_after(disk, rest[0]), rest.drop_first()));
    }
}

/// What is done for rooms keeps their machines in the directory of the rooms.
proof fn lemma_rooms_on_disk(
    disk: Disk,
    location_id: Seq<char>,
    rooms: Seq<RoomJobView>,
    documents: Seq<Option<JsonTree>>,
)
    requires
        documents.len() == rooms.len(),
    ensures
        ({
            let after = disk_after_all(disk, all_room_steps(location_id, rooms, documents));
            let dir = room_dir(location_id);
            &&& files_in(after, dir) == rooms_kept(files_in(disk, dir), rooms, documents)
            &&& forall|other: Seq<Seq<char>>| other != dir ==> #[trigger] after.get(other) == disk.get(other)
        }),
    decreases rooms.len(),
{
    if rooms.len() > 0 {
        let first = room_steps(location_id, rooms[0], documents[0]);
        let next = disk_after_all(disk, first);
        let rest = all_room_steps(location_id, rooms.drop_first(), documents.drop_first());
        lemma_room_on_disk(disk, location_id, rooms[0], documents[0]);
        lemma_disk_after_two(disk, first, rest);
        lemma_rooms_on_disk(next, location_id, rooms.drop_first(), documents.drop_first());
        let after = disk_after_all(next, rest);
        assert forall|other: Seq<Seq<char>>| other != room_dir(location_id) implies #[trigger] after.get(other)
            == disk.get(other) by {
            assert(after.get(other) == next.get(other));
        }
    }
}

/// Where no two rooms have the same name, the file of each room and its copies are as if the room
/// had been the only one, and all other files are untouched.
proof fn lemma_rooms_kept(dir: Directory, rooms: Seq<RoomJobView>, documents: Seq<Option<JsonTree>>)
    requires
        documents.len() == rooms.len(),
        distinct_rooms(rooms),
    ensures
        forall|i: int, name: Seq<char>|
            0 <= i < rooms.len() && #[trigger] is_of_room(rooms[i], name) ==> rooms_kept(dir, rooms, documents).get(
                name,
            ) == room_kept(dir, rooms[i], documents[i]).get(name),
        forall|name: Seq<char>|
            (forall|i: int| 0 <= i < rooms.len() ==> !#[trigger] is_of_room(rooms[i], name))
                ==> #[trigger] rooms_kept(dir, rooms, documents).get(name) == dir.get(name),
    decreases rooms.len(),
{
    if rooms.len() > 0 {
        let next = room_kept(dir, rooms[0], documents[0]);
        let rest = rooms.drop_first();
        let others = documents.drop_first();
        let after = rooms_kept(next, rest, others);
        assert(distinct_rooms(rest)) by {
            assert forall|i: int, j: int| 0 <= i < j < rest.len() implies (#[trigger] rest[i]).room_id != (
            #[trigger] rest[j]).room_id by {
                assert(rooms[i + 1].room_id != rooms[j + 1].room_id);
            }
        }
        lemma_rooms_kept(next, rest, others);
        assert forall|i: int, name: Seq<char>| 0 <= i < rooms.len() && #[trigger] is_of_room(
            rooms[i],
            name,
        ) implies after.get(name) == room_kept(dir, rooms[i], documents[i]).get(name) by {
            if i == 0 {
                assert forall|j: int| 0 <= j < rest.len() implies !#[trigger] is_of_room(rest[j], name) by {
                    if is_of_room(rest[j], name) {
                        assert(rest[j] == rooms[j + 1]);
                        law_files_share_no_copy(rooms[0].room_id, rooms[j + 1].room_id, name);
                        assert(rooms[0].room_id != rooms[j + 1].room_id);
                    }
                }
            } else {
                assert(rest[i - 1] == rooms[i]);
                assert(is_of_room(rest[i - 1], name));
                lemma_room_kept_alone(dir, rooms, documents, i, name);
            }
        }
        assert forall|name: Seq<char>|
            (forall|i: int| 0 <= i < rooms.len() ==> !#[trigger] is_of_room(rooms[i], name)) implies #[trigger] after.get(
            name,
        ) == dir.get(name) by {
            assert(!is_of_room(rooms[0], name));
            assert forall|j: int| 0 <= j < rest.len() implies !#[trigger] is_of_room(rest[j], name) by {
                assert(!is_of_room(rooms[j + 1], name));
            }
            if let Some(tree) = documents[0] {
                law_store_leaves_other_files(dir, file_name(rooms[0].room_id), json_pretty(tree), name);
            }
        }
    }
}

/// What is kept for a room does not depend on what was kept for the first room.
proof fn lemma_room_kept_alone(
    dir: Directory,
    rooms: Seq<RoomJobView>,
    documents: Seq<Option<JsonTree>>,
    i: int,
    name: Seq<char>,
)
    requires
        documents.len() == rooms.len(),
        distinct_rooms(rooms),
        0 < i < rooms.len(),
        is_of_room(rooms[i], name),
    ensures
        room_kept(room_kept(dir, rooms[0], documents[0]), rooms[i], documents[i]).get(name) == room_kept(
            dir,
            rooms[i],
            documents[i],
        ).get(name),
{
    let next = room_kept(dir, rooms[0], documents[0]);
    let base = file_name(rooms[i].room_id);
    assert forall|own: Seq<char>| #[trigger] belongs(base, own) implies next.get(own) == dir.get(own) by {
        if belongs(file_name(rooms[0].room_id), own) {
            law_files_share_no_copy(rooms[0].room_id, rooms[i].room_id, own);
            assert(rooms[0].room_id != rooms[i].room_id);
        }
        if let Some(tree) = documents[0] {
            law_store_leaves_other_files(dir, file_name(rooms[0].room_id), json_pretty(tree), own);
        }
    }
    if let Some(tree) = documents[i] {
        law_store_is_local(next, dir, base, json_pretty(tree), name);
    }
}

/// What a run leaves on disk, for a location whose document has come and names no room twice,
/// where all documents can be kept and `documents` are what comes of the rooms: the location's
/// document is in its file, and the machines of each room that came are in the file of the room,
/// what these files held before being their newest copies. A room whose machines did not come
/// keeps its file and copies as they were, and so do all other files and directories. Names of
/// locations and rooms are taken to hold no path separator.
pub proof fn law_run_on_disk(
    disk: Disk,
    location_id: Seq<char>,
    location: JsonTree,
    documents: Seq<Option<JsonTree>>,
)
    requires
        documents.len() == room_jobs(location).len(),
        distinct_rooms(room_jobs(location)),
    ensures
        ({
            let rooms = room_jobs(location);
            let after = disk_after_all(disk, run_of(location_id, location, documents));
            let before = files_in(disk, room_dir(location_id));
            let kept = files_in(after, room_dir(location_id));
            &&& files_in(after, location_dir()) == stored(
                files_in(disk, location_dir()),
                file_name(location_id),
                json_pretty(location),
            )
            &&& forall|i: int, name: Seq<char>|
                0 <= i < rooms.len() && #[trigger] is_of_room(rooms[i], name) ==> kept.get(name) == room_kept(
                    before,
                    rooms[i],
                    documents[i],
                ).get(name)
            &&& forall|name: Seq<char>|
                (forall|i: int| 0 <= i < rooms.len() ==> !#[trigger] is_of_room(rooms[i], name)) ==> #[trigger] kept.get(
                    name,
                ) == before.get(name)
            &&& forall|other: Seq<Seq<char>>|
                other != location_dir() && other != room_dir(location_id) ==> #[trigger] after.get(other) == disk.get(
                    other,
                )
        }),
{
    let rooms = room_jobs(location);
    let start = after_location(location_id, Some(location));
    let path = location_path(location_id);
    let later = run_from(location_id, rooms, go_on(rooms), documents);
    let steps = all_room_steps(location_id, rooms, documents);
    let ended = seq![ArchiveStepView::Archived];
    let first = disk_after(disk, start);
    let middle = disk_after_all(first, steps);
    let after = disk_after_all(disk, run_of(location_id, location, documents));
    assert(path.drop_last() =~= location_dir());
    assert(path.last() == file_name(location_id));
    assert(location_dir().len() != room_dir(location_id).len());
    assert((seq![start] + later).drop_first() =~= later);
    law_every_room_is_archived(location_id, rooms, documents);
    assert(later =~= steps + ended);
    lemma_disk_after_two(first, steps, ended);
    assert(ended.drop_first() =~= Seq::empty());
    assert(disk_after_all(middle, ended) == disk_after_all(disk_after(middle, ended[0]), ended.drop_first()));
    assert(after == middle);
    lemma_rooms_on_disk(first, location_id, rooms, documents);
    lemma_rooms_kept(files_in(disk, room_dir(location_id)), rooms, documents);
    assert(first.get(room_dir(location_id)) == disk.get(room_dir(location_id)));
    assert(after.get(location_dir()) == first.get(location_dir()));
    assert forall|other: Seq<Seq<char>>| other != location_dir() && other != room_dir(
        location_id,
    ) implies #[trigger] after.get(other) == disk.get(other) by {
        assert(after.get(other) == first.get(other));
    }
}

/// Each room of a location's document that names itself and its location is fetched, and
/// nothing else is.
pub proof fn law_rooms_to_fetch(rooms: Seq<JsonTree>, i: int)
    requires
        0 <= i < rooms.len(),
    ensures
        room_job(rooms[i]) matches Some(job) ==> jobs_for(rooms).contains(job),
        forall|job: RoomJobView| #[trigger]
            jobs_for(rooms).contains(job) ==> exists|j: int|
                0 <= j < rooms.len() && room_job(#[trigger] rooms[j]) == Some(job),
    decreases rooms.len(),
{
    let rest = rooms.drop_last();
    let jobs = jobs_for(rooms);
    let last = rooms.len() - 1;
    if rest.len() > 0 {
        law_rooms_to_fetch(rest, if i < rest.len() { i } else { 0 });
    }
    if let Some(job) = room_job(rooms[i]) {
        if i < rest.len() {
            let k = choose|k: int| 0 <= k < jobs_for(rest).len() && jobs_for(rest)[k] == job;
            assert(jobs[k] == job);
        } else {
            assert(jobs[jobs.len() - 1] == job);
        }
    }
    assert forall|job: RoomJobView| #[trigger] jobs.contains(job) implies exists|j: int|
        0 <= j < rooms.len() && room_job(#[trigger] rooms[j]) == Some(job) by {
        let k = choose|k: int| 0 <= k < jobs.len() && jobs[k] == job;
        if k < jobs_for(rest).len() {
            assert(jobs_for(rest)[k] == job);
            assert(jobs_for(rest).contains(job));
            let j = choose|j: int| 0 <= j < rest.len() && room_job(#[trigger] rest[j]) == Some(job);
            assert(room_job(rooms[j]) == Some(job));
        } else {
            assert(room_job(rooms[last]) == Some(job));
        }
    }
}

/// The rooms of a list for which something is to be fetched are those that `named` picks, in their
/// order, where `named` picks the objects with a string under `roomId` and under `locationId`.
proof fn lemma_jobs_of_named_rooms(rooms: Seq<JsonTree>, named: spec_fn(JsonTree) -> bool)
    requires
        forall|room: JsonTree| #[trigger]
            named(room) <==> (room matches JsonTree::Obj(members) && members.contains_key("roomId"@)
                && members["roomId"@] is Str && members.contains_key("locationId"@) && members["locationId"@] is Str),
    ensures
        jobs_for(rooms).len() == rooms.filter(named).len(),
        forall|j: int|
            0 <= j < jobs_for(rooms).len() ==> Some(#[trigger] jobs_for(rooms)[j]) == room_job(rooms.filter(named)[j]),
    decreases rooms.len(),
{
    reveal(Seq::filter);
    if rooms.len() > 0 {
        let rest = rooms.drop_last();
        lemma_jobs_of_named_rooms(rest, named);
        assert(named(rooms.last()) <==> room_job(rooms.last()) is Some);
        assert forall|j: int| 0 <= j < jobs_for(rooms).len() implies Some(#[trigger] jobs_for(rooms)[j]) == room_job(
            rooms.filter(named)[j],
        ) by {
            if j < jobs_for(rest).len() {
                assert(jobs_for(rooms)[j] == jobs_for(rest)[j]);
            }
        }
    }
}

/// Of the whole array under `rooms` of a location's document, each object with a string under
/// `roomId` and one under `locationId` gives one job, in their order: it has that room id, and the
/// address that is built from the two strings. Nothing else gives one.
pub proof fn law_every_room_of_the_document_is_fetched(
    members: Map<Seq<char>, JsonTree>,
    rooms: Seq<JsonTree>,
    jobs: Seq<RoomJob>,
)
    requires
        members.contains_key("rooms"@),
        members["rooms"@] == JsonTree::Arr(rooms),
        jobs_of(jobs) == room_jobs(JsonTree::Obj(members)),
    ensures
        ({
            let named = |room: JsonTree|
                room matches JsonTree::Obj(of_room) && of_room.contains_key("roomId"@) && of_room["roomId"@] is Str
                    && of_room.contains_key("locationId"@) && of_room["locationId"@] is Str;
            &&& jobs.len() == rooms.filter(named).len()
            &&& forall|j: int|
                0 <= j < jobs.len() ==> {
                    let of_room = (#[trigger] rooms.filter(named)[j])->Obj_0;
                    &&& of_room["roomId"@] == JsonTree::Str(jobs[j].room_id@)
                    &&& jobs[j].url@ == "https://lessive.foxomy.com/api/v1/location/"@ + of_room["locationId"@]->Str_0
                        + "/room/"@ + jobs[j].room_id@ + "/machines"@
                }
        }),
        forall|i: int|
            0 <= i < rooms.len() && (#[trigger] rooms[i] matches JsonTree::Obj(of_room) && of_room.contains_key(
                "roomId"@,
            ) && of_room["roomId"@] is Str && of_room.contains_key("locationId"@) && of_room["locationId"@] is Str)
                ==> exists|j: int|
                0 <= j < jobs.len() && (#[trigger] jobs[j]).room_id@ == rooms[i]->Obj_0["roomId"@]->Str_0
                    && jobs[j].url@ == "https://lessive.foxomy.com/api/v1/location/"@
                    + rooms[i]->Obj_0["locationId"@]->Str_0 + "/room/"@ + jobs[j].room_id@ + "/machines"@,
{
    let named = |room: JsonTree|
        room matches JsonTree::Obj(of_room) && of_room.contains_key("roomId"@) && of_room["roomId"@] is Str
            && of_room.contains_key("locationId"@) && of_room["locationId"@] is Str;
    let picked = rooms.filter(named);
    lemma_jobs_of_named_rooms(rooms, named);
    assert(jobs_of(jobs).len() == jobs.len());
    assert forall|j: int| 0 <= j < jobs.len() implies {
        let of_room = (#[trigger] picked[j])->Obj_0;
        &&& of_room["roomId"@] == JsonTree::Str(jobs[j].room_id@)
        &&& jobs[j].url@ == "https://lessive.foxomy.com/api/v1/location/"@ + of_room["locationId"@]->Str_0 + "/room/"@
            + jobs[j].room_id@ + "/machines"@
    } by {
        rooms.lemma_filter_contains_rev(named, picked[j]);
        lemma_picked(rooms, named, j);
        assert(jobs_of(jobs)[j] == jobs[j]@);
        assert(Some(jobs_for(rooms)[j]) == room_job(picked[j]));
    }
    assert forall|i: int|
        0 <= i < rooms.len() && (#[trigger] rooms[i] matches JsonTree::Obj(of_room) && of_room.contains_key("roomId"@)
            && of_room["roomId"@] is Str && of_room.contains_key("locationId"@) && of_room["locationId"@]
            is Str) implies exists|j: int|
        0 <= j < jobs.len() && (#[trigger] jobs[j]).room_id@ == rooms[i]->Obj_0["roomId"@]->Str_0 && jobs[j].url@
            == "https://lessive.foxomy.com/api/v1/location/"@ + rooms[i]->Obj_0["locationId"@]->Str_0 + "/room/"@
            + jobs[j].room_id@ + "/machines"@ by {
        assert(named(rooms[i]));
        rooms.lemma_filter_contains(named, i);
        let j = choose|j: int| 0 <= j < picked.len() && picked[j] == rooms[i];
        assert(picked[j]->Obj_0["roomId"@] == JsonTree::Str(jobs[j].room_id@));
    }
}

/// What is picked from rooms was to be picked.
proof fn lemma_picked(rooms: Seq<JsonTree>, named: spec_fn(JsonTree) -> bool, j: int)
    requires
        0 <= j < rooms.filter(named).len(),
    ensures
        named(rooms.filter(named)[j]),
    decreases rooms.len(),
{
    reveal(Seq::filter);
    if rooms.len() > 0 {
        let rest = rooms.drop_last();
        if j < rest.filter(named).len() {
            lemma_picked(rest, named, j);
        }
    }
}

/// A location's document without an array under `rooms` gives no jobs.
pub proof fn law_no_rooms_no_jobs(location: JsonTree, jobs: Seq<RoomJob>)
    requires
        jobs_of(jobs) == room_jobs(location),
        location matches JsonTree::Obj(members) ==> (members.contains_key("rooms"@) ==> members["rooms"@] !is Arr),
    ensures
        jobs.len() == 0,
{
    assert(jobs_of(jobs).len() == jobs.len());
}

/// What is done once the location's document has come: it is kept, indented, in
/// `location/<location>.json`; where it has not come, the run ends. A document has come where the
/// bytes that came are one. One second passes before each document is fetched.
pub proof fn law_location_document_is_kept(location_id: Seq<char>, body: Option<Vec<u8>>, step: ArchiveStep)
    requires
        step@ == after_location(location_id, fetched(opt_bytes(body))),
    ensures
        body matches Some(bytes) ==> (json_parse_bytes(bytes@) matches Some(tree) ==> {
            &&& step matches ArchiveStep::Store { path, text }
            &&& path@.len() == 2
            &&& path@[0]@ == "location"@
            &&& path@[1]@ == location_id + ".json"@
            &&& text@ == json_pretty(tree)
        }),
        body is None || json_parse_bytes(body->0@) is None ==> step is NotFetched,
        location_url(location_id) == "https://lessive.foxomy.com/api/v1/location/"@ + location_id,
        FETCH_DELAY_SECS == 1,
{
    if let ArchiveStep::Store { path, text } = step {
        law_where_documents_are_kept(path@, location_id, location_id);
    }
}

/// What is done once the machines of a room have come: they are kept, indented, in
/// `room/<location>/<room>.json`. Where they have not come, the run goes on with the next room, and
/// ends with the location archived where there is none. Either way the rooms after that one are
/// left.
pub proof fn law_room_document_is_kept(
    location_id: Seq<char>,
    rooms: Seq<RoomJobView>,
    body: Option<Vec<u8>>,
    step: ArchiveStep,
)
    requires
        rooms.len() > 0,
        step@ == after_room(location_id, rooms, fetched(opt_bytes(body))),
    ensures
        body matches Some(bytes) ==> (json_parse_bytes(bytes@) matches Some(tree) ==> {
            &&& step matches ArchiveStep::Store { path, text }
            &&& path@.len() == 3
            &&& path@[0]@ == "room"@
            &&& path@[1]@ == location_id
            &&& path@[2]@ == rooms[0].room_id + ".json"@
            &&& text@ == json_pretty(tree)
        }),
        body is None || json_parse_bytes(body->0@) is None ==> {
            &&& rooms.len() == 1 ==> step is Archived
            &&& rooms.len() > 1 ==> (step matches ArchiveStep::FetchRoom { room_id, url } && room_id@
                == rooms[1].room_id && url@ == rooms[1].url)
        },
        rooms_after(rooms) == rooms.drop_first(),
{
    if let ArchiveStep::Store { path, text } = step {
        law_where_documents_are_kept(path@, location_id, rooms[0].room_id);
    }
}

/// What is done once a document is kept: the first room that is left is fetched, and where none is
/// left, the location is archived.
pub proof fn law_first_room_left_is_fetched(rooms: Seq<RoomJobView>, step: ArchiveStep)
    requires
        step@ == go_on(rooms),
    ensures
        rooms.len() == 0 ==> step is Archived,
        rooms.len() > 0 ==> (step matches ArchiveStep::FetchRoom { room_id, url } && room_id@ == rooms[0].room_id
            && url@ == rooms[0].url),
{
}

/// The steps for rooms fetch each of them, keep the machines that came in the file of their room,
/// and keep nothing else.
proof fn lemma_steps_for_rooms(location_id: Seq<char>, rooms: Seq<RoomJobView>, documents: Seq<Option<JsonTree>>)
    requires
        documents.len() == rooms.len(),
    ensures
        forall|i: int|
            0 <= i < rooms.len() ==> all_room_steps(location_id, rooms, documents).contains(
                ArchiveStepView::FetchRoom(#[trigger] rooms[i]),
            ),
        forall|i: int|
            0 <= i < rooms.len() && (#[trigger] documents[i]) is Some ==> all_room_steps(
                location_id,
                rooms,
                documents,
            ).contains(
                ArchiveStepView::Store {
                    path: seq!["room"@, location_id, rooms[i].room_id + ".json"@],
                    text: json_pretty(documents[i]->0),
                },
            ),
        forall|k: int|
            0 <= k < all_room_steps(location_id, rooms, documents).len() ==> ((#[trigger] all_room_steps(
                location_id,
                rooms,
                documents,
            )[k]) matches ArchiveStepView::Store { path, text } ==> exists|i: int|
                0 <= i < rooms.len() && (#[trigger] documents[i]) is Some && path == seq![
                    "room"@,
                    location_id,
                    rooms[i].room_id + ".json"@,
                ] && text == json_pretty(documents[i]->0)),
    decreases rooms.len(),
{
    if rooms.len() > 0 {
        let rest = rooms.drop_first();
        let others = documents.drop_first();
        let first = room_steps(location_id, rooms[0], documents[0]);
        let later = all_room_steps(location_id, rest, others);
        let steps = all_room_steps(location_id, rooms, documents);
        lemma_steps_for_rooms(location_id, rest, others);
        assert forall|i: int| 0 <= i < rooms.len() implies steps.contains(
            ArchiveStepView::FetchRoom(#[trigger] rooms[i]),
        ) by {
            if i == 0 {
                assert(steps[0] == ArchiveStepView::FetchRoom(rooms[0]));
            } else {
                assert(rest[i - 1] == rooms[i]);
                let k = choose|k: int|
                    0 <= k < later.len() && later[k] == ArchiveStepView::FetchRoom(rest[i - 1]);
                assert(steps[first.len() + k] == later[k]);
            }
        }
        assert forall|i: int| 0 <= i < rooms.len() && (#[trigger] documents[i]) is Some implies steps.contains(
            ArchiveStepView::Store {
                path: seq!["room"@, location_id, rooms[i].room_id + ".json"@],
                text: json_pretty(documents[i]->0),
            },
        ) by {
            let store = ArchiveStepView::Store {
                path: seq!["room"@, location_id, rooms[i].room_id + ".json"@],
                text: json_pretty(documents[i]->0),
            };
            if i == 0 {
                assert(steps[1] == store);
            } else {
                assert(others[i - 1] == documents[i]);
                let k = choose|k: int| 0 <= k < later.len() && later[k] == store;
                assert(steps[first.len() + k] == later[k]);
            }
        }
        assert forall|k: int| 0 <= k < steps.len() implies ((#[trigger] steps[k]) matches ArchiveStepView::Store {
            path,
            text,
        } ==> exists|i: int|
            0 <= i < rooms.len() && (#[trigger] documents[i]) is Some && path == seq![
                "room"@,
                location_id,
                rooms[i].room_id + ".json"@,
            ] && text == json_pretty(documents[i]->0)) by {
            if let ArchiveStepView::Store { path, text } = steps[k] {
                if k < first.len() {
                    assert(documents[0] is Some);
                } else {
                    assert(later[k - first.len()] == steps[k]);
                    let i = choose|i: int|
                        0 <= i < rest.len() && (#[trigger] others[i]) is Some && path == seq![
                            "room"@,
                            location_id,
                            rest[i].room_id + ".json"@,
                        ] && text == json_pretty(others[i]->0);
                    assert(documents[i + 1] == others[i]);
                    assert(rooms[i + 1] == rest[i]);
                }
            }
        }
    }
}

/// A run fetches every room, keeps the machines of every room that came in
/// `room/<location>/<room>.json`, keeps nothing else, and ends with the location archived.
pub proof fn law_run_keeps_every_room(
    location_id: Seq<char>,
    rooms: Seq<RoomJobView>,
    documents: Seq<Option<JsonTree>>,
)
    requires
        documents.len() == rooms.len(),
    ensures
        ({
            let run = run_from(location_id, rooms, go_on(rooms), documents);
            &&& run.len() > 0 && run.last() == ArchiveStepView::Archived
            &&& forall|i: int| 0 <= i < rooms.len() ==> run.contains(ArchiveStepView::FetchRoom(#[trigger] rooms[i]))
            &&& forall|i: int|
                0 <= i < rooms.len() && (#[trigger] documents[i]) is Some ==> run.contains(
                    ArchiveStepView::Store {
                        path: seq!["room"@, location_id, rooms[i].room_id + ".json"@],
                        text: json_pretty(documents[i]->0),
                    },
                )
            &&& forall|k: int|
                0 <= k < run.len() ==> ((#[trigger] run[k]) matches ArchiveStepView::Store { path, text } ==> exists|
                    i: int,
                |
                    0 <= i < rooms.len() && (#[trigger] documents[i]) is Some && path == seq![
                        "room"@,
                        location_id,
                        rooms[i].room_id + ".json"@,
                    ] && text == json_pretty(documents[i]->0))
        }),
{
    let run = run_from(location_id, rooms, go_on(rooms), documents);
    let steps = all_room_steps(location_id, rooms, documents);
    law_every_room_is_archived(location_id, rooms, documents);
    lemma_steps_for_rooms(location_id, rooms, documents);
    assert forall|step: ArchiveStepView| #[trigger] steps.contains(step) implies run.contains(step) by {
        let k = choose|k: int| 0 <= k < steps.len() && steps[k] == step;
        assert(run[k] == step);
    }
    assert forall|k: int| 0 <= k < steps.len() implies run[k] == #[trigger] steps[k] by {}
    assert forall|k: int| 0 <= k < run.len() implies ((#[trigger] run[k]) matches ArchiveStepView::Store {
        path,
        text,
    } ==> exists|i: int|
        0 <= i < rooms.len() && (#[trigger] documents[i]) is Some && path == seq![
            "room"@,
            location_id,
            rooms[i].room_id + ".json"@,
        ] && text == json_pretty(documents[i]->0)) by {
        if k < steps.len() {
            assert(run[k] == steps[k]);
        }
    }
}

} // verus!
