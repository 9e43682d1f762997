//! The files that the documents of locations and rooms are kept in, and what is answered out
//! of them.
use crate::reply::{text_reply, Content, Reply, ReplyView};
use crate::text::{join2, opt_text, texts};
use vstd::prelude::*;

verus! {

/// The name of the file that a document is kept in.
pub open spec fn file_name(id: Seq<char>) -> Seq<char> {
    id + ".json"@
}

/// Where the document of a location is kept: the parts of a path, from the first to the last.
pub open spec fn location_path(location: Seq<char>) -> Seq<Seq<char>> {
    seq!["location"@, file_name(location)]
}

/// Where the machines of a room are kept: the parts of a path, from the first to the last.
pub open spec fn room_path(location: Seq<char>, room: Seq<char>) -> Seq<Seq<char>> {
    seq!["room"@, location, file_name(room)]
}

/// Where the document of a location is kept.
pub fn path_of_location(location: &str) -> (path: Vec<String>)
    ensures
        texts(path@) == location_path(location@),
{
    let path = vec!["location".to_owned(), join2(location, ".json")];
    assert(texts(path@) =~= location_path(location@));
    path
}

/// Where the machines of a room are kept.
pub fn path_of_room(location: &str, room: &str) -> (path: Vec<String>)
    ensures
        texts(path@) == room_path(location@, room@),
{
    let path = vec!["room".to_owned(), location.to_owned(), join2(room, ".json")];
    assert(texts(path@) =~= room_path(location@, room@));
    path
}

/// The answer to a request for a file: what it holds, or `missing` where it cannot be read.
pub open spec fn file_answer(contents: Option<Seq<char>>, missing: Seq<char>) -> ReplyView {
    match contents {
        Some(body) => ReplyView { status: 200, content: Content::Json, body },
        None => text_reply(404, missing),
    }
}

/// The answer to a request for a file.
fn file_reply(contents: Option<String>, missing: &str) -> (reply: Reply)
    ensures
        reply@ == file_answer(opt_text(contents), missing@),
{
    match contents {
        Some(body) => Reply { status: 200, content: Content::Json, body },
        None => Reply::text(404, missing),
    }
}

/// The answer to a request for the document of a location, from what the file at
/// [`path_of_location`] holds.
pub fn get_location(contents: Option<String>) -> (reply: Reply)
    ensures
        reply@ == file_answer(opt_text(contents), "Location not found"@),
{
    file_reply(contents, "Location not found")
}

/// The answer to a request for the machines of a room, from what the file at
/// [`path_of_room`] holds.
pub fn get_room(contents: Option<String>) -> (reply: Reply)
    ensures
        reply@ == file_answer(opt_text(contents), "Room not found"@),
{
    file_reply(contents, "Room not found")
}

/// The document of a location is kept in `location/<location>.json`, and the machines of a room in
/// `room/<location>/<room>.json`.
pub proof fn law_where_documents_are_kept(path: Seq<String>, location: Seq<char>, room: Seq<char>)
    ensures
        texts(path) == location_path(location) ==> path.len() == 2 && path[0]@ == "location"@ && path[1]@ == location
            + ".json"@,
        texts(path) == room_path(location, room) ==> path.len() == 3 && path[0]@ == "room"@ && path[1]@ == location
            && path[2]@ == room + ".json"@,
        file_name(room) == room + ".json"@,
{
    assert(texts(path).len() == path.len());
    if texts(path) == location_path(location) {
        assert(texts(path)[0] == "location"@);
        assert(texts(path)[1] == location + ".json"@);
    }
    if texts(path) == room_path(location, room) {
        assert(texts(path)[0] == "room"@);
        assert(texts(path)[1] == location);
        assert(texts(path)[2] == room + ".json"@);
    }
}

/// A file that can be read is answered as it is, as JSON with the status 200; one that cannot, with
/// the status 404 and the text for a missing one.
pub proof fn law_files_are_answered_as_they_are(reply: Reply, contents: Option<String>, missing: Seq<char>)
    requires
        reply@ == file_answer(opt_text(contents), missing),
    ensures
        contents matches Some(text) ==> reply.status == 200 && reply.content == Content::Json && reply.body@ == text@,
        contents is None ==> reply.status == 404 && reply.content == Content::Text && reply.body@ == missing,
{
}

} // verus!
