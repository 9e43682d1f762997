use laundry_relay::archiver::{jobs_in, url_of_location, url_of_room, ArchiveStep, Archiver};
use laundry_relay::files::{get_location, get_room, path_of_location, path_of_room};
use laundry_relay::reply::Content;

fn bytes(s: &str) -> Option<Vec<u8>> {
    Some(s.as_bytes().to_vec())
}

fn stored(step: ArchiveStep) -> (Vec<String>, String) {
    match step {
        ArchiveStep::Store { path, text } => (path, text),
        other => panic!("{:?}", other),
    }
}

fn fetch(step: ArchiveStep) -> String {
    match step {
        ArchiveStep::FetchRoom { url, .. } => url,
        other => panic!("{:?}", other),
    }
}

#[test]
fn documents_are_published_under_their_urls() {
    assert_eq!(url_of_location("42"), "https://lessive.foxomy.com/api/v1/location/42");
    assert_eq!(url_of_room("42", "7"), "https://lessive.foxomy.com/api/v1/location/42/room/7/machines");
}

#[test]
fn documents_are_kept_under_their_paths() {
    assert_eq!(path_of_location("42"), vec!["location", "42.json"]);
    assert_eq!(path_of_room("42", "7"), vec!["room", "42", "7.json"]);
}

#[test]
fn a_location_is_archived_with_its_rooms() {
    let mut archiver = Archiver::new("42");
    assert_eq!(archiver.start(), "https://lessive.foxomy.com/api/v1/location/42");
    let location = "{\"rooms\":[{\"roomId\":\"1\",\"locationId\":\"42\"},{\"roomId\":\"2\"},\
                    {\"roomId\":3,\"locationId\":\"42\"},{\"roomId\":\"4\",\"locationId\":\"43\"}]}";
    let (path, text) = stored(archiver.location_fetched(bytes(location)));
    assert_eq!(path, vec!["location", "42.json"]);
    assert!(text.starts_with("{\n  \"rooms\": [\n    {\n      \"locationId\": \"42\","));
    assert_eq!(
        fetch(archiver.stored(true)),
        "https://lessive.foxomy.com/api/v1/location/42/room/1/machines"
    );
    let (path, text) = stored(archiver.room_fetched(bytes("[1]")));
    assert_eq!(path, vec!["room", "42", "1.json"]);
    assert_eq!(text, "[\n  1\n]");
    assert_eq!(
        fetch(archiver.stored(true)),
        "https://lessive.foxomy.com/api/v1/location/43/room/4/machines"
    );
    let (path, _) = stored(archiver.room_fetched(bytes("[]")));
    assert_eq!(path, vec!["room", "42", "4.json"]);
    assert!(matches!(archiver.stored(true), ArchiveStep::Archived));
}

#[test]
fn a_room_that_does_not_come_is_passed_over() {
    let mut archiver = Archiver::new("42");
    let location = "{\"rooms\":[{\"roomId\":\"1\",\"locationId\":\"42\"},{\"roomId\":\"2\",\"locationId\":\"42\"},\
                    {\"roomId\":\"3\",\"locationId\":\"42\"}]}";
    stored(archiver.location_fetched(bytes(location)));
    assert!(fetch(archiver.stored(true)).ends_with("/room/1/machines"));
    assert!(fetch(archiver.room_fetched(None)).ends_with("/room/2/machines"));
    assert!(fetch(archiver.room_fetched(bytes("<html>"))).ends_with("/room/3/machines"));
    assert!(matches!(archiver.room_fetched(Some(vec![0xff])), ArchiveStep::Archived));
    assert!(matches!(archiver.room_fetched(None), ArchiveStep::Archived));
}

#[test]
fn a_location_that_does_not_come_ends_the_run() {
    let mut archiver = Archiver::new("42");
    assert!(matches!(archiver.location_fetched(None), ArchiveStep::NotFetched));
    assert!(matches!(archiver.location_fetched(bytes("oops")), ArchiveStep::NotFetched));
}

#[test]
fn a_location_without_rooms_is_archived() {
    for location in ["{}", "{\"rooms\":{}}", "[]", "null"] {
        let mut archiver = Archiver::new("42");
        stored(archiver.location_fetched(bytes(location)));
        assert!(matches!(archiver.stored(true), ArchiveStep::Archived));
    }
}

#[test]
fn a_document_that_cannot_be_kept_ends_the_run() {
    let mut archiver = Archiver::new("42");
    let location = "{\"rooms\":[{\"roomId\":\"1\",\"locationId\":\"42\"}]}";
    stored(archiver.location_fetched(bytes(location)));
    assert!(matches!(archiver.stored(false), ArchiveStep::Failed));
}

#[test]
fn files_are_answered_as_they_are() {
    let reply = get_location(Some("{ }".to_string()));
    assert_eq!((reply.status, reply.content, reply.body.as_str()), (200, Content::Json, "{ }"));
    let reply = get_location(None);
    assert_eq!((reply.status, reply.content, reply.body.as_str()), (404, Content::Text, "Location not found"));
    let reply = get_room(Some("[ ]".to_string()));
    assert_eq!((reply.status, reply.content, reply.body.as_str()), (200, Content::Json, "[ ]"));
    let reply = get_room(None);
    assert_eq!((reply.status, reply.content, reply.body.as_str()), (404, Content::Text, "Room not found"));
}

#[test]
fn rooms_are_picked_from_a_locations_document() {
    let location: serde_json::Value = serde_json::from_str(
        "{\"rooms\":[{\"roomId\":\"2\",\"locationId\":\"9\"},{\"locationId\":\"9\"},{\"roomId\":\"1\",\"locationId\":\"8\"}]}",
    )
    .unwrap();
    let jobs = jobs_in(&location);
    let rooms: Vec<&str> = jobs.iter().map(|job| job.room_id.as_str()).collect();
    assert_eq!(rooms, vec!["2", "1"]);
    assert_eq!(jobs[1].url, "https://lessive.foxomy.com/api/v1/location/8/room/1/machines");
    assert!(jobs_in(&serde_json::Value::Null).is_empty());
}

#[test]
fn documents_go_on_as_they_are_read() {
    let mut archiver = Archiver::new("42");
    assert!(matches!(archiver.location_read(None), ArchiveStep::NotFetched));
    let location = serde_json::from_str("{\"rooms\":[{\"roomId\":\"1\",\"locationId\":\"42\"}]}").ok();
    stored(archiver.location_read(location));
    assert!(matches!(
        archiver.stored(true),
        ArchiveStep::FetchRoom { room_id, .. } if room_id == "1"
    ));
    let (path, text) = stored(archiver.room_read(Some(serde_json::Value::Bool(false))));
    assert_eq!(path, vec!["room", "42", "1.json"]);
    assert_eq!(text, "false");
    assert!(matches!(archiver.room_read(None), ArchiveStep::Archived));
}
