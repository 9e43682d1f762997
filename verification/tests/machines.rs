use laundry_relay::archiver::{ArchiveStep, Archiver};
use laundry_relay::machines::{
    count_inserted, document_reply, get_qr, goes_on, json_files, plan_machines, plan_update, qr_reply, stamp_row, MachineRow,
    Planned,
};
use laundry_relay::reply::Content;
use laundry_relay::rotation::copy_names;
use laundry_relay::text::is_json_file;
use std::collections::BTreeMap;

fn text(s: &str) -> String {
    s.to_string()
}

fn rows(planned: &Vec<Planned>) -> Vec<(String, String)> {
    let mut rows = Vec::new();
    for step in planned {
        if let Planned::Insert(row) = step {
            rows.push((row.qr_code.clone(), row.data.clone()));
        }
    }
    rows
}

#[test]
fn json_files_are_told_by_their_extension() {
    assert!(is_json_file("12.json"));
    assert!(is_json_file("a.b.json"));
    assert!(is_json_file("..json"));
    assert!(is_json_file("\u{fffd}.json"));
    assert!(!is_json_file(".json"));
    assert!(!is_json_file("json"));
    assert!(!is_json_file("12.JSON"));
    assert!(!is_json_file("12.json.old.1"));
    assert!(!is_json_file(""));
}

#[test]
fn the_json_files_of_a_folder_are_picked_in_order() {
    let names = vec![text("b.json"), text("b.json.old.1"), text("a.json"), text(".json")];
    assert_eq!(json_files(&names), vec![0, 2]);
    assert_eq!(json_files(&Vec::new()), Vec::<usize>::new());
}

#[test]
fn copies_are_not_read() {
    for name in copy_names("12.json") {
        assert!(!is_json_file(&name));
    }
}

#[test]
fn the_machines_of_the_files_are_planned_in_turn() {
    let files = vec![
        Some(text("[{\"qrCodeId\":\"q1\",\"n\":1},{\"qrCodeId\":2},7,{\"qrCodeId\":\"q2\"}]")),
        None,
        Some(text("{\"qrCodeId\":\"q3\"}")),
        Some(text("not json")),
        Some(text("[]")),
        Some(text("[{\"qrCodeId\":\"q1\",\"a\":\"x\"}]")),
    ];
    let planned = plan_update(true, true, &files);
    assert_eq!(planned.len(), 9);
    assert!(matches!(planned[0], Planned::Clear));
    assert!(matches!(&planned[2], Planned::NoCode(document) if document == "{\"qrCodeId\":2}"));
    assert!(matches!(&planned[3], Planned::NoCode(document) if document == "7"));
    assert!(matches!(planned[5], Planned::Unreadable(1)));
    assert!(matches!(planned[6], Planned::NotJson(2)));
    assert!(matches!(planned[7], Planned::NotJson(3)));
    assert_eq!(
        rows(&planned),
        vec![
            (text("q1"), text("{\"n\":1,\"qrCodeId\":\"q1\"}")),
            (text("q2"), text("{\"qrCodeId\":\"q2\"}")),
            (text("q1"), text("{\"a\":\"x\",\"qrCodeId\":\"q1\"}")),
        ]
    );
}

#[test]
fn rows_that_went_in_are_counted() {
    assert_eq!(count_inserted(&vec![]), 0);
    assert_eq!(count_inserted(&vec![true, false, true, true]), 3);
}

#[test]
fn a_row_bears_the_time_of_the_change() {
    let stamped = stamp_row(MachineRow { qr_code: text("q"), data: text("{}") });
    assert_eq!(stamped.qr_code, "q");
    assert_eq!(stamped.data, "{}");
    let time = stamped.last_updated.strip_suffix(" UTC").unwrap();
    let (second, fraction) = time.split_at(19);
    assert!(second.chars().enumerate().all(|(i, c)| match i {
        4 | 7 => c == '-',
        10 => c == ' ',
        13 | 16 => c == ':',
        _ => c.is_ascii_digit(),
    }));
    assert!(fraction.is_empty() || (fraction.starts_with('.') && [4, 7, 10].contains(&fraction.len())));
}

#[test]
fn a_query_names_its_code() {
    assert_eq!(get_qr(&vec![(text("code"), text("a")), (text("code"), text("b"))]).unwrap(), "b");
    let reply = get_qr(&vec![(text("Code"), text("a"))]).unwrap_err();
    assert_eq!(reply.status, 400);
    assert_eq!(reply.content, Content::Text);
    assert_eq!(reply.body, "Missing 'code' query parameter");
}

#[test]
fn a_machine_is_answered_from_the_table() {
    let reply = qr_reply(Some(text("{ \"b\": 1, \"a\": [true, null] }")));
    assert_eq!(reply.status, 200);
    assert_eq!(reply.content, Content::Json);
    assert_eq!(reply.body, "{\"a\":[true,null],\"b\":1}");
    let reply = qr_reply(Some(text("{")));
    assert_eq!((reply.status, reply.body.as_str()), (500, "Failed to parse JSON data"));
    assert_eq!(reply.content, Content::Text);
    let reply = qr_reply(None);
    assert_eq!((reply.status, reply.body.as_str()), (404, "QR code not found"));
    assert_eq!(reply.content, Content::Text);
}

#[test]
fn a_machine_comes_back_from_the_table() {
    let files = vec![Some(text(
        "[{\"qrCodeId\":\"q\\n\\u00e9\",\"max\":18446744073709551615,\"min\":-9223372036854775808}]",
    ))];
    let planned = plan_update(true, true, &files);
    let (code, data) = rows(&planned).remove(0);
    assert_eq!(code, "q\n\u{e9}");
    let reply = qr_reply(Some(data.clone()));
    assert_eq!(reply.status, 200);
    assert_eq!(reply.body, data);
}

fn nested(depth: usize) -> String {
    let mut text = String::new();
    for _ in 0..depth {
        text.push('[');
    }
    for _ in 0..depth {
        text.push(']');
    }
    text
}

#[test]
fn documents_are_read_up_to_a_depth() {
    assert_eq!(laundry_relay::json::MAX_DEPTH, 127);
    assert_eq!(qr_reply(Some(nested(127))).body, nested(127));
    assert_eq!(qr_reply(Some(nested(128))).status, 500);
}

#[test]
fn archived_machines_are_read_by_an_update() {
    let mut archiver = Archiver::new("north");
    let location = "{\"rooms\":[{\"roomId\":\"r\",\"locationId\":\"north\"}]}";
    archiver.location_fetched(Some(location.as_bytes().to_vec()));
    let machines = "[{\"qrCodeId\":\"q\",\"id\":5}]";
    match archiver.room_fetched(Some(machines.as_bytes().to_vec())) {
        ArchiveStep::Store { path, text } => {
            assert!(is_json_file(&path[2]));
            let planned = plan_update(true, true, &vec![Some(text)]);
            assert_eq!(planned.len(), 2);
            assert_eq!(rows(&planned)[0].1, "{\"id\":5,\"qrCodeId\":\"q\"}");
        }
        other => panic!("{:?}", other),
    }
}

/// A table that refuses a row whose QR code it has.
fn update(table: &mut BTreeMap<String, String>, planned: Vec<Planned>) -> Vec<bool> {
    let mut inserted = Vec::new();
    for step in planned {
        match step {
            Planned::Clear => table.clear(),
            Planned::Insert(row) => {
                let new = !table.contains_key(&row.qr_code);
                if new {
                    table.insert(row.qr_code, row.data);
                }
                inserted.push(new);
            }
            _ => {}
        }
    }
    inserted
}

#[test]
fn an_update_replaces_the_table() {
    let mut table: BTreeMap<String, String> = BTreeMap::new();
    table.insert(text("old"), text("{}"));
    let files = vec![
        Some(text("[{\"qrCodeId\":\"q\",\"n\":1},{\"qrCodeId\":\"p\"}]")),
        Some(text("[{\"qrCodeId\":\"q\",\"n\":2}]")),
    ];
    assert!(plan_update(false, false, &files).is_empty());
    assert!(plan_update(true, false, &files).is_empty());
    let inserted = update(&mut table, plan_update(true, true, &files));
    assert_eq!(inserted, vec![true, true, false]);
    assert_eq!(count_inserted(&inserted), table.len());
    assert_eq!(qr_reply(table.get("q").cloned()).body, "{\"n\":1,\"qrCodeId\":\"q\"}");
    assert_eq!(qr_reply(table.get("old").cloned()).status, 404);
    update(&mut table, plan_update(true, true, &Vec::new()));
    assert!(table.is_empty());
}

#[test]
fn machines_are_planned_from_their_documents() {
    let machines: Vec<serde_json::Value> =
        serde_json::from_str("[{\"qrCodeId\":\"q\"},{\"qrCodeId\":null}]").unwrap();
    let planned = plan_machines(&machines);
    assert_eq!(rows(&planned), vec![(text("q"), text("{\"qrCodeId\":\"q\"}"))]);
    assert!(matches!(&planned[1], Planned::NoCode(document) if document == "{\"qrCodeId\":null}"));
}

#[test]
fn a_document_is_answered() {
    let reply = document_reply(Some(serde_json::Value::Bool(true)));
    assert_eq!((reply.status, reply.content, reply.body.as_str()), (200, Content::Json, "true"));
    let reply = document_reply(None);
    assert_eq!((reply.status, reply.content), (500, Content::Text));
}

#[test]
fn only_a_failed_clearing_ends_an_update() {
    assert!(goes_on(&Planned::Clear, true));
    assert!(!goes_on(&Planned::Clear, false));
    let row = Planned::Insert(MachineRow { qr_code: text("q"), data: text("{}") });
    assert!(goes_on(&row, true));
    assert!(goes_on(&row, false));
    assert!(goes_on(&Planned::NotJson(0), false));
}

#[test]
fn a_bad_file_is_as_good_as_absent() {
    let first = Some(text("[{\"qrCodeId\":\"q\",\"n\":1}]"));
    let last = Some(text("[{\"qrCodeId\":\"q\",\"n\":2},{\"qrCodeId\":\"p\"}]"));
    let mut good: BTreeMap<String, String> = BTreeMap::new();
    let taken = update(&mut good, plan_update(true, true, &vec![first.clone(), last.clone()]));
    for bad in [None, Some(text("{}")), Some(text("[1,"))] {
        let mut table: BTreeMap<String, String> = BTreeMap::new();
        let files = vec![first.clone(), bad, last.clone()];
        assert_eq!(update(&mut table, plan_update(true, true, &files)), taken);
        assert_eq!(table, good);
    }
}
