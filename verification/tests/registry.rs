use laundry_relay::registry::{Registry, INACTIVE_AFTER};
use laundry_relay::reply::Content;

fn text(s: &str) -> String {
    s.to_string()
}

#[test]
fn a_new_registry_lists_nobody() {
    let registry: Registry<u32, u32> = Registry::new();
    let reply = registry.list_clients();
    assert_eq!(reply.status, 200);
    assert_eq!(reply.content, Content::Json);
    assert_eq!(reply.body, "[]");
}

#[test]
fn clients_are_listed_with_location_and_room() {
    let mut registry: Registry<u32, u32> = Registry::new();
    assert!(registry.connect(text("north"), text("1"), 7, 0));
    assert!(registry.connect(text("south"), text("2"), 8, 0));
    assert!(registry.connect(text("north"), text("1"), 9, 5));
    assert_eq!(
        registry.list_clients().body,
        "[{\"location\":\"north\",\"room\":\"1\"},{\"location\":\"south\",\"room\":\"2\"}]"
    );
}

#[test]
fn clients_without_location_or_room_are_not_taken() {
    let mut registry: Registry<u32, u32> = Registry::new();
    assert!(!registry.connect(text(""), text("1"), 7, 0));
    assert!(!registry.connect(text("north"), text(""), 7, 0));
    assert_eq!(registry.list_clients().body, "[]");
}

#[test]
fn a_sign_of_life_replaces_the_session_and_keeps_the_sender() {
    let mut registry: Registry<u32, u32> = Registry::new();
    registry.connect(text("north"), text("1"), 7, 0);
    assert!(registry.set_sender("north", "1", 100));
    registry.connect(text("north"), text("1"), 8, 1);
    assert_eq!(registry.session("north", "1"), Some(&8));
    assert_eq!(registry.take_sender("north", "1"), Some(100));
    assert_eq!(registry.take_sender("north", "1"), None);
}

#[test]
fn the_later_request_takes_over() {
    let mut registry: Registry<u32, u32> = Registry::new();
    registry.connect(text("north"), text("1"), 7, 0);
    registry.connect(text("north"), text("2"), 7, 0);
    assert!(registry.set_sender("north", "1", 100));
    assert!(registry.set_sender("north", "1", 101));
    assert!(registry.set_sender("north", "2", 102));
    assert_eq!(registry.take_sender("north", "1"), Some(101));
    assert_eq!(registry.take_sender("north", "2"), Some(102));
}

#[test]
fn location_and_room_are_told_apart() {
    let mut registry: Registry<u32, u32> = Registry::new();
    registry.connect(text("a"), text("bc"), 7, 0);
    assert_eq!(registry.session("ab", "c"), None);
    assert_eq!(registry.session("bc", "a"), None);
    assert_eq!(registry.session("a", "bc"), Some(&7));
}

#[test]
fn nothing_is_set_for_a_client_that_is_not_there() {
    let mut registry: Registry<u32, u32> = Registry::new();
    assert!(!registry.set_sender("north", "1", 100));
    assert_eq!(registry.take_sender("north", "1"), None);
    registry.remove("north", "1");
    assert_eq!(registry.list_clients().body, "[]");
}

#[test]
fn a_removed_client_is_gone_and_the_others_stay() {
    let mut registry: Registry<u32, u32> = Registry::new();
    registry.connect(text("a"), text("1"), 1, 0);
    registry.connect(text("b"), text("2"), 2, 0);
    registry.connect(text("c"), text("3"), 3, 0);
    registry.remove("b", "2");
    assert_eq!(registry.session("a", "1"), Some(&1));
    assert_eq!(registry.session("b", "2"), None);
    assert_eq!(registry.session("c", "3"), Some(&3));
}

#[test]
fn a_sweep_takes_out_who_was_silent_for_more_than_a_minute() {
    let mut registry: Registry<u32, u32> = Registry::new();
    let minute: u128 = 60_000_000_000;
    assert_eq!(INACTIVE_AFTER, minute);
    registry.connect(text("a"), text("1"), 1, 0);
    registry.connect(text("b"), text("2"), 2, 1);
    registry.connect(text("c"), text("3"), 3, minute + 7);
    registry.connect(text("d"), text("4"), 4, 0);
    let sweep = registry.remove_inactive_clients(minute + 1);
    assert_eq!(sweep.before, 4);
    assert_eq!(sweep.after, 2);
    assert_eq!(sweep.removed.len(), 2);
    assert_eq!(sweep.removed[0].location, "a");
    assert_eq!(sweep.removed[0].room, "1");
    assert_eq!(sweep.removed[0].silent_for, minute + 1);
    assert_eq!(sweep.removed[1].location, "d");
    assert_eq!(registry.session("b", "2"), Some(&2));
    assert_eq!(registry.session("c", "3"), Some(&3));
    let again = registry.remove_inactive_clients(minute + 1);
    assert_eq!(again.removed.len(), 0);
    assert_eq!(again.before, 2);
    assert_eq!(again.after, 2);
}
