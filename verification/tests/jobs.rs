use laundry_relay::jobs::{manual_run_archiver, manual_update_db, reply_to_archiver, reply_to_update, Job};
use laundry_relay::log::{log_color, log_line, LogColor};
use laundry_relay::query::param;
use laundry_relay::reply::Content;

fn text(s: &str) -> String {
    s.to_string()
}

#[test]
fn a_job_runs_once_at_a_time() {
    let mut job = Job::new();
    assert!(job.try_start());
    assert!(!job.try_start());
    assert!(!job.try_start());
    job.finish();
    assert!(job.try_start());
}

#[test]
fn the_answer_to_an_update_tells_whether_it_started() {
    let reply = reply_to_update(true, "then");
    assert_eq!((reply.status, reply.content), (200, Content::Json));
    assert_eq!(
        reply.body,
        "{\"message\":\"Database update started\",\"status\":\"started\",\"timestamp\":\"then\"}"
    );
    let reply = reply_to_update(false, "then");
    assert_eq!((reply.status, reply.content), (429, Content::Json));
    assert_eq!(
        reply.body,
        "{\"message\":\"Database update already in progress\",\"status\":\"in_progress\",\"timestamp\":\"then\"}"
    );
}

#[test]
fn the_answer_to_an_archiver_run_tells_whether_it_started() {
    let reply = reply_to_archiver(Some("42"), true, "then");
    assert_eq!((reply.status, reply.content), (200, Content::Json));
    assert_eq!(
        reply.body,
        "{\"message\":\"Archiver run started for location 42\",\"status\":\"started\",\"timestamp\":\"then\"}"
    );
    let reply = reply_to_archiver(Some("42"), false, "then");
    assert_eq!(reply.status, 429);
    assert_eq!(
        reply.body,
        "{\"message\":\"Archiver already running\",\"status\":\"in_progress\",\"timestamp\":\"then\"}"
    );
    let reply = reply_to_archiver(None, true, "then");
    assert_eq!(reply.status, 400);
    assert_eq!(
        reply.body,
        "{\"message\":\"Missing required 'location' parameter\",\"status\":\"error\",\"timestamp\":\"then\"}"
    );
}

#[test]
fn an_update_is_refused_while_one_runs() {
    let mut job = Job::new();
    let (run, reply) = manual_update_db(&mut job);
    assert!(run);
    assert_eq!(reply.status, 200);
    let stamp = reply.body.split("\"timestamp\":\"").nth(1).unwrap();
    assert!(stamp.ends_with(" UTC\"}"));
    assert_eq!(stamp.len(), "2024-01-31 12:34:56 UTC\"}".len());
    let read: serde_json::Value = serde_json::from_str(&reply.body).unwrap();
    assert_eq!(read["status"].as_str(), Some("started"));
    assert_eq!(read["message"].as_str(), Some("Database update started"));
    let time: Vec<char> = read["timestamp"].as_str().unwrap().chars().collect();
    assert_eq!((time[4], time[7], time[10], time[13], time[16]), ('-', '-', ' ', ':', ':'));
    assert!(time[0].is_ascii_digit() && time[18].is_ascii_digit());
    let (run, reply) = manual_update_db(&mut job);
    assert!(!run);
    assert_eq!(reply.status, 429);
    job.finish();
    assert!(manual_update_db(&mut job).0);
}

#[test]
fn an_archiver_run_needs_a_location_and_an_idle_archiver() {
    let mut job = Job::new();
    let (run, reply) = manual_run_archiver(&mut job, &vec![(text("room"), text("1"))]);
    assert_eq!(run, None);
    assert_eq!(reply.status, 400);
    let query = vec![(text("location"), text("42"))];
    let (run, reply) = manual_run_archiver(&mut job, &query);
    assert_eq!(run, Some(text("42")));
    assert_eq!(reply.status, 200);
    let (run, reply) = manual_run_archiver(&mut job, &query);
    assert_eq!(run, None);
    assert_eq!(reply.status, 429);
    let (run, reply) = manual_run_archiver(&mut job, &Vec::new());
    assert_eq!(run, None);
    assert_eq!(reply.status, 400);
    job.finish();
    assert_eq!(manual_run_archiver(&mut job, &query).0, Some(text("42")));
}

#[test]
fn the_last_value_of_a_parameter_counts() {
    let params = vec![(text("a"), text("1")), (text("b"), text("2")), (text("a"), text("3"))];
    assert_eq!(param(&params, "a"), Some(&text("3")));
    assert_eq!(param(&params, "b"), Some(&text("2")));
    assert_eq!(param(&params, "c"), None);
    assert_eq!(param(&Vec::new(), "a"), None);
}

#[test]
fn log_lines_have_colours() {
    assert_eq!(log_color("INFO"), LogColor::Green);
    assert_eq!(log_color("WARN"), LogColor::Yellow);
    assert_eq!(log_color("ERROR"), LogColor::Red);
    assert_eq!(log_color("info"), LogColor::Plain);
    assert_eq!(log_line("10:00", "hello"), "[10:00] hello");
}
