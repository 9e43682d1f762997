//! The jobs that run in the background, one of each kind at a time: the update of the table
//! of machines, and the archiver.
use crate::clock::{is_stamp, utc_now_stamp};
use crate::json::{
    comes_back, json_new_members, json_object, json_parse, nested_within, no_fractions, no_members, put_text, JsonTree,
};
use crate::query::{pairs, param, value_of};
use crate::reply::{json_reply, Content, Reply, ReplyView};
use crate::text::{join2, opt_text};
use vstd::prelude::*;

verus! {

/// Whether a job of one kind is running.
#[derive(Debug)]
pub struct Job {
    running: bool,
}

impl View for Job {
    type V = bool;

    closed spec fn view(&self) -> bool {
        self.running
    }
}

/// What happens to a job: it is ordered to start, or it ends.
pub enum JobEvent {
    Order,
    Finish,
}

/// Whether a job is running after something happened to it.
pub open spec fn running_after(running: bool, event: JobEvent) -> bool {
    match event {
        JobEvent::Order => true,
        JobEvent::Finish => false,
    }
}

/// Whether something that happens to a job starts it: an order does, unless the job is running.
pub open spec fn starts(running: bool, event: JobEvent) -> bool {
    event is Order && !running
}

impl Job {
    /// A kind of job of which none is running.
    pub fn new() -> (job: Job)
        ensures
            !job@,
    {
        Job { running: false }
    }

    /// Starts the job, unless it is running. Answers whether it was started.
    pub fn try_start(&mut self) -> (started: bool)
        ensures
            started == starts(old(self)@, JobEvent::Order),
            final(self)@ == running_after(old(self)@, JobEvent::Order),
    {
        if self.running {
            false
        } else {
            self.running = true;
            true
        }
    }

    /// Ends the job.
    pub fn finish(&mut self)
        ensures
            final(self)@ == running_after(old(self)@, JobEvent::Finish),
    {
        self.running = false;
    }
}

/// The document that tells how a job stands.
pub open spec fn status_tree(status: Seq<char>, message: Seq<char>, timestamp: Seq<char>) -> JsonTree {
    JsonTree::Obj(
        no_members().insert("status"@, JsonTree::Str(status)).insert("message"@, JsonTree::Str(message)).insert(
            "timestamp"@,
            JsonTree::Str(timestamp),
        ),
    )
}

/// The document that answers the order to update the table of machines.
pub open spec fn update_tree(started: bool, now: Seq<char>) -> JsonTree {
    if started {
        status_tree("started"@, "Database update started"@, now)
    } else {
        status_tree("in_progress"@, "Database update already in progress"@, now)
    }
}

/// The answer to the order to update the table of machines.
pub open spec fn update_reply(started: bool, now: Seq<char>) -> ReplyView {
    if started {
        json_reply(200, update_tree(started, now))
    } else {
        json_reply(429, update_tree(started, now))
    }
}

/// The document that answers the order to run the archiver for a location, if one is given.
pub open spec fn archiver_tree(location: Option<Seq<char>>, started: bool, now: Seq<char>) -> JsonTree {
    match location {
        Some(location) => if started {
            status_tree("started"@, "Archiver run started for location "@ + location, now)
        } else {
            status_tree("in_progress"@, "Archiver already running"@, now)
        },
        None => status_tree("error"@, "Missing required 'location' parameter"@, now),
    }
}

/// The answer to the order to run the archiver for a location, if one is given.
pub open spec fn archiver_reply(location: Option<Seq<char>>, started: bool, now: Seq<char>) -> ReplyView {
    let tree = archiver_tree(location, started, now);
    if location is None {
        json_reply(400, tree)
    } else if started {
        json_reply(200, tree)
    } else {
        json_reply(429, tree)
    }
}

/// Whether this is the answer, at some time, to the order to update the table of machines, and is
/// read as the document that tells so.
pub open spec fn is_update_reply(reply: ReplyView, started: bool) -> bool {
    exists|now: Seq<char>| #[trigger]
        is_stamp(now) && reply == update_reply(started, now) && json_parse(reply.body) == Some(
            update_tree(started, now),
        )
}

/// Whether this is the answer, at some time, to the order to run the archiver, and is read as the
/// document that tells so.
pub open spec fn is_archiver_reply(reply: ReplyView, location: Option<Seq<char>>, started: bool) -> bool {
    exists|now: Seq<char>| #[trigger]
        is_stamp(now) && reply == archiver_reply(location, started, now) && json_parse(reply.body) == Some(
            archiver_tree(location, started, now),
        )
}

/// The document that tells how a job stands comes back unchanged from its text.
proof fn lemma_status_comes_back(status: Seq<char>, message: Seq<char>, timestamp: Seq<char>)
    ensures
        comes_back(status_tree(status, message, timestamp)),
{
    reveal_with_fuel(nested_within, 3);
    reveal_with_fuel(no_fractions, 3);
}

/// An answer that tells how a job stands.
fn status_reply(code: u16, status: &str, message: &str, timestamp: &str) -> (reply: Reply)
    ensures
        reply@ == json_reply(code, status_tree(status@, message@, timestamp@)),
        json_parse(reply@.body) == Some(status_tree(status@, message@, timestamp@)),
{
    let mut members = json_new_members();
    put_text(&mut members, "status", status);
    put_text(&mut members, "message", message);
    put_text(&mut members, "timestamp", timestamp);
    proof {
        lemma_status_comes_back(status@, message@, timestamp@);
    }
    Reply::json(code, &json_object(members))
}

/// The answer, at the time `now`, to the order to update the table of machines.
pub fn reply_to_update(started: bool, now: &str) -> (reply: Reply)
    ensures
        reply@ == update_reply(started, now@),
        json_parse(reply@.body) == Some(update_tree(started, now@)),
{
    if started {
        status_reply(200, "started", "Database update started", now)
    } else {
        status_reply(429, "in_progress", "Database update already in progress", now)
    }
}

/// The location that is given, if one is.
pub open spec fn opt_str(location: Option<&str>) -> Option<Seq<char>> {
    match location {
        Some(location) => Some(location@),
        None => None,
    }
}

/// The answer, at the time `now`, to the order to run the archiver for a location.
pub fn reply_to_archiver(location: Option<&str>, started: bool, now: &str) -> (reply: Reply)
    ensures
        reply@ == archiver_reply(opt_str(location), started, now@),
        json_parse(reply@.body) == Some(archiver_tree(opt_str(location), started, now@)),
{
    match location {
        Some(location) => if started {
            status_reply(200, "started", join2("Archiver run started for location ", location).as_str(), now)
        } else {
            status_reply(429, "in_progress", "Archiver already running", now)
        },
        None => status_reply(400, "error", "Missing required 'location' parameter", now),
    }
}

/// Takes the order to update the table of machines: whether the update is to be run now, and
/// the answer, which bears the time of the order.
pub fn manual_update_db(job: &mut Job) -> (res: (bool, Reply))
    ensures
        res.0 == !old(job)@,
        final(job)@,
        is_update_reply(res.1@, !old(job)@),
{
    let now = utc_now_stamp();
    let started = job.try_start();
    (started, reply_to_update(started, now.as_str()))
}

/// Takes the order to run the archiver: the location that it is to be run for now, if any,
/// and the answer, which bears the time of the order.
pub fn manual_run_archiver(job: &mut Job, query: &Vec<(String, String)>) -> (res: (Option<String>, Reply))
    ensures
        opt_text(res.0) == if old(job)@ {
            None
        } else {
            value_of(pairs(query@), "location"@)
        },
        final(job)@ == (old(job)@ || value_of(pairs(query@), "location"@) is Some),
        is_archiver_reply(res.1@, value_of(pairs(query@), "location"@), !old(job)@),
{
    let now = utc_now_stamp();
    match param(query, "location") {
        Some(location) => {
            let started = job.try_start();
            let reply = reply_to_archiver(Some(location.as_str()), started, now.as_str());
            if started {
                (Some(location.clone()), reply)
            } else {
                (None, reply)
            }
        },
        None => {
            let reply = reply_to_archiver(None, false, now.as_str());
            assert(reply@ == archiver_reply(None, !old(job)@, now@) && archiver_tree(None, !old(job)@, now@)
                == archiver_tree(None, false, now@));
            (None, reply)
        },
    }
}

/// Whether a job is running after the first `n` of the things that happen to it.
pub open spec fn running_after_all(running: bool, events: Seq<JobEvent>, n: int) -> bool
    decreases n,
{
    if n <= 0 {
        running
    } else {
        running_after(running_after_all(running, events, n - 1), events[n - 1])
    }
}

/// Whether the job is started by the event with the number `i`.
pub open spec fn starts_at(running: bool, events: Seq<JobEvent>, i: int) -> bool {
    starts(running_after_all(running, events, i), events[i])
}

/// No two jobs of a kind run at the same time: between two starts the job has ended.
pub proof fn law_one_at_a_time(running: bool, events: Seq<JobEvent>, i: int, j: int)
    requires
        0 <= i < j < events.len(),
        starts_at(running, events, i),
        starts_at(running, events, j),
    ensures
        exists|k: int| i < k < j && #[trigger] events[k] is Finish,
{
    if forall|k: int| i < k < j ==> !(#[trigger] events[k] is Finish) {
        lemma_keeps_running(running, events, i, j);
    }
}

/// A job that was ordered to start is running as long as it has not ended.
proof fn lemma_keeps_running(running: bool, events: Seq<JobEvent>, i: int, j: int)
    requires
        0 <= i < j <= events.len(),
        events[i] is Order,
        forall|k: int| i < k < j ==> !(#[trigger] events[k] is Finish),
    ensures
        running_after_all(running, events, j),
    decreases j - i,
{
    if j > i + 1 {
        lemma_keeps_running(running, events, i, j - 1);
        assert(!(events[j - 1] is Finish));
    }
}

/// An order that comes while the job is not running starts it.
pub proof fn law_idle_job_starts(running: bool, events: Seq<JobEvent>, i: int)
    requires
        0 < i < events.len(),
        events[i - 1] is Finish,
        events[i] is Order,
    ensures
        starts_at(running, events, i),
{
}

/// An order starts a job that is not running, and no other; after it the job is running, until it
/// ends.
pub proof fn law_orders(running: bool)
    ensures
        starts(running, JobEvent::Order) <==> !running,
        !starts(running, JobEvent::Finish),
        running_after(running, JobEvent::Order),
        !running_after(running, JobEvent::Finish),
{
}

/// The answer to an order to update the table has exactly three members: the status and the message
/// that tell whether the update was started, and the time.
pub proof fn law_update_answers(started: bool, now: Seq<char>, reply: Reply)
    requires
        reply@ == update_reply(started, now),
        json_parse(reply@.body) == Some(update_tree(started, now)),
    ensures
        reply.status == if started {
            200u16
        } else {
            429u16
        },
        reply.content == Content::Json,
        json_parse(reply.body@) == Some(
            JsonTree::Obj(
                map![
                    "status"@ => JsonTree::Str(if started { "started"@ } else { "in_progress"@ }),
                    "message"@ => JsonTree::Str(if started { "Database update started"@ } else {
                        "Database update already in progress"@
                    }),
                    "timestamp"@ => JsonTree::Str(now),
                ],
            ),
        ),
{
}

/// The answer to an order to run the archiver has exactly three members: the status and the message
/// that tell whether the run for the location was started, and the time.
pub proof fn law_archiver_answers(location: Option<Seq<char>>, started: bool, now: Seq<char>, reply: Reply)
    requires
        reply@ == archiver_reply(location, started, now),
        json_parse(reply@.body) == Some(archiver_tree(location, started, now)),
    ensures
        reply.status == if location is None {
            400u16
        } else if started {
            200u16
        } else {
            429u16
        },
        reply.content == Content::Json,
        json_parse(reply.body@) == Some(
            JsonTree::Obj(
                map![
                    "status"@ => JsonTree::Str(if location is None {
                        "error"@
                    } else if started {
                        "started"@
                    } else {
                        "in_progress"@
                    }),
                    "message"@ => JsonTree::Str(match location {
                        None => "Missing required 'location' parameter"@,
                        Some(named) => if started {
                            "Archiver run started for location "@ + named
                        } else {
                            "Archiver already running"@
                        },
                    }),
                    "timestamp"@ => JsonTree::Str(now),
                ],
            ),
        ),
{
}

/// The answer to an order is read as a document that tells whether the job was started, and that
/// bears a time in UTC.
pub proof fn law_answers_bear_a_time(reply: ReplyView, location: Seq<char>, started: bool)
    ensures
        is_update_reply(reply, started) ==> exists|now: Seq<char>|
            #![trigger is_stamp(now)]
            is_stamp(now) && json_parse(reply.body) == Some(
                JsonTree::Obj(
                    map![
                        "status"@ => JsonTree::Str(if started { "started"@ } else { "in_progress"@ }),
                        "message"@ => JsonTree::Str(if started { "Database update started"@ } else {
                            "Database update already in progress"@
                        }),
                        "timestamp"@ => JsonTree::Str(now),
                    ],
                ),
            ),
        is_update_reply(reply, started) ==> reply.status == if started {
            200u16
        } else {
            429u16
        },
        is_archiver_reply(reply, Some(location), started) ==> exists|now: Seq<char>|
            #![trigger is_stamp(now)]
            is_stamp(now) && json_parse(reply.body) == Some(
                JsonTree::Obj(
                    map![
                        "status"@ => JsonTree::Str(if started { "started"@ } else { "in_progress"@ }),
                        "message"@ => JsonTree::Str(if started {
                            "Archiver run started for location "@ + location
                        } else {
                            "Archiver already running"@
                        }),
                        "timestamp"@ => JsonTree::Str(now),
                    ],
                ),
            ),
        is_archiver_reply(reply, Some(location), started) ==> reply.status == if started {
            200u16
        } else {
            429u16
        },
        is_archiver_reply(reply, None, started) ==> reply.status == 400 && exists|now: Seq<char>|
            #![trigger is_stamp(now)]
            is_stamp(now) && json_parse(reply.body) == Some(
                JsonTree::Obj(
                    map![
                        "status"@ => JsonTree::Str("error"@),
                        "message"@ => JsonTree::Str("Missing required 'location' parameter"@),
                        "timestamp"@ => JsonTree::Str(now),
                    ],
                ),
            ),
{
}

} // verus!
