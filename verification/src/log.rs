//! The lines of the log.
use crate::text::{join2, same_text};
use vstd::prelude::*;
use vstd::string::*;

verus! {

/// The colour of a message in the log.
#[derive(Clone, Copy, Debug, PartialEq, Eq, Structural)]
pub enum LogColor {
    Green,
    Yellow,
    Red,
    /// No colour.
    Plain,
}

/// The colour of the messages of a type.
pub open spec fn color_of(log_type: Seq<char>) -> LogColor {
    if log_type == "INFO"@ {
        LogColor::Green
    } else if log_type == "WARN"@ {
        LogColor::Yellow
    } else if log_type == "ERROR"@ {
        LogColor::Red
    } else {
        LogColor::Plain
    }
}

/// The colour of the messages of a type.
pub fn log_color(log_type: &str) -> (color: LogColor)
    ensures
        color == color_of(log_type@),
{
    if same_text(log_type, "INFO") {
        LogColor::Green
    } else if same_text(log_type, "WARN") {
        LogColor::Yellow
    } else if same_text(log_type, "ERROR") {
        LogColor::Red
    } else {
        LogColor::Plain
    }
}

/// A line of the log, out of its time and its message as they are to be shown.
pub fn log_line(timestamp: &str, message: &str) -> (line: String)
    ensures
        line@ == "["@ + timestamp@ + "] "@ + message@,
{
    join2("[", timestamp).concat("] ").concat(message)
}

/// Information is green, warnings are yellow, errors are red, and nothing else has a colour.
pub proof fn law_colours(log_type: Seq<char>)
    ensures
        color_of(log_type) == LogColor::Green <==> log_type == "INFO"@,
        color_of(log_type) == LogColor::Yellow <==> log_type == "WARN"@,
        color_of(log_type) == LogColor::Red <==> log_type == "ERROR"@,
        color_of(log_type) == LogColor::Plain <==> log_type != "INFO"@ && log_type != "WARN"@ && log_type != "ERROR"@,
{
    reveal_strlit("INFO");
    reveal_strlit("WARN");
    reveal_strlit("ERROR");
    assert("INFO"@[0] == 'I');
    assert("WARN"@[0] == 'W');
    assert("ERROR"@[0] == 'E');
}

} // verus!
