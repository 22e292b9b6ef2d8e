//! The line that a log call prints.
use vstd::prelude::*;
use vstd::string::*;

verus! {

/// The arguments of a log call.
#[derive(Debug, Clone, PartialEq, Eq)]
pub struct Request {
    pub message: String,
    pub time: String,
}

/// The answer of a log call.
#[derive(Debug, Clone, Copy, PartialEq, Eq, Structural)]
pub struct Response;

/// The line for a message logged at `level`: `time - [level] - message`.
pub open spec fn log_line_spec(time: Seq<char>, level: Seq<char>, message: Seq<char>) -> Seq<char> {
    time + " - ["@ + level + "] - "@ + message
}

/// The line that a log call at `level` prints.
pub fn log_line(level: &str, request: &Request) -> (line: String)
    ensures
        line@ == log_line_spec(request.time@, level@, request.message@),
{
    proof {
        reveal_strlit(" - [");
        reveal_strlit("] - ");
    }
    let mut line = request.time.clone();
    line.append(" - [");
    line.append(level);
    line.append("] - ");
    line.append(request.message.as_str());
    line
}

/// The function names of the log plugin, each with the level it logs at.
pub fn log_functions() -> (functions: Vec<(&'static str, &'static str)>)
    ensures
        functions@.len() == 4,
        functions@[0].0@ == "log.debug"@ && functions@[0].1@ == "DEBUG"@,
        functions@[1].0@ == "log.info"@ && functions@[1].1@ == "INFO"@,
        functions@[2].0@ == "log.warn"@ && functions@[2].1@ == "WARN"@,
        functions@[3].0@ == "log.error"@ && functions@[3].1@ == "ERROR"@,
{
    vec![("log.debug", "DEBUG"), ("log.info", "INFO"), ("log.warn", "WARN"), ("log.error", "ERROR")]
}

} // verus!
