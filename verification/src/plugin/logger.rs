//! The values of the `logger` function, which prints what it is given.
use vstd::prelude::*;
use vstd::string::*;
use crate::plugin::log::base::log_line_spec;

verus! {

/// The arguments of `logger`.
#[derive(Debug, Clone, PartialEq, Eq)]
pub struct LoggerRequest {
    pub level: String,
    pub message: String,
    pub time: String,
}

/// The answer of `logger`.
#[derive(Debug, Clone, Copy, PartialEq, Eq, Structural)]
pub struct LoggerResponse;

impl LoggerRequest {
    /// The line that `logger` prints for the request: `time - [level] - message`.
    pub fn line(&self) -> (line: String)
        ensures
            line@ == log_line_spec(self.time@, self.level@, self.message@),
    {
        proof {
            reveal_strlit(" - [");
            reveal_strlit("] - ");
        }
        let mut line = self.time.clone();
        line.append(" - [");
        line.append(self.level.as_str());
        line.append("] - ");
        line.append(self.message.as_str());
        line
    }
}

} // verus!
