//! The log's record format: a named sink whose every line carries a
//! timestamp in brackets before the message. Writing the lines out is the
//! caller's concern; this module fixes what each line says.

use vstd::prelude::*;

use vstd::string::StringExecFns;

verus! {

/// A named append-only log sink.
pub struct Log {
    pub name: String,
}

impl Log {
    /// A log writing under this name.
    pub fn new(name: &str) -> (r: Log)
        ensures
            r.name@ == name@,
    {
        Log { name: name.to_owned() }
    }

    /// The line recorded for a message: the timestamp in brackets, a space,
    /// then the message.
    pub fn format_line(timestamp: &str, data: &str) -> (r: String)
        ensures
            r@ == "["@ + timestamp@ + "] "@ + data@,
    {
        let mut line = String::from_str("[");
        line.append(timestamp);
        line.append("] ");
        line.append(data);
        line
    }

    /// The line recorded when the log is shut down.
    pub fn shutdown_line(timestamp: &str) -> (r: String)
        ensures
            r@ == "["@ + timestamp@ + "] "@ + "Log stopped"@,
    {
        Log::format_line(timestamp, "Log stopped")
    }
}

} // verus!
