use vstd::prelude::*;

use crate::types::fields::own;

verus! {

/// One message of the log.
#[derive(Debug, Clone)]
pub struct LogItem {
    /// The kind of message: 0 for internal messages such as test-start, 1
    /// for log output of the units, 2 for internal debug messages.
    pub message_type: u32,
    /// The name of the unit that made the message.
    pub unit: String,
    /// The kind of unit, such as "test", "logger" or "trigger".
    pub unit_type: String,
    /// Seconds since the epoch.
    pub unix_time: u64,
    /// Nanoseconds within that second.
    pub unix_time_nsecs: u32,
    /// The text of the message, without line feeds.
    pub message: String,
}

impl LogItem {
    /// A debug message of the unit `unit` (of kind `unit_type`), made at the
    /// given time.
    pub fn debug(unit_type: &str, unit: &str, msg: &str, unix_time: u64, unix_time_nsecs: u32) -> (r:
        LogItem)
        ensures
            r.message_type == 2,
            r.unit@ == unit@,
            r.unit_type@ == unit_type@,
            r.unix_time == unix_time,
            r.unix_time_nsecs == unix_time_nsecs,
            r.message@ == msg@,
    {
        LogItem {
            message_type: 2,
            unit: own(unit),
            unit_type: own(unit_type),
            unix_time: unix_time,
            unix_time_nsecs: unix_time_nsecs,
            message: own(msg),
        }
    }
}

} // verus!
