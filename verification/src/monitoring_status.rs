use vstd::prelude::*;

verus! {

/// The aggregate status a monitoring check reports to its engine.
///
/// The variant order encodes severity: `OK` < `Warning` < `Critical` < `Unknown`.
#[derive(Copy, Clone, Debug, PartialEq, Eq, PartialOrd, Ord)]
pub enum MonitoringStatus {
    /// Definitive result, all values are in the expected range.
    OK,
    /// Definitive result, at least one value is inside the warning range.
    Warning,
    /// Definitive result, at least one value is inside the critical range.
    Critical,
    /// Uncertain result: the check could not be executed correctly.
    Unknown,
}

impl MonitoringStatus {
    /// The conventional process exit code for this status.
    pub fn exit_code(&self) -> (code: i32)
        ensures
            code == match self {
                MonitoringStatus::OK => 0int,
                MonitoringStatus::Warning => 1int,
                MonitoringStatus::Critical => 2int,
                MonitoringStatus::Unknown => 3int,
            },
    {
        match self {
            MonitoringStatus::OK => 0,
            MonitoringStatus::Warning => 1,
            MonitoringStatus::Critical => 2,
            MonitoringStatus::Unknown => 3,
        }
    }

    /// The human-readable name of this status.
    pub fn text(&self) -> (name: String)
        ensures
            name@ == match self {
                MonitoringStatus::OK => "OK"@,
                MonitoringStatus::Warning => "Warning"@,
                MonitoringStatus::Critical => "Critical"@,
                MonitoringStatus::Unknown => "Unknown"@,
            },
    {
        match self {
            MonitoringStatus::OK => String::from_str("OK"),
            MonitoringStatus::Warning => String::from_str("Warning"),
            MonitoringStatus::Critical => String::from_str("Critical"),
            MonitoringStatus::Unknown => String::from_str("Unknown"),
        }
    }
}

} // verus!
