//! The kinds of failure that the supervisor reports.

use vstd::prelude::*;

verus! {

/// A closed set of failure kinds; callers flatten them to text only at the
/// outermost layer.
#[derive(Clone, Copy, Debug, PartialEq, Eq, Structural)]
pub enum ErrorKind {
    /// The managed binary is missing.
    NotInstalled,
    /// The OS refused to create the child process.
    Spawn,
    /// Probing or killing the child process failed.
    ProcessIo,
    /// Reading or writing a configuration file failed.
    ConfigIo,
    /// A restore target that does not split into file, timestamp and suffix.
    InvalidBackupName,
    /// Neither the admin API nor the local data store could be read.
    StatusUnavailable,
}

} // verus!
