//! Why a run, or one side of it, ended without success.

use vstd::prelude::*;

verus! {

/// The failures of a migration. The first one that a side meets ends that
/// side; nothing is retried.
#[derive(Clone, Copy, Debug, PartialEq, Eq, Structural)]
pub enum MigrateError {
    /// The connection to the store could not be established.
    Connection,
    /// A round trip of the keyspace enumeration failed.
    Scan,
    /// A round trip that extracts serialized replicas failed.
    Extraction,
    /// A round trip that replays serialized replicas failed.
    Restore,
    /// A record was sent after the receiving side had gone.
    ChannelClosed,
    /// The archive could not be opened, read or written.
    Io,
    /// The bytes at hand do not begin with a record.
    Decode,
    /// The string does not name a store.
    InvalidUrl,
    /// The driver answered a request that was not the pending one.
    Protocol,
}

impl MigrateError {
    /// A short description for the operator.
    pub fn message(&self) -> (text: &'static str)
        ensures
            text@ == self.message_spec()@,
    {
        match self {
            MigrateError::Connection => "cannot connect to the store",
            MigrateError::Scan => "enumerating the keyspace failed",
            MigrateError::Extraction => "extracting serialized replicas failed",
            MigrateError::Restore => "replaying serialized replicas failed",
            MigrateError::ChannelClosed => "the receiving side has gone",
            MigrateError::Io => "archive input or output failed",
            MigrateError::Decode => "malformed or truncated archive record",
            MigrateError::InvalidUrl => "not a store address",
            MigrateError::Protocol => "unexpected answer to a pending request",
        }
    }

    /// The description of each failure.
    pub open spec fn message_spec(&self) -> &'static str {
        match self {
            MigrateError::Connection => "cannot connect to the store",
            MigrateError::Scan => "enumerating the keyspace failed",
            MigrateError::Extraction => "extracting serialized replicas failed",
            MigrateError::Restore => "replaying serialized replicas failed",
            MigrateError::ChannelClosed => "the receiving side has gone",
            MigrateError::Io => "archive input or output failed",
            MigrateError::Decode => "malformed or truncated archive record",
            MigrateError::InvalidUrl => "not a store address",
            MigrateError::Protocol => "unexpected answer to a pending request",
        }
    }
}

} // verus!
