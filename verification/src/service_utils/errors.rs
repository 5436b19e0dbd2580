//! The errors of the store, organized by subsystem.

use crate::service_utils::text;
use vstd::prelude::*;

verus! {

/// Comprehensive error types for the distributed key-value store.
///
/// Organized by subsystem to enable targeted error handling and proper
/// error propagation through the system.
#[derive(Debug)]
pub enum ServiceError {
    // =========================================================================
    // Concurrency Errors
    // =========================================================================
    /// Operation was throttled due to resource constraints
    ThrottlingError(String),
    /// A race condition was detected during a concurrent operation
    RaceConditionError,
    // =========================================================================
    // Network Errors
    // =========================================================================
    /// Failed to connect to a remote node
    ConnectionError { node_id: u32, message: String },
    /// Connection to a remote node was lost
    ConnectionLost { node_id: u32, message: String },
    /// Network timeout occurred
    TimeoutError { operation: String, timeout_ms: u64 },
    /// Message was too large to process
    MessageTooLarge { size: usize, max_size: usize },
    // =========================================================================
    // Consensus Errors
    // =========================================================================
    /// Operation rejected because this node is not the leader
    NotLeader { leader_id: Option<u32> },
    /// Failed to achieve quorum for an operation
    QuorumNotReached { required: u32, achieved: u32 },
    /// Term mismatch during Raft operation
    TermMismatch { expected: u64, actual: u64 },
    /// Log entry was rejected (e.g., during replication)
    LogEntryRejected { index: u64, reason: String },
    // =========================================================================
    // Persistence Errors
    // =========================================================================
    /// Failed to write to persistent storage
    PersistenceWriteError { message: String },
    /// Failed to read from persistent storage
    PersistenceReadError { message: String },
    /// Data corruption detected in persistent storage
    DataCorruption { message: String },
    // =========================================================================
    // Configuration Errors
    // =========================================================================
    /// Invalid configuration value
    ConfigError { field: String, message: String },
    /// Missing required configuration
    MissingConfig { field: String },
    // =========================================================================
    // Serialization Errors
    // =========================================================================
    /// Failed to serialize a message
    SerializationError { message: String },
    /// Failed to deserialize a message
    DeserializationError { message: String },
    // =========================================================================
    // Channel Errors
    // =========================================================================
    /// A channel send operation failed (receiver dropped)
    ChannelSendError { channel: String },
    /// A channel receive operation failed (sender dropped)
    ChannelRecvError { channel: String },
    /// Channel is full and cannot accept more messages
    ChannelFull { channel: String },
    // =========================================================================
    // Internal Errors
    // =========================================================================
    /// An internal invariant was violated (programming error)
    InternalError { message: String },
    /// Operation was cancelled
    Cancelled { operation: String },
}

impl ServiceError {
    /// What a reader is told of the error.
    pub open spec fn message(self) -> Seq<char> {
        match self {
            ServiceError::ThrottlingError(msg) => "Throttling: "@ + msg@,
            ServiceError::RaceConditionError => "Race condition detected"@,
            ServiceError::ConnectionError { node_id, message } => {
                "Connection error to node "@ + text::decimal(node_id as nat) + ": "@ + message@
            },
            ServiceError::ConnectionLost { node_id, message } => {
                "Connection lost to node "@ + text::decimal(node_id as nat) + ": "@ + message@
            },
            ServiceError::TimeoutError { operation, timeout_ms } => {
                "Timeout after "@ + text::decimal(timeout_ms as nat) + "ms during: "@ + operation@
            },
            ServiceError::MessageTooLarge { size, max_size } => {
                "Message size "@ + text::decimal(size as nat) + " exceeds maximum "@ + text::decimal(max_size as nat)
            },
            ServiceError::NotLeader { leader_id: Some(id) } => {
                "Not leader, current leader is node "@ + text::decimal(id as nat)
            },
            ServiceError::NotLeader { leader_id: None } => "Not leader, leader unknown"@,
            ServiceError::QuorumNotReached { required, achieved } => {
                "Quorum not reached: need "@ + text::decimal(required as nat) + ", got "@ + text::decimal(achieved as nat)
            },
            ServiceError::TermMismatch { expected, actual } => {
                "Term mismatch: expected "@ + text::decimal(expected as nat) + ", got "@ + text::decimal(actual as nat)
            },
            ServiceError::LogEntryRejected { index, reason } => {
                "Log entry at index "@ + text::decimal(index as nat) + " rejected: "@ + reason@
            },
            ServiceError::PersistenceWriteError { message } => {
                "Persistence write error: "@ + message@
            },
            ServiceError::PersistenceReadError { message } => {
                "Persistence read error: "@ + message@
            },
            ServiceError::DataCorruption { message } => "Data corruption: "@ + message@,
            ServiceError::ConfigError { field, message } => {
                "Config error in '"@ + field@ + "': "@ + message@
            },
            ServiceError::MissingConfig { field } => "Missing required config: "@ + field@,
            ServiceError::SerializationError { message } => "Serialization error: "@ + message@,
            ServiceError::DeserializationError { message } => "Deserialization error: "@ + message@,
            ServiceError::ChannelSendError { channel } => {
                "Channel send error on '"@ + channel@ + "'"@
            },
            ServiceError::ChannelRecvError { channel } => {
                "Channel receive error on '"@ + channel@ + "'"@
            },
            ServiceError::ChannelFull { channel } => "Channel '"@ + channel@ + "' is full"@,
            ServiceError::InternalError { message } => "Internal error: "@ + message@,
            ServiceError::Cancelled { operation } => "Operation cancelled: "@ + operation@,
        }
    }

    /// What a reader is told of the error.
    pub fn to_string(&self) -> (message: String)
        ensures
            message@ == self.message(),
    {
        match self {
            // Concurrency
            ServiceError::ThrottlingError(msg) => {
                text::concat2("Throttling: ", msg.as_str())
            },
            ServiceError::RaceConditionError => "Race condition detected".to_owned(),

            // Network
            ServiceError::ConnectionError { node_id, message } => {
                let node = text::decimal_text(*node_id as u64);
                text::concat4("Connection error to node ", node.as_str(), ": ", message.as_str())
            },
            ServiceError::ConnectionLost { node_id, message } => {
                let node = text::decimal_text(*node_id as u64);
                text::concat4("Connection lost to node ", node.as_str(), ": ", message.as_str())
            },
            ServiceError::TimeoutError { operation, timeout_ms } => {
                let timeout = text::decimal_text(*timeout_ms);
                text::concat4("Timeout after ", timeout.as_str(), "ms during: ", operation.as_str())
            },
            ServiceError::MessageTooLarge { size, max_size } => {
                let size = text::decimal_text(*size as u64);
                let max_size = text::decimal_text(*max_size as u64);
                text::concat4("Message size ", size.as_str(), " exceeds maximum ", max_size.as_str())
            },

            // Consensus
            ServiceError::NotLeader { leader_id: Some(id) } => {
                let id = text::decimal_text(*id as u64);
                text::concat2("Not leader, current leader is node ", id.as_str())
            },
            ServiceError::NotLeader { leader_id: None } => {
                "Not leader, leader unknown".to_owned()
            },
            ServiceError::QuorumNotReached { required, achieved } => {
                let required = text::decimal_text(*required as u64);
                let achieved = text::decimal_text(*achieved as u64);
                text::concat4("Quorum not reached: need ", required.as_str(), ", got ", achieved.as_str())
            },
            ServiceError::TermMismatch { expected, actual } => {
                let expected = text::decimal_text(*expected);
                let actual = text::decimal_text(*actual);
                text::concat4("Term mismatch: expected ", expected.as_str(), ", got ", actual.as_str())
            },
            ServiceError::LogEntryRejected { index, reason } => {
                let index = text::decimal_text(*index);
                text::concat4("Log entry at index ", index.as_str(), " rejected: ", reason.as_str())
            },

            // Persistence
            ServiceError::PersistenceWriteError { message } => {
                text::concat2("Persistence write error: ", message.as_str())
            },
            ServiceError::PersistenceReadError { message } => {
                text::concat2("Persistence read error: ", message.as_str())
            },
            ServiceError::DataCorruption { message } => {
                text::concat2("Data corruption: ", message.as_str())
            },

            // Configuration
            ServiceError::ConfigError { field, message } => {
                text::concat4("Config error in '", field.as_str(), "': ", message.as_str())
            },
            ServiceError::MissingConfig { field } => {
                text::concat2("Missing required config: ", field.as_str())
            },

            // Serialization
            ServiceError::SerializationError { message } => {
                text::concat2("Serialization error: ", message.as_str())
            },
            ServiceError::DeserializationError { message } => {
                text::concat2("Deserialization error: ", message.as_str())
            },

            // Channel
            ServiceError::ChannelSendError { channel } => {
                text::concat3("Channel send error on '", channel.as_str(), "'")
            },
            ServiceError::ChannelRecvError { channel } => {
                text::concat3("Channel receive error on '", channel.as_str(), "'")
            },
            ServiceError::ChannelFull { channel } => {
                text::concat3("Channel '", channel.as_str(), "' is full")
            },

            // Internal
            ServiceError::InternalError { message } => {
                text::concat2("Internal error: ", message.as_str())
            },
            ServiceError::Cancelled { operation } => {
                text::concat2("Operation cancelled: ", operation.as_str())
            },
        }
    }
}

impl ServiceError {
    /// Numbers the variants, so that two errors can be compared by their kind.
    pub open spec fn kind(self) -> u8 {
        match self {
            ServiceError::ThrottlingError(_) => 0,
            ServiceError::RaceConditionError => 1,
            ServiceError::ConnectionError { .. } => 2,
            ServiceError::ConnectionLost { .. } => 3,
            ServiceError::TimeoutError { .. } => 4,
            ServiceError::MessageTooLarge { .. } => 5,
            ServiceError::NotLeader { .. } => 6,
            ServiceError::QuorumNotReached { .. } => 7,
            ServiceError::TermMismatch { .. } => 8,
            ServiceError::LogEntryRejected { .. } => 9,
            ServiceError::PersistenceWriteError { .. } => 10,
            ServiceError::PersistenceReadError { .. } => 11,
            ServiceError::DataCorruption { .. } => 12,
            ServiceError::ConfigError { .. } => 13,
            ServiceError::MissingConfig { .. } => 14,
            ServiceError::SerializationError { .. } => 15,
            ServiceError::DeserializationError { .. } => 16,
            ServiceError::ChannelSendError { .. } => 17,
            ServiceError::ChannelRecvError { .. } => 18,
            ServiceError::ChannelFull { .. } => 19,
            ServiceError::InternalError { .. } => 20,
            ServiceError::Cancelled { .. } => 21,
        }
    }

    fn kind_number(&self) -> (kind: u8)
        ensures
            kind == self.kind(),
    {
        match self {
            ServiceError::ThrottlingError(_) => 0,
            ServiceError::RaceConditionError => 1,
            ServiceError::ConnectionError { .. } => 2,
            ServiceError::ConnectionLost { .. } => 3,
            ServiceError::TimeoutError { .. } => 4,
            ServiceError::MessageTooLarge { .. } => 5,
            ServiceError::NotLeader { .. } => 6,
            ServiceError::QuorumNotReached { .. } => 7,
            ServiceError::TermMismatch { .. } => 8,
            ServiceError::LogEntryRejected { .. } => 9,
            ServiceError::PersistenceWriteError { .. } => 10,
            ServiceError::PersistenceReadError { .. } => 11,
            ServiceError::DataCorruption { .. } => 12,
            ServiceError::ConfigError { .. } => 13,
            ServiceError::MissingConfig { .. } => 14,
            ServiceError::SerializationError { .. } => 15,
            ServiceError::DeserializationError { .. } => 16,
            ServiceError::ChannelSendError { .. } => 17,
            ServiceError::ChannelRecvError { .. } => 18,
            ServiceError::ChannelFull { .. } => 19,
            ServiceError::InternalError { .. } => 20,
            ServiceError::Cancelled { .. } => 21,
        }
    }
}

/// Throttling errors are equal if their texts are. Other errors are equal if
/// they are of the same kind, whatever they carry.
impl PartialEq for ServiceError {
    fn eq(&self, other: &Self) -> (equal: bool) {
        match (self, other) {
            (ServiceError::ThrottlingError(a), ServiceError::ThrottlingError(b)) => *a == *b,
            (ServiceError::RaceConditionError, ServiceError::RaceConditionError) => true,
            _ => self.kind_number() == other.kind_number(),
        }
    }
}

impl vstd::std_specs::cmp::PartialEqSpecImpl for ServiceError {
    open spec fn obeys_eq_spec() -> bool {
        true
    }

    open spec fn eq_spec(&self, other: &Self) -> bool {
        match (*self, *other) {
            (ServiceError::ThrottlingError(a), ServiceError::ThrottlingError(b)) => a@ == b@,
            (ServiceError::RaceConditionError, ServiceError::RaceConditionError) => true,
            _ => self.kind() == other.kind(),
        }
    }
}

/// Result type alias using ServiceError
pub type ServiceResult<T> = Result<T, ServiceError>;

/// What a channel gives back with a message that it did not take.
#[verifier::external_type_specification]
#[verifier::external_body]
#[verifier::reject_recursive_types(T)]
pub struct ExSendError<T>(crossbeam_channel::SendError<T>);

/// Helper trait for converting channel errors to ServiceError
pub trait ChannelErrorExt<T>: Sized {
    /// What came of the operation, if it succeeded.
    spec fn outcome(self) -> Option<T>;

    fn map_channel_err(self, channel_name: &str) -> (result: ServiceResult<T>)
        ensures
            match self.outcome() {
                Some(value) => result == Ok::<T, ServiceError>(value),
                None => result is Err && result->Err_0 is ChannelSendError
                    && result->Err_0->ChannelSendError_channel@ == channel_name@,
            },
    ;
}

impl<T> ChannelErrorExt<T> for Result<T, crossbeam_channel::SendError<T>> {
    open spec fn outcome(self) -> Option<T> {
        match self {
            Ok(value) => Some(value),
            Err(_) => None,
        }
    }

    fn map_channel_err(self, channel_name: &str) -> (result: ServiceResult<T>) {
        match self {
            Ok(value) => Ok(value),
            Err(_) => Err(ServiceError::ChannelSendError { channel: channel_name.to_owned() }),
        }
    }
}

} // verus!
