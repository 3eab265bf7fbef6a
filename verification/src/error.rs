//! The error codes that brokers put in responses.
use vstd::prelude::*;
use crate::wire::{Schema, Value, Parsed, parse_value, encode_value, wf_value, is_error_code, lemma_int_bytes_len, parse_int};
use crate::codec::{Wire, Encode, agrees, be_i16, put_int};

verus! {

/// A protocol error code; `NoError` is success.
#[derive(Clone, Copy, PartialEq, Eq, Debug, Structural)]
pub enum ErrorCode {
    /// The server experienced an unexpected error when processing the request.
    UnknownServerError,
    NoError,
    /// The requested offset is not within the range of offsets maintained by the server.
    OffsetOutOfRange,
    /// This message has failed its CRC checksum, exceeds the valid size, has a null key for a compacted topic, or is otherwise corrupt.
    CorruptMessage,
    /// This server does not host this topic-partition.
    UnknownTopicOrPartition,
    /// The requested fetch size is invalid.
    InvalidFetchSize,
    /// There is no leader for this topic-partition as we are in the middle of a leadership election.
    LeaderNotAvailable,
    /// This server is not the leader for that topic-partition.
    NotLeaderForPartition,
    /// The request timed out.
    RequestTimedOut,
    /// The broker is not available.
    BrokerNotAvailable,
    /// The replica is not available for the requested topic-partition.
    ReplicaNotAvailable,
    /// The request included a message larger than the max message size the server will accept.
    MessageTooLarge,
    /// The controller moved to another broker.
    StaleControllerEpoch,
    /// The metadata field of the offset request was too large.
    OffsetMetadataTooLarge,
    /// The server disconnected before a response was received.
    NetworkException,
    /// The coordinator is loading and hence can't process requests.
    CoordinatorLoadInProgress,
    /// The coordinator is not available.
    CoordinatorNotAvailable,
    /// This is not the correct coordinator.
    NotCoordinator,
    /// The request attempted to perform an operation on an invalid topic.
    InvalidTopicException,
    /// The request included message batch larger than the configured segment size on the server.
    RecordListTooLarge,
    /// Messages are rejected since there are fewer in-sync replicas than required.
    NotEnoughReplicas,
    /// Messages are written to the log, but to fewer in-sync replicas than required.
    NotEnoughReplicasAfterAppend,
    /// Produce request specified an invalid value for required acks.
    InvalidRequiredAcks,
    /// Specified group generation id is not valid.
    IllegalGeneration,
    /// The group member's supported protocols are incompatible with those of existing members or first group member tried to join with empty protocol type or empty protocol list.
    InconsistentGroupProtocol,
    /// The configured groupId is invalid.
    InvalidGroupId,
    /// The coordinator is not aware of this member.
    UnknownMemberId,
    /// The session timeout is not within the range allowed by the broker (as configured by group.min.session.timeout.ms and group.max.session.timeout.ms).
    InvalidSessionTimeout,
    /// The group is rebalancing, so a rejoin is needed.
    RebalanceInProgress,
    /// The committing offset data size is not valid.
    InvalidCommitOffsetSize,
    /// Not authorized to access topics: [Topic authorization failed.]
    TopicAuthorizationFailed,
    /// Not authorized to access group: Group authorization failed.
    GroupAuthorizationFailed,
    /// Cluster authorization failed.
    ClusterAuthorizationFailed,
    /// The timestamp of the message is out of acceptable range.
    InvalidTimestamp,
    /// The broker does not support the requested SASL mechanism.
    UnsupportedSaslMechanism,
    /// Request is not valid given the current SASL state.
    IllegalSaslState,
    /// The version of API is not supported.
    UnsupportedVersion,
    /// Topic with this name already exists.
    TopicAlreadyExists,
    /// Number of partitions is below 1.
    InvalidPartitions,
    /// Replication factor is below 1 or larger than the number of available brokers.
    InvalidReplicationFactor,
    /// Replica assignment is invalid.
    InvalidReplicaAssignment,
    /// Configuration is invalid.
    InvalidConfig,
    /// This is not the correct controller for this cluster.
    NotController,
    /// This most likely occurs because of a request being malformed by the client library or the message was sent to an incompatible broker. See the broker logs for more details.
    InvalidRequest,
    /// The message format version on the broker does not support the request.
    UnsupportedForMessageFormat,
    /// Request parameters do not satisfy the configured policy.
    PolicyViolation,
    /// The broker received an out of order sequence number.
    OutOfOrderSequenceNumber,
    /// The broker received a duplicate sequence number.
    DuplicateSequenceNumber,
    /// Producer attempted an operation with an old epoch. Either there is a newer producer with the same transactionalId, or the producer's transaction has been expired by the broker.
    InvalidProducerEpoch,
    /// The producer attempted a transactional operation in an invalid state.
    InvalidTxnState,
    /// The producer attempted to use a producer id which is not currently assigned to its transactional id.
    InvalidProducerIdMapping,
    /// The transaction timeout is larger than the maximum value allowed by the broker (as configured by transaction.max.timeout.ms).
    InvalidTransactionTimeout,
    /// The producer attempted to update a transaction while another concurrent operation on the same transaction was ongoing.
    ConcurrentTransactions,
    /// Indicates that the transaction coordinator sending a WriteTxnMarker is no longer the current coordinator for a given producer.
    TransactionCoordinatorFenced,
    /// Transactional Id authorization failed.
    TransactionalIdAuthorizationFailed,
    /// Security features are disabled.
    SecurityDisabled,
    /// The broker did not attempt to execute this operation. This may happen for batched RPCs where some operations in the batch failed, causing the broker to respond without trying the rest.
    OperationNotAttempted,
    /// Disk error when trying to access log file on the disk.
    KafkaStorageError,
    /// The user-specified log directory is not found in the broker config.
    LogDirNotFound,
    /// SASL Authentication failed.
    SaslAuthenticationFailed,
    /// This exception is raised by the broker if it could not locate the producer metadata associated with the producerId in question. This could happen if, for instance, the producer's records were deleted because their retention time had elapsed. Once the last records of the producerId are removed, the producer's metadata is removed from the broker, and future appends by the producer will return this exception.
    UnknownProducerId,
    /// A partition reassignment is in progress.
    ReassignmentInProgress,
    /// Delegation Token feature is not enabled.
    DelegationTokenAuthDisabled,
    /// Delegation Token is not found on server.
    DelegationTokenNotFound,
    /// Specified Principal is not valid Owner/Renewer.
    DelegationTokenOwnerMismatch,
    /// Delegation Token requests are not allowed on PLAINTEXT/1-way SSL channels and on delegation token authenticated channels.
    DelegationTokenRequestNotAllowed,
    /// Delegation Token authorization failed.
    DelegationTokenAuthorizationFailed,
    /// Delegation Token is expired.
    DelegationTokenExpired,
    /// Supplied principalType is not supported.
    InvalidPrincipalType,
    /// The group is not empty.
    NonEmptyGroup,
    /// The group id does not exist.
    GroupIdNotFound,
    /// The fetch session ID was not found.
    FetchSessionIdNotFound,
    /// The fetch session epoch is invalid.
    InvalidFetchSessionEpoch,
    /// There is no listener on the leader broker that matches the listener on which metadata request was processed.
    ListenerNotFound,
    /// Topic deletion is disabled.
    TopicDeletionDisabled,
    /// The leader epoch in the request is older than the epoch on the broker
    FencedLeaderEpoch,
    /// The leader epoch in the request is newer than the epoch on the broker
    UnknownLeaderEpoch,
    /// The requesting client does not support the compression type of given partition.
    UnsupportedCompressionType,
    /// Broker epoch has changed
    StaleBrokerEpoch,
    /// The leader high watermark has not caught up from a recent leader election so the offsets cannot be guaranteed to be monotonically increasing
    OffsetNotAvailable,
    /// The group member needs to have a valid member id before actually entering a consumer group
    MemberIdRequired,
    /// The preferred leader was not available
    PreferredLeaderNotAvailable,
    /// Consumer group The consumer group has reached its max size. already has the configured maximum number of members.
    GroupMaxSizeReached,
    /// The broker rejected this static consumer since another consumer with the same group.instance.id has registered with a different member.id.
    FencedInstanceId,
}

impl ErrorCode {
    /// The number that stands for the error on the wire.
    pub open spec fn spec_code(self) -> int {
        match self {
            ErrorCode::UnknownServerError => -1,
            ErrorCode::NoError => 0,
            ErrorCode::OffsetOutOfRange => 1,
            ErrorCode::CorruptMessage => 2,
            ErrorCode::UnknownTopicOrPartition => 3,
            ErrorCode::InvalidFetchSize => 4,
            ErrorCode::LeaderNotAvailable => 5,
            ErrorCode::NotLeaderForPartition => 6,
            ErrorCode::RequestTimedOut => 7,
            ErrorCode::BrokerNotAvailable => 8,
            ErrorCode::ReplicaNotAvailable => 9,
            ErrorCode::MessageTooLarge => 10,
            ErrorCode::StaleControllerEpoch => 11,
            ErrorCode::OffsetMetadataTooLarge => 12,
            ErrorCode::NetworkException => 13,
            ErrorCode::CoordinatorLoadInProgress => 14,
            ErrorCode::CoordinatorNotAvailable => 15,
            ErrorCode::NotCoordinator => 16,
            ErrorCode::InvalidTopicException => 17,
            ErrorCode::RecordListTooLarge => 18,
            ErrorCode::NotEnoughReplicas => 19,
            ErrorCode::NotEnoughReplicasAfterAppend => 20,
            ErrorCode::InvalidRequiredAcks => 21,
            ErrorCode::IllegalGeneration => 22,
            ErrorCode::InconsistentGroupProtocol => 23,
            ErrorCode::InvalidGroupId => 24,
            ErrorCode::UnknownMemberId => 25,
            ErrorCode::InvalidSessionTimeout => 26,
            ErrorCode::RebalanceInProgress => 27,
            ErrorCode::InvalidCommitOffsetSize => 28,
            ErrorCode::TopicAuthorizationFailed => 29,
            ErrorCode::GroupAuthorizationFailed => 30,
            ErrorCode::ClusterAuthorizationFailed => 31,
            ErrorCode::InvalidTimestamp => 32,
            ErrorCode::UnsupportedSaslMechanism => 33,
            ErrorCode::IllegalSaslState => 34,
            ErrorCode::UnsupportedVersion => 35,
            ErrorCode::TopicAlreadyExists => 36,
            ErrorCode::InvalidPartitions => 37,
            ErrorCode::InvalidReplicationFactor => 38,
            ErrorCode::InvalidReplicaAssignment => 39,
            ErrorCode::InvalidConfig => 40,
            ErrorCode::NotController => 41,
            ErrorCode::InvalidRequest => 42,
            ErrorCode::UnsupportedForMessageFormat => 43,
            ErrorCode::PolicyViolation => 44,
            ErrorCode::OutOfOrderSequenceNumber => 45,
            ErrorCode::DuplicateSequenceNumber => 46,
            ErrorCode::InvalidProducerEpoch => 47,
            ErrorCode::InvalidTxnState => 48,
            ErrorCode::InvalidProducerIdMapping => 49,
            ErrorCode::InvalidTransactionTimeout => 50,
            ErrorCode::ConcurrentTransactions => 51,
            ErrorCode::TransactionCoordinatorFenced => 52,
            ErrorCode::TransactionalIdAuthorizationFailed => 53,
            ErrorCode::SecurityDisabled => 54,
            ErrorCode::OperationNotAttempted => 55,
            ErrorCode::KafkaStorageError => 56,
            ErrorCode::LogDirNotFound => 57,
            ErrorCode::SaslAuthenticationFailed => 58,
            ErrorCode::UnknownProducerId => 59,
            ErrorCode::ReassignmentInProgress => 60,
            ErrorCode::DelegationTokenAuthDisabled => 61,
            ErrorCode::DelegationTokenNotFound => 62,
            ErrorCode::DelegationTokenOwnerMismatch => 63,
            ErrorCode::DelegationTokenRequestNotAllowed => 64,
            ErrorCode::DelegationTokenAuthorizationFailed => 65,
            ErrorCode::DelegationTokenExpired => 66,
            ErrorCode::InvalidPrincipalType => 67,
            ErrorCode::NonEmptyGroup => 68,
            ErrorCode::GroupIdNotFound => 69,
            ErrorCode::FetchSessionIdNotFound => 70,
            ErrorCode::InvalidFetchSessionEpoch => 71,
            ErrorCode::ListenerNotFound => 72,
            ErrorCode::TopicDeletionDisabled => 73,
            ErrorCode::FencedLeaderEpoch => 74,
            ErrorCode::UnknownLeaderEpoch => 75,
            ErrorCode::UnsupportedCompressionType => 76,
            ErrorCode::StaleBrokerEpoch => 77,
            ErrorCode::OffsetNotAvailable => 78,
            ErrorCode::MemberIdRequired => 79,
            ErrorCode::PreferredLeaderNotAvailable => 80,
            ErrorCode::GroupMaxSizeReached => 81,
            ErrorCode::FencedInstanceId => 82,
        }
    }

    /// The number that stands for the error on the wire.
    pub fn code(&self) -> (c: i16)
        ensures
            c == self.spec_code(),
    {
        match self {
            ErrorCode::UnknownServerError => -1,
            ErrorCode::NoError => 0,
            ErrorCode::OffsetOutOfRange => 1,
            ErrorCode::CorruptMessage => 2,
            ErrorCode::UnknownTopicOrPartition => 3,
            ErrorCode::InvalidFetchSize => 4,
            ErrorCode::LeaderNotAvailable => 5,
            ErrorCode::NotLeaderForPartition => 6,
            ErrorCode::RequestTimedOut => 7,
            ErrorCode::BrokerNotAvailable => 8,
            ErrorCode::ReplicaNotAvailable => 9,
            ErrorCode::MessageTooLarge => 10,
            ErrorCode::StaleControllerEpoch => 11,
            ErrorCode::OffsetMetadataTooLarge => 12,
            ErrorCode::NetworkException => 13,
            ErrorCode::CoordinatorLoadInProgress => 14,
            ErrorCode::CoordinatorNotAvailable => 15,
            ErrorCode::NotCoordinator => 16,
            ErrorCode::InvalidTopicException => 17,
            ErrorCode::RecordListTooLarge => 18,
            ErrorCode::NotEnoughReplicas => 19,
            ErrorCode::NotEnoughReplicasAfterAppend => 20,
            ErrorCode::InvalidRequiredAcks => 21,
            ErrorCode::IllegalGeneration => 22,
            ErrorCode::InconsistentGroupProtocol => 23,
            ErrorCode::InvalidGroupId => 24,
            ErrorCode::UnknownMemberId => 25,
            ErrorCode::InvalidSessionTimeout => 26,
            ErrorCode::RebalanceInProgress => 27,
            ErrorCode::InvalidCommitOffsetSize => 28,
            ErrorCode::TopicAuthorizationFailed => 29,
            ErrorCode::GroupAuthorizationFailed => 30,
            ErrorCode::ClusterAuthorizationFailed => 31,
            ErrorCode::InvalidTimestamp => 32,
            ErrorCode::UnsupportedSaslMechanism => 33,
            ErrorCode::IllegalSaslState => 34,
            ErrorCode::UnsupportedVersion => 35,
            ErrorCode::TopicAlreadyExists => 36,
            ErrorCode::InvalidPartitions => 37,
            ErrorCode::InvalidReplicationFactor => 38,
            ErrorCode::InvalidReplicaAssignment => 39,
            ErrorCode::InvalidConfig => 40,
            ErrorCode::NotController => 41,
            ErrorCode::InvalidRequest => 42,
            ErrorCode::UnsupportedForMessageFormat => 43,
            ErrorCode::PolicyViolation => 44,
            ErrorCode::OutOfOrderSequenceNumber => 45,
            ErrorCode::DuplicateSequenceNumber => 46,
            ErrorCode::InvalidProducerEpoch => 47,
            ErrorCode::InvalidTxnState => 48,
            ErrorCode::InvalidProducerIdMapping => 49,
            ErrorCode::InvalidTransactionTimeout => 50,
            ErrorCode::ConcurrentTransactions => 51,
            ErrorCode::TransactionCoordinatorFenced => 52,
            ErrorCode::TransactionalIdAuthorizationFailed => 53,
            ErrorCode::SecurityDisabled => 54,
            ErrorCode::OperationNotAttempted => 55,
            ErrorCode::KafkaStorageError => 56,
            ErrorCode::LogDirNotFound => 57,
            ErrorCode::SaslAuthenticationFailed => 58,
            ErrorCode::UnknownProducerId => 59,
            ErrorCode::ReassignmentInProgress => 60,
            ErrorCode::DelegationTokenAuthDisabled => 61,
            ErrorCode::DelegationTokenNotFound => 62,
            ErrorCode::DelegationTokenOwnerMismatch => 63,
            ErrorCode::DelegationTokenRequestNotAllowed => 64,
            ErrorCode::DelegationTokenAuthorizationFailed => 65,
            ErrorCode::DelegationTokenExpired => 66,
            ErrorCode::InvalidPrincipalType => 67,
            ErrorCode::NonEmptyGroup => 68,
            ErrorCode::GroupIdNotFound => 69,
            ErrorCode::FetchSessionIdNotFound => 70,
            ErrorCode::InvalidFetchSessionEpoch => 71,
            ErrorCode::ListenerNotFound => 72,
            ErrorCode::TopicDeletionDisabled => 73,
            ErrorCode::FencedLeaderEpoch => 74,
            ErrorCode::UnknownLeaderEpoch => 75,
            ErrorCode::UnsupportedCompressionType => 76,
            ErrorCode::StaleBrokerEpoch => 77,
            ErrorCode::OffsetNotAvailable => 78,
            ErrorCode::MemberIdRequired => 79,
            ErrorCode::PreferredLeaderNotAvailable => 80,
            ErrorCode::GroupMaxSizeReached => 81,
            ErrorCode::FencedInstanceId => 82,
        }
    }

    /// The error code with the number `i`, or an error when no code has it.
    pub fn try_from(i: i16) -> (r: Result<ErrorCode, &'static str>)
        ensures
            r is Ok <==> is_error_code(i as int),
            r matches Ok(e) ==> e.spec_code() == i,
    {
        match i {
            -1 => Ok(ErrorCode::UnknownServerError),
            0 => Ok(ErrorCode::NoError),
            1 => Ok(ErrorCode::OffsetOutOfRange),
            2 => Ok(ErrorCode::CorruptMessage),
            3 => Ok(ErrorCode::UnknownTopicOrPartition),
            4 => Ok(ErrorCode::InvalidFetchSize),
            5 => Ok(ErrorCode::LeaderNotAvailable),
            6 => Ok(ErrorCode::NotLeaderForPartition),
            7 => Ok(ErrorCode::RequestTimedOut),
            8 => Ok(ErrorCode::BrokerNotAvailable),
            9 => Ok(ErrorCode::ReplicaNotAvailable),
            10 => Ok(ErrorCode::MessageTooLarge),
            11 => Ok(ErrorCode::StaleControllerEpoch),
            12 => Ok(ErrorCode::OffsetMetadataTooLarge),
            13 => Ok(ErrorCode::NetworkException),
            14 => Ok(ErrorCode::CoordinatorLoadInProgress),
            15 => Ok(ErrorCode::CoordinatorNotAvailable),
            16 => Ok(ErrorCode::NotCoordinator),
            17 => Ok(ErrorCode::InvalidTopicException),
            18 => Ok(ErrorCode::RecordListTooLarge),
            19 => Ok(ErrorCode::NotEnoughReplicas),
            20 => Ok(ErrorCode::NotEnoughReplicasAfterAppend),
            21 => Ok(ErrorCode::InvalidRequiredAcks),
            22 => Ok(ErrorCode::IllegalGeneration),
            23 => Ok(ErrorCode::InconsistentGroupProtocol),
            24 => Ok(ErrorCode::InvalidGroupId),
            25 => Ok(ErrorCode::UnknownMemberId),
            26 => Ok(ErrorCode::InvalidSessionTimeout),
            27 => Ok(ErrorCode::RebalanceInProgress),
            28 => Ok(ErrorCode::InvalidCommitOffsetSize),
            29 => Ok(ErrorCode::TopicAuthorizationFailed),
            30 => Ok(ErrorCode::GroupAuthorizationFailed),
            31 => Ok(ErrorCode::ClusterAuthorizationFailed),
            32 => Ok(ErrorCode::InvalidTimestamp),
            33 => Ok(ErrorCode::UnsupportedSaslMechanism),
            34 => Ok(ErrorCode::IllegalSaslState),
            35 => Ok(ErrorCode::UnsupportedVersion),
            36 => Ok(ErrorCode::TopicAlreadyExists),
            37 => Ok(ErrorCode::InvalidPartitions),
            38 => Ok(ErrorCode::InvalidReplicationFactor),
            39 => Ok(ErrorCode::InvalidReplicaAssignment),
            40 => Ok(ErrorCode::InvalidConfig),
            41 => Ok(ErrorCode::NotController),
            42 => Ok(ErrorCode::InvalidRequest),
            43 => Ok(ErrorCode::UnsupportedForMessageFormat),
            44 => Ok(ErrorCode::PolicyViolation),
            45 => Ok(ErrorCode::OutOfOrderSequenceNumber),
            46 => Ok(ErrorCode::DuplicateSequenceNumber),
            47 => Ok(ErrorCode::InvalidProducerEpoch),
            48 => Ok(ErrorCode::InvalidTxnState),
            49 => Ok(ErrorCode::InvalidProducerIdMapping),
            50 => Ok(ErrorCode::InvalidTransactionTimeout),
            51 => Ok(ErrorCode::ConcurrentTransactions),
            52 => Ok(ErrorCode::TransactionCoordinatorFenced),
            53 => Ok(ErrorCode::TransactionalIdAuthorizationFailed),
            54 => Ok(ErrorCode::SecurityDisabled),
            55 => Ok(ErrorCode::OperationNotAttempted),
            56 => Ok(ErrorCode::KafkaStorageError),
            57 => Ok(ErrorCode::LogDirNotFound),
            58 => Ok(ErrorCode::SaslAuthenticationFailed),
            59 => Ok(ErrorCode::UnknownProducerId),
            60 => Ok(ErrorCode::ReassignmentInProgress),
            61 => Ok(ErrorCode::DelegationTokenAuthDisabled),
            62 => Ok(ErrorCode::DelegationTokenNotFound),
            63 => Ok(ErrorCode::DelegationTokenOwnerMismatch),
            64 => Ok(ErrorCode::DelegationTokenRequestNotAllowed),
            65 => Ok(ErrorCode::DelegationTokenAuthorizationFailed),
            66 => Ok(ErrorCode::DelegationTokenExpired),
            67 => Ok(ErrorCode::InvalidPrincipalType),
            68 => Ok(ErrorCode::NonEmptyGroup),
            69 => Ok(ErrorCode::GroupIdNotFound),
            70 => Ok(ErrorCode::FetchSessionIdNotFound),
            71 => Ok(ErrorCode::InvalidFetchSessionEpoch),
            72 => Ok(ErrorCode::ListenerNotFound),
            73 => Ok(ErrorCode::TopicDeletionDisabled),
            74 => Ok(ErrorCode::FencedLeaderEpoch),
            75 => Ok(ErrorCode::UnknownLeaderEpoch),
            76 => Ok(ErrorCode::UnsupportedCompressionType),
            77 => Ok(ErrorCode::StaleBrokerEpoch),
            78 => Ok(ErrorCode::OffsetNotAvailable),
            79 => Ok(ErrorCode::MemberIdRequired),
            80 => Ok(ErrorCode::PreferredLeaderNotAvailable),
            81 => Ok(ErrorCode::GroupMaxSizeReached),
            82 => Ok(ErrorCode::FencedInstanceId),
            _ => Err("Unknown error code"),
        }
    }

    /// `Ok` for `NoError`, the code itself as the error otherwise.
    pub fn into_result(self) -> (r: Result<(), ErrorCode>)
        ensures
            self == ErrorCode::NoError ==> r is Ok,
            self != ErrorCode::NoError ==> r == Err::<(), ErrorCode>(self),
    {
        match self {
            ErrorCode::NoError => Ok(()),
            _ => Err(self),
        }
    }
}

impl Wire for ErrorCode {
    open spec fn value(&self) -> Value {
        Value::Int(self.spec_code())
    }
}

impl Encode for ErrorCode {
    open spec fn encode_schema() -> Schema {
        Schema::ErrorCode
    }

    fn encode_len(&self) -> (n: usize) {
        proof { lemma_int_bytes_len(self.spec_code(), 2); }
        2
    }

    fn encodable(&self) -> (b: bool) {
        proof { lemma_code_reads_back(*self); }
        true
    }

    fn encode(&self, writer: &mut Vec<u8>) {
        let c = self.code();
        put_int(writer, c as i64, 2);
    }
}

/// Reads an `i16` error code; a number that is no error code is a
/// (committed) failure.
pub fn error_code(input: &[u8], pos: usize) -> (r: Result<(ErrorCode, usize), bool>)
    requires
        pos <= input@.len(),
    ensures
        agrees(r, parse_value(Schema::ErrorCode, input@, pos as int)),
        r matches Ok((_, p)) ==> pos <= p <= input@.len(),
{
    match be_i16(input, pos) {
        Ok((i, p)) => match ErrorCode::try_from(i) {
            Ok(e) => Ok((e, p)),
            Err(_) => Err(true),
        },
        Err(c) => Err(c),
    }
}

/// Every error code has a number of its own, in the range that reads as an
/// error code: reading the number that `code` gives yields the same code.
pub proof fn lemma_code_reads_back(e: ErrorCode)
    ensures
        is_error_code(e.spec_code()),
        forall|f: ErrorCode| #[trigger] f.spec_code() == e.spec_code() ==> f == e,
{
}

/// The numbers of the error codes are those of the protocol: the table of
/// the broker's error codes, from -1 (an unknown server error) and 0 (no
/// error) through 82.
pub proof fn lemma_protocol_numbers()
    ensures
        ErrorCode::UnknownServerError.spec_code() == -1,
        ErrorCode::NoError.spec_code() == 0,
        ErrorCode::OffsetOutOfRange.spec_code() == 1,
        ErrorCode::CorruptMessage.spec_code() == 2,
        ErrorCode::UnknownTopicOrPartition.spec_code() == 3,
        ErrorCode::InvalidFetchSize.spec_code() == 4,
        ErrorCode::LeaderNotAvailable.spec_code() == 5,
        ErrorCode::NotLeaderForPartition.spec_code() == 6,
        ErrorCode::RequestTimedOut.spec_code() == 7,
        ErrorCode::BrokerNotAvailable.spec_code() == 8,
        ErrorCode::ReplicaNotAvailable.spec_code() == 9,
        ErrorCode::MessageTooLarge.spec_code() == 10,
        ErrorCode::StaleControllerEpoch.spec_code() == 11,
        ErrorCode::OffsetMetadataTooLarge.spec_code() == 12,
        ErrorCode::NetworkException.spec_code() == 13,
        ErrorCode::CoordinatorLoadInProgress.spec_code() == 14,
        ErrorCode::CoordinatorNotAvailable.spec_code() == 15,
        ErrorCode::NotCoordinator.spec_code() == 16,
        ErrorCode::InvalidTopicException.spec_code() == 17,
        ErrorCode::RecordListTooLarge.spec_code() == 18,
        ErrorCode::NotEnoughReplicas.spec_code() == 19,
        ErrorCode::NotEnoughReplicasAfterAppend.spec_code() == 20,
        ErrorCode::InvalidRequiredAcks.spec_code() == 21,
        ErrorCode::IllegalGeneration.spec_code() == 22,
        ErrorCode::InconsistentGroupProtocol.spec_code() == 23,
        ErrorCode::InvalidGroupId.spec_code() == 24,
        ErrorCode::UnknownMemberId.spec_code() == 25,
        ErrorCode::InvalidSessionTimeout.spec_code() == 26,
        ErrorCode::RebalanceInProgress.spec_code() == 27,
        ErrorCode::InvalidCommitOffsetSize.spec_code() == 28,
        ErrorCode::TopicAuthorizationFailed.spec_code() == 29,
        ErrorCode::GroupAuthorizationFailed.spec_code() == 30,
        ErrorCode::ClusterAuthorizationFailed.spec_code() == 31,
        ErrorCode::InvalidTimestamp.spec_code() == 32,
        ErrorCode::UnsupportedSaslMechanism.spec_code() == 33,
        ErrorCode::IllegalSaslState.spec_code() == 34,
        ErrorCode::UnsupportedVersion.spec_code() == 35,
        ErrorCode::TopicAlreadyExists.spec_code() == 36,
        ErrorCode::InvalidPartitions.spec_code() == 37,
        ErrorCode::InvalidReplicationFactor.spec_code() == 38,
        ErrorCode::InvalidReplicaAssignment.spec_code() == 39,
        ErrorCode::InvalidConfig.spec_code() == 40,
        ErrorCode::NotController.spec_code() == 41,
        ErrorCode::InvalidRequest.spec_code() == 42,
        ErrorCode::UnsupportedForMessageFormat.spec_code() == 43,
        ErrorCode::PolicyViolation.spec_code() == 44,
        ErrorCode::OutOfOrderSequenceNumber.spec_code() == 45,
        ErrorCode::DuplicateSequenceNumber.spec_code() == 46,
        ErrorCode::InvalidProducerEpoch.spec_code() == 47,
        ErrorCode::InvalidTxnState.spec_code() == 48,
        ErrorCode::InvalidProducerIdMapping.spec_code() == 49,
        ErrorCode::InvalidTransactionTimeout.spec_code() == 50,
        ErrorCode::ConcurrentTransactions.spec_code() == 51,
        ErrorCode::TransactionCoordinatorFenced.spec_code() == 52,
        ErrorCode::TransactionalIdAuthorizationFailed.spec_code() == 53,
        ErrorCode::SecurityDisabled.spec_code() == 54,
        ErrorCode::OperationNotAttempted.spec_code() == 55,
        ErrorCode::KafkaStorageError.spec_code() == 56,
        ErrorCode::LogDirNotFound.spec_code() == 57,
        ErrorCode::SaslAuthenticationFailed.spec_code() == 58,
        ErrorCode::UnknownProducerId.spec_code() == 59,
        ErrorCode::ReassignmentInProgress.spec_code() == 60,
        ErrorCode::DelegationTokenAuthDisabled.spec_code() == 61,
        ErrorCode::DelegationTokenNotFound.spec_code() == 62,
        ErrorCode::DelegationTokenOwnerMismatch.spec_code() == 63,
        ErrorCode::DelegationTokenRequestNotAllowed.spec_code() == 64,
        ErrorCode::DelegationTokenAuthorizationFailed.spec_code() == 65,
        ErrorCode::DelegationTokenExpired.spec_code() == 66,
        ErrorCode::InvalidPrincipalType.spec_code() == 67,
        ErrorCode::NonEmptyGroup.spec_code() == 68,
        ErrorCode::GroupIdNotFound.spec_code() == 69,
        ErrorCode::FetchSessionIdNotFound.spec_code() == 70,
        ErrorCode::InvalidFetchSessionEpoch.spec_code() == 71,
        ErrorCode::ListenerNotFound.spec_code() == 72,
        ErrorCode::TopicDeletionDisabled.spec_code() == 73,
        ErrorCode::FencedLeaderEpoch.spec_code() == 74,
        ErrorCode::UnknownLeaderEpoch.spec_code() == 75,
        ErrorCode::UnsupportedCompressionType.spec_code() == 76,
        ErrorCode::StaleBrokerEpoch.spec_code() == 77,
        ErrorCode::OffsetNotAvailable.spec_code() == 78,
        ErrorCode::MemberIdRequired.spec_code() == 79,
        ErrorCode::PreferredLeaderNotAvailable.spec_code() == 80,
        ErrorCode::GroupMaxSizeReached.spec_code() == 81,
        ErrorCode::FencedInstanceId.spec_code() == 82,
{
}

} // verus!
