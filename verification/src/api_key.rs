//! The numbers that name the request types of the protocol.
use vstd::prelude::*;
use crate::wire::{Value, Schema, encode_value, reported_len, wf_value, parse_value};
use crate::codec::{Wire, Encode, agrees, be_i16, put_int};

verus! {

/// The key of a request type, as a request header carries it.
#[derive(Clone, Copy, Debug, PartialEq, Eq, Structural)]
pub struct ApiKey(pub i16);

/// The keys of the request types. Each is the number of the key: `ApiKey::from`
/// turns it into one.
impl ApiKey {
    pub const PRODUCE: i16 = 0;
    pub const FETCH: i16 = 1;
    pub const LIST_OFFSETS: i16 = 2;
    pub const METADATA: i16 = 3;
    pub const LEADER_AND_ISR: i16 = 4;
    pub const STOP_REPLICA: i16 = 5;
    pub const UPDATE_METADATA: i16 = 6;
    pub const CONTROLLED_SHUTDOWN: i16 = 7;
    pub const OFFSET_COMMIT: i16 = 8;
    pub const OFFSET_FETCH: i16 = 9;
    pub const FIND_COORDINATOR: i16 = 10;
    pub const JOIN_GROUP: i16 = 11;
    pub const HEARTBEAT: i16 = 12;
    pub const LEAVE_GROUP: i16 = 13;
    pub const SYNC_GROUP: i16 = 14;
    pub const DESCRIBE_GROUPS: i16 = 15;
    pub const LIST_GROUPS: i16 = 16;
    pub const SASL_HANDSHAKE: i16 = 17;
    pub const API_VERSIONS: i16 = 18;
    pub const CREATE_TOPICS: i16 = 19;
    pub const DELETE_TOPICS: i16 = 20;
    pub const DELETE_RECORDS: i16 = 21;
    pub const INIT_PRODUCER_ID: i16 = 22;
    pub const OFFSET_FOR_LEADER_EPOCH: i16 = 23;
    pub const ADD_PARTITIONS_TO_TXN: i16 = 24;
    pub const ADD_OFFSETS_TO_TXN: i16 = 25;
    pub const END_TXN: i16 = 26;
    pub const WRITE_TXN_MARKERS: i16 = 27;
    pub const TXN_OFFSET_COMMIT: i16 = 28;
    pub const DESCRIBE_ACLS: i16 = 29;
    pub const CREATE_ACLS: i16 = 30;
    pub const DELETE_ACLS: i16 = 31;
    pub const DESCRIBE_CONFIGS: i16 = 32;
    pub const ALTER_CONFIGS: i16 = 33;
    pub const ALTER_REPLICA_LOG_DIRS: i16 = 34;
    pub const DESCRIBE_LOG_DIRS: i16 = 35;
    pub const SASL_AUTHENTICATE: i16 = 36;
    pub const CREATE_PARTITIONS: i16 = 37;
    pub const CREATE_DELEGATION_TOKEN: i16 = 38;
    pub const RENEW_DELEGATION_TOKEN: i16 = 39;
    pub const EXPIRE_DELEGATION_TOKEN: i16 = 40;
    pub const DESCRIBE_DELEGATION_TOKEN: i16 = 41;
    pub const DELETE_GROUPS: i16 = 42;
    pub const ELECT_PREFERRED_LEADERS: i16 = 43;
    pub const INCREMENTAL_ALTER_CONFIGS: i16 = 44;
}

impl From<i16> for ApiKey {
    fn from(i: i16) -> (r: Self) {
        ApiKey(i)
    }
}

impl vstd::std_specs::convert::FromSpecImpl<i16> for ApiKey {
    open spec fn obeys_from_spec() -> bool {
        true
    }

    open spec fn from_spec(v: i16) -> Self {
        ApiKey(v)
    }
}

impl Wire for ApiKey {
    open spec fn value(&self) -> Value {
        Value::Int(self.0 as int)
    }
}

impl Encode for ApiKey {
    open spec fn encode_schema() -> Schema {
        Schema::I16
    }

    fn encode_len(&self) -> (n: usize) {
        proof { crate::wire::lemma_int_bytes_len(self.0 as int, 2); }
        2
    }

    fn encodable(&self) -> (b: bool) {
        proof { crate::wire::lemma_pow256_values(); }
        true
    }

    fn encode(&self, writer: &mut Vec<u8>) {
        proof { crate::wire::lemma_pow256_values(); }
        put_int(writer, self.0 as i64, 2);
    }
}

/// Reads an API key: a big-endian `i16`.
pub fn api_key(input: &[u8], pos: usize) -> (r: Result<(ApiKey, usize), bool>)
    requires
        pos <= input@.len(),
    ensures
        agrees(r, parse_value(Schema::I16, input@, pos as int)),
        r matches Ok((_, p)) ==> pos <= p <= input@.len(),
{
    match be_i16(input, pos) {
        Ok((i, p)) => Ok((ApiKey(i), p)),
        Err(c) => Err(c),
    }
}

/// The keys of the request types are the protocol's numbers: produce is 0,
/// fetch 1, and so on through 44 for incremental configuration changes.
pub proof fn lemma_key_numbers()
    ensures
        ApiKey::PRODUCE == 0,
        ApiKey::FETCH == 1,
        ApiKey::LIST_OFFSETS == 2,
        ApiKey::METADATA == 3,
        ApiKey::LEADER_AND_ISR == 4,
        ApiKey::STOP_REPLICA == 5,
        ApiKey::UPDATE_METADATA == 6,
        ApiKey::CONTROLLED_SHUTDOWN == 7,
        ApiKey::OFFSET_COMMIT == 8,
        ApiKey::OFFSET_FETCH == 9,
        ApiKey::FIND_COORDINATOR == 10,
        ApiKey::JOIN_GROUP == 11,
        ApiKey::HEARTBEAT == 12,
        ApiKey::LEAVE_GROUP == 13,
        ApiKey::SYNC_GROUP == 14,
        ApiKey::DESCRIBE_GROUPS == 15,
        ApiKey::LIST_GROUPS == 16,
        ApiKey::SASL_HANDSHAKE == 17,
        ApiKey::API_VERSIONS == 18,
        ApiKey::CREATE_TOPICS == 19,
        ApiKey::DELETE_TOPICS == 20,
        ApiKey::DELETE_RECORDS == 21,
        ApiKey::INIT_PRODUCER_ID == 22,
        ApiKey::OFFSET_FOR_LEADER_EPOCH == 23,
        ApiKey::ADD_PARTITIONS_TO_TXN == 24,
        ApiKey::ADD_OFFSETS_TO_TXN == 25,
        ApiKey::END_TXN == 26,
        ApiKey::WRITE_TXN_MARKERS == 27,
        ApiKey::TXN_OFFSET_COMMIT == 28,
        ApiKey::DESCRIBE_ACLS == 29,
        ApiKey::CREATE_ACLS == 30,
        ApiKey::DELETE_ACLS == 31,
        ApiKey::DESCRIBE_CONFIGS == 32,
        ApiKey::ALTER_CONFIGS == 33,
        ApiKey::ALTER_REPLICA_LOG_DIRS == 34,
        ApiKey::DESCRIBE_LOG_DIRS == 35,
        ApiKey::SASL_AUTHENTICATE == 36,
        ApiKey::CREATE_PARTITIONS == 37,
        ApiKey::CREATE_DELEGATION_TOKEN == 38,
        ApiKey::RENEW_DELEGATION_TOKEN == 39,
        ApiKey::EXPIRE_DELEGATION_TOKEN == 40,
        ApiKey::DESCRIBE_DELEGATION_TOKEN == 41,
        ApiKey::DELETE_GROUPS == 42,
        ApiKey::ELECT_PREFERRED_LEADERS == 43,
        ApiKey::INCREMENTAL_ALTER_CONFIGS == 44,
{
}

} // verus!
