//! Kafka wire protocol: message schemas, parsing and encoding.
use vstd::prelude::*;

pub mod api_key;
pub mod client;
pub mod codec;
pub mod compression;
pub mod consumer;
pub mod error;
pub mod order;
pub mod parser;
pub mod record;
pub mod wire;

verus! {

/// The offset that asks a fetch to start at the earliest record.
pub const FETCH_EARLIEST_OFFSET: i64 = -2;

/// The offset that asks a fetch to start after the latest record.
pub const FETCH_LATEST_OFFSET: i64 = -1;

/// How many replicas must acknowledge a produced batch.
#[derive(Clone, Copy, Debug, PartialEq, Eq, Structural)]
pub enum Acks {
    /// Every in-sync replica (sent as -1).
    OnlyLeader,
    /// No acknowledgement at all (sent as 0).
    NoAck,
    /// The leader only (sent as 1).
    Full,
}

impl Acks {
    /// The number that stands for the setting on the wire.
    pub open spec fn spec_code(self) -> i16 {
        match self {
            Acks::OnlyLeader => -1i16,
            Acks::NoAck => 0i16,
            Acks::Full => 1i16,
        }
    }

    /// The number that stands for the setting on the wire.
    pub fn code(self) -> (r: i16)
        ensures
            r == self.spec_code(),
    {
        match self {
            Acks::OnlyLeader => -1,
            Acks::NoAck => 0,
            Acks::Full => 1,
        }
    }
}

/// The setting with the number `i`, if one has it.
pub open spec fn acks_of(i: i16) -> Result<Acks, &'static str> {
    if i == -1 {
        Ok(Acks::OnlyLeader)
    } else if i == 0 {
        Ok(Acks::NoAck)
    } else if i == 1 {
        Ok(Acks::Full)
    } else {
        Err("Invalid Acks")
    }
}

impl TryFrom<i16> for Acks {
    type Error = &'static str;

    fn try_from(i: i16) -> (r: Result<Self, Self::Error>) {
        match i {
            -1 => Ok(Acks::OnlyLeader),
            0 => Ok(Acks::NoAck),
            1 => Ok(Acks::Full),
            _ => Err("Invalid Acks"),
        }
    }
}

impl vstd::std_specs::convert::TryFromSpecImpl<i16> for Acks {
    open spec fn obeys_try_from_spec() -> bool {
        true
    }

    open spec fn try_from_spec(v: i16) -> Result<Self, Self::Error> {
        acks_of(v)
    }
}

/// Every setting has a number of its own: reading the number that `code`
/// gives yields the same setting.
pub proof fn lemma_acks_reads_back(a: Acks)
    ensures
        acks_of(a.spec_code()) == Ok::<Acks, &'static str>(a),
{
}

/// The numbers of the settings are those of the protocol: `-1` asks only
/// the leader to acknowledge, `0` asks for no acknowledgement, `1` asks
/// every in-sync replica; and those are the numbers that read as them.
pub proof fn lemma_acks_numbers()
    ensures
        Acks::OnlyLeader.spec_code() == -1,
        Acks::NoAck.spec_code() == 0,
        Acks::Full.spec_code() == 1,
        acks_of(-1i16) == Ok::<Acks, &'static str>(Acks::OnlyLeader),
        acks_of(0i16) == Ok::<Acks, &'static str>(Acks::NoAck),
        acks_of(1i16) == Ok::<Acks, &'static str>(Acks::Full),
{
}

} // verus!
