//! The Add Partitions To Txn Response message (version 0).
use vstd::prelude::*;
use crate::wire::{Parsed, Schema, Value, encode_fields, encode_value, framed, parse_fields, parse_value, reported_fields, reported_len, wf_value};
use crate::codec::{Decode, Encode, Wire, agrees, array, be_i32, parse_prefix, parsed_prefix, string};
use crate::error::{ErrorCode, error_code};

verus! {

/// Parses a `AddPartitionsToTxnResponse` at the start of `input`; gives it with the input that
/// follows it, or `None` when the input does not start with one.
pub fn add_partitions_to_txn_response<'i>(input: &'i [u8]) -> (r: Option<(AddPartitionsToTxnResponse<'i>, &'i [u8])>)
    ensures
        parsed_prefix(r, AddPartitionsToTxnResponse::<'i>::schema(), input@),
{
    parse_prefix(input)
}

pub const VERSION: i16 = 0;

#[derive(Clone, Debug, PartialEq)]
pub struct PartitionErrors {
    pub partition: i32,
    pub error_code: ErrorCode,
}

impl Wire for PartitionErrors {
    open spec fn value(&self) -> Value {
        Value::Fields(seq![self.partition.value(), self.error_code.value()])
    }
}

impl PartitionErrors {
    /// The wire format, field by field.
    pub open spec fn fields() -> Seq<Schema> {
        seq![Schema::I32, Schema::ErrorCode]
    }

    pub open spec fn schema() -> Schema {
        Schema::Struct(Self::fields())
    }

    /// The schemas with which the fields are written.
    pub open spec fn encoded_fields() -> Seq<Schema> {
        seq![<i32 as Encode>::encode_schema(), <ErrorCode as Encode>::encode_schema()]
    }

    /// The encoding of the whole is the encodings of the fields in order.
    pub proof fn lemma_encoding(&self)
        ensures
            encode_value(<Self as Encode>::encode_schema(), self.value()) == encode_value(<i32 as Encode>::encode_schema(), self.partition.value()) + encode_value(<ErrorCode as Encode>::encode_schema(), self.error_code.value()),
            reported_len(<Self as Encode>::encode_schema(), self.value()) == reported_len(<i32 as Encode>::encode_schema(), self.partition.value()) + reported_len(<ErrorCode as Encode>::encode_schema(), self.error_code.value()),
            wf_value(<Self as Encode>::encode_schema(), self.value()) ==> wf_value(<i32 as Encode>::encode_schema(), self.partition.value()),
            wf_value(<Self as Encode>::encode_schema(), self.value()) ==> wf_value(<ErrorCode as Encode>::encode_schema(), self.error_code.value()),
    {
        let fs = Self::encoded_fields();
        let vs = seq![self.partition.value(), self.error_code.value()];
        assert(self.value() == Value::Fields(vs));
        assert(encode_fields(fs, 2, vs) == Seq::<u8>::empty());
        assert(encode_fields(fs, 1, vs) == encode_value(fs[1], vs[1]) + encode_fields(fs, 2, vs));
        assert(encode_fields(fs, 0, vs) == encode_value(fs[0], vs[0]) + encode_fields(fs, 1, vs));
        assert(encode_fields(fs, 0, vs) =~= encode_value(fs[0], vs[0]) + encode_value(fs[1], vs[1]));
        assert(reported_fields(fs, 2, vs) == 0);
        assert(reported_fields(fs, 1, vs) == reported_len(fs[1], vs[1]) + reported_fields(fs, 2, vs));
        assert(reported_fields(fs, 0, vs) == reported_len(fs[0], vs[0]) + reported_fields(fs, 1, vs));
        if wf_value(<Self as Encode>::encode_schema(), self.value()) {
            assert(wf_value(fs[0], vs[0]));
            assert(wf_value(fs[1], vs[1]));
        }
    }

    /// The type reads as it writes, and counts all of its lists.
    pub proof fn lemma_wire_format()
        ensures
            Self::schema() == <Self as Encode>::encode_schema(),
            framed(Self::schema()),
    {
        assert(Self::fields() =~= Self::encoded_fields());
        assert forall|k: int| 0 <= k < Self::fields().len() implies framed(#[trigger] Self::fields()[k]) by {
            reveal_with_fuel(framed, 3);
            if k == 0 {} else if k == 1 {}
        }
    }
}

impl<'i> Decode<'i> for PartitionErrors {
    open spec fn parse_schema() -> Schema {
        Self::schema()
    }

    #[verifier::spinoff_prover]
    #[verifier::rlimit(60)]
    fn parse_at(input: &'i [u8], pos: usize) -> (r: Result<(Self, usize), bool>) {
        let ghost s = input@;
        let ghost fs = Self::fields();
        let p0 = pos;
        let (f0, p1): (i32, usize) = match be_i32(input, p0) {
            Ok(x) => x,
            Err(c) => {
                proof {
                    assert(parse_fields(fs, 0, s, p0 as int) == Parsed::Failed(c));
                }
                return Err(c);
            },
        };
        let (f1, p2): (ErrorCode, usize) = match error_code(input, p1) {
            Ok(x) => x,
            Err(c) => {
                proof {
                    assert(parse_fields(fs, 1, s, p1 as int) == Parsed::Failed(c));
                    assert(parse_fields(fs, 0, s, p0 as int) == Parsed::Failed(c || p1 > p0));
                }
                return Err(c || p1 > p0);
            },
        };
        proof {
            assert(parse_fields(fs, 2, s, p2 as int) == Parsed::Done(Value::Fields(Seq::empty()), p2 as int));
            assert(seq![f1.value()] + Seq::<Value>::empty() =~= seq![f1.value()]);
            assert(parse_fields(fs, 1, s, p1 as int) == Parsed::Done(Value::Fields(seq![f1.value()]), p2 as int));
            assert(seq![f0.value()] + seq![f1.value()] =~= seq![f0.value(), f1.value()]);
            assert(parse_fields(fs, 0, s, p0 as int) == Parsed::Done(Value::Fields(seq![f0.value(), f1.value()]), p2 as int));
        }
        Ok((PartitionErrors { partition: f0, error_code: f1 }, p2))
    }
}

impl Encode for PartitionErrors {
    open spec fn encode_schema() -> Schema {
        Schema::Struct(Self::encoded_fields())
    }

    fn encode_len(&self) -> (n: usize) {
        proof { self.lemma_encoding(); }
        self.partition.encode_len() + self.error_code.encode_len()
    }

    #[verifier::spinoff_prover]
    fn encodable(&self) -> (b: bool) {
        let b = self.partition.encodable() && self.error_code.encodable();
        proof {
            self.lemma_encoding();
            let fs = Self::encoded_fields();
            let vs = seq![self.partition.value(), self.error_code.value()];
            assert(self.value() == Value::Fields(vs));
            if b {
                assert forall|k: int| 0 <= k < vs.len() implies wf_value(fs[k], #[trigger] vs[k]) by {
                    if k == 0 {} else if k == 1 {}
                }
            }
        }
        b
    }

    fn encode(&self, writer: &mut Vec<u8>) {
        proof { self.lemma_encoding(); }
        self.partition.encode(writer);
        self.error_code.encode(writer);
        assert(writer@ =~= old(writer)@ + encode_value(Self::encode_schema(), self.value()));
    }
}

#[derive(Clone, Debug, PartialEq)]
pub struct Errors<'i> {
    pub topic: &'i str,
    pub partition_errors: Vec<PartitionErrors>,
}

impl<'i> Wire for Errors<'i> {
    open spec fn value(&self) -> Value {
        Value::Fields(seq![self.topic.value(), self.partition_errors.value()])
    }
}

impl<'i> Errors<'i> {
    /// The wire format, field by field.
    pub open spec fn fields() -> Seq<Schema> {
        seq![Schema::Str, Schema::Array(Box::new(PartitionErrors::schema()))]
    }

    pub open spec fn schema() -> Schema {
        Schema::Struct(Self::fields())
    }

    /// The schemas with which the fields are written.
    pub open spec fn encoded_fields() -> Seq<Schema> {
        seq![<&'i str as Encode>::encode_schema(), <Vec<PartitionErrors> as Encode>::encode_schema()]
    }

    /// The encoding of the whole is the encodings of the fields in order.
    pub proof fn lemma_encoding(&self)
        ensures
            encode_value(<Self as Encode>::encode_schema(), self.value()) == encode_value(<&'i str as Encode>::encode_schema(), self.topic.value()) + encode_value(<Vec<PartitionErrors> as Encode>::encode_schema(), self.partition_errors.value()),
            reported_len(<Self as Encode>::encode_schema(), self.value()) == reported_len(<&'i str as Encode>::encode_schema(), self.topic.value()) + reported_len(<Vec<PartitionErrors> as Encode>::encode_schema(), self.partition_errors.value()),
            wf_value(<Self as Encode>::encode_schema(), self.value()) ==> wf_value(<&'i str as Encode>::encode_schema(), self.topic.value()),
            wf_value(<Self as Encode>::encode_schema(), self.value()) ==> wf_value(<Vec<PartitionErrors> as Encode>::encode_schema(), self.partition_errors.value()),
    {
        let fs = Self::encoded_fields();
        let vs = seq![self.topic.value(), self.partition_errors.value()];
        assert(self.value() == Value::Fields(vs));
        assert(encode_fields(fs, 2, vs) == Seq::<u8>::empty());
        assert(encode_fields(fs, 1, vs) == encode_value(fs[1], vs[1]) + encode_fields(fs, 2, vs));
        assert(encode_fields(fs, 0, vs) == encode_value(fs[0], vs[0]) + encode_fields(fs, 1, vs));
        assert(encode_fields(fs, 0, vs) =~= encode_value(fs[0], vs[0]) + encode_value(fs[1], vs[1]));
        assert(reported_fields(fs, 2, vs) == 0);
        assert(reported_fields(fs, 1, vs) == reported_len(fs[1], vs[1]) + reported_fields(fs, 2, vs));
        assert(reported_fields(fs, 0, vs) == reported_len(fs[0], vs[0]) + reported_fields(fs, 1, vs));
        if wf_value(<Self as Encode>::encode_schema(), self.value()) {
            assert(wf_value(fs[0], vs[0]));
            assert(wf_value(fs[1], vs[1]));
        }
    }

    /// The type reads as it writes, and counts all of its lists.
    pub proof fn lemma_wire_format()
        ensures
            Self::schema() == <Self as Encode>::encode_schema(),
            framed(Self::schema()),
    {
        PartitionErrors::lemma_wire_format();
        assert(Self::fields() =~= Self::encoded_fields());
        assert forall|k: int| 0 <= k < Self::fields().len() implies framed(#[trigger] Self::fields()[k]) by {
            reveal_with_fuel(framed, 3);
            if k == 0 {} else if k == 1 {}
        }
    }
}

impl<'i> Decode<'i> for Errors<'i> {
    open spec fn parse_schema() -> Schema {
        Self::schema()
    }

    #[verifier::spinoff_prover]
    #[verifier::rlimit(60)]
    fn parse_at(input: &'i [u8], pos: usize) -> (r: Result<(Self, usize), bool>) {
        let ghost s = input@;
        let ghost fs = Self::fields();
        let p0 = pos;
        let (f0, p1): (&'i str, usize) = match string(input, p0) {
            Ok(x) => x,
            Err(c) => {
                proof {
                    assert(parse_fields(fs, 0, s, p0 as int) == Parsed::Failed(c));
                }
                return Err(c);
            },
        };
        let (f1, p2): (Vec<PartitionErrors>, usize) = match array::<PartitionErrors>(input, p1) {
            Ok(x) => x,
            Err(c) => {
                proof {
                    assert(parse_fields(fs, 1, s, p1 as int) == Parsed::Failed(c));
                    assert(parse_fields(fs, 0, s, p0 as int) == Parsed::Failed(c || p1 > p0));
                }
                return Err(c || p1 > p0);
            },
        };
        proof {
            assert(parse_fields(fs, 2, s, p2 as int) == Parsed::Done(Value::Fields(Seq::empty()), p2 as int));
            assert(seq![f1.value()] + Seq::<Value>::empty() =~= seq![f1.value()]);
            assert(parse_fields(fs, 1, s, p1 as int) == Parsed::Done(Value::Fields(seq![f1.value()]), p2 as int));
            assert(seq![f0.value()] + seq![f1.value()] =~= seq![f0.value(), f1.value()]);
            assert(parse_fields(fs, 0, s, p0 as int) == Parsed::Done(Value::Fields(seq![f0.value(), f1.value()]), p2 as int));
        }
        Ok((Errors { topic: f0, partition_errors: f1 }, p2))
    }
}

impl<'i> Encode for Errors<'i> {
    open spec fn encode_schema() -> Schema {
        Schema::Struct(Self::encoded_fields())
    }

    fn encode_len(&self) -> (n: usize) {
        proof { self.lemma_encoding(); }
        self.topic.encode_len() + self.partition_errors.encode_len()
    }

    #[verifier::spinoff_prover]
    fn encodable(&self) -> (b: bool) {
        let b = self.topic.encodable() && self.partition_errors.encodable();
        proof {
            self.lemma_encoding();
            let fs = Self::encoded_fields();
            let vs = seq![self.topic.value(), self.partition_errors.value()];
            assert(self.value() == Value::Fields(vs));
            if b {
                assert forall|k: int| 0 <= k < vs.len() implies wf_value(fs[k], #[trigger] vs[k]) by {
                    if k == 0 {} else if k == 1 {}
                }
            }
        }
        b
    }

    fn encode(&self, writer: &mut Vec<u8>) {
        proof { self.lemma_encoding(); }
        self.topic.encode(writer);
        self.partition_errors.encode(writer);
        assert(writer@ =~= old(writer)@ + encode_value(Self::encode_schema(), self.value()));
    }
}

#[derive(Clone, Debug, PartialEq)]
pub struct AddPartitionsToTxnResponse<'i> {
    pub throttle_time_ms: i32,
    pub errors: Vec<Errors<'i>>,
}

impl<'i> Wire for AddPartitionsToTxnResponse<'i> {
    open spec fn value(&self) -> Value {
        Value::Fields(seq![self.throttle_time_ms.value(), self.errors.value()])
    }
}

impl<'i> AddPartitionsToTxnResponse<'i> {
    /// The wire format, field by field.
    pub open spec fn fields() -> Seq<Schema> {
        seq![Schema::I32, Schema::Array(Box::new(Errors::<'i>::schema()))]
    }

    pub open spec fn schema() -> Schema {
        Schema::Struct(Self::fields())
    }

    /// The schemas with which the fields are written.
    pub open spec fn encoded_fields() -> Seq<Schema> {
        seq![<i32 as Encode>::encode_schema(), <Vec<Errors<'i>> as Encode>::encode_schema()]
    }

    /// The encoding of the whole is the encodings of the fields in order.
    pub proof fn lemma_encoding(&self)
        ensures
            encode_value(<Self as Encode>::encode_schema(), self.value()) == encode_value(<i32 as Encode>::encode_schema(), self.throttle_time_ms.value()) + encode_value(<Vec<Errors<'i>> as Encode>::encode_schema(), self.errors.value()),
            reported_len(<Self as Encode>::encode_schema(), self.value()) == reported_len(<i32 as Encode>::encode_schema(), self.throttle_time_ms.value()) + reported_len(<Vec<Errors<'i>> as Encode>::encode_schema(), self.errors.value()),
            wf_value(<Self as Encode>::encode_schema(), self.value()) ==> wf_value(<i32 as Encode>::encode_schema(), self.throttle_time_ms.value()),
            wf_value(<Self as Encode>::encode_schema(), self.value()) ==> wf_value(<Vec<Errors<'i>> as Encode>::encode_schema(), self.errors.value()),
    {
        let fs = Self::encoded_fields();
        let vs = seq![self.throttle_time_ms.value(), self.errors.value()];
        assert(self.value() == Value::Fields(vs));
        assert(encode_fields(fs, 2, vs) == Seq::<u8>::empty());
        assert(encode_fields(fs, 1, vs) == encode_value(fs[1], vs[1]) + encode_fields(fs, 2, vs));
        assert(encode_fields(fs, 0, vs) == encode_value(fs[0], vs[0]) + encode_fields(fs, 1, vs));
        assert(encode_fields(fs, 0, vs) =~= encode_value(fs[0], vs[0]) + encode_value(fs[1], vs[1]));
        assert(reported_fields(fs, 2, vs) == 0);
        assert(reported_fields(fs, 1, vs) == reported_len(fs[1], vs[1]) + reported_fields(fs, 2, vs));
        assert(reported_fields(fs, 0, vs) == reported_len(fs[0], vs[0]) + reported_fields(fs, 1, vs));
        if wf_value(<Self as Encode>::encode_schema(), self.value()) {
            assert(wf_value(fs[0], vs[0]));
            assert(wf_value(fs[1], vs[1]));
        }
    }

    /// The type reads as it writes, and counts all of its lists.
    pub proof fn lemma_wire_format()
        ensures
            Self::schema() == <Self as Encode>::encode_schema(),
            framed(Self::schema()),
    {
        Errors::<'i>::lemma_wire_format();
        assert(Self::fields() =~= Self::encoded_fields());
        assert forall|k: int| 0 <= k < Self::fields().len() implies framed(#[trigger] Self::fields()[k]) by {
            reveal_with_fuel(framed, 3);
            if k == 0 {} else if k == 1 {}
        }
    }
}

impl<'i> Decode<'i> for AddPartitionsToTxnResponse<'i> {
    open spec fn parse_schema() -> Schema {
        Self::schema()
    }

    #[verifier::spinoff_prover]
    #[verifier::rlimit(60)]
    fn parse_at(input: &'i [u8], pos: usize) -> (r: Result<(Self, usize), bool>) {
        let ghost s = input@;
        let ghost fs = Self::fields();
        let p0 = pos;
        let (f0, p1): (i32, usize) = match be_i32(input, p0) {
            Ok(x) => x,
            Err(c) => {
                proof {
                    assert(parse_fields(fs, 0, s, p0 as int) == Parsed::Failed(c));
                }
                return Err(c);
            },
        };
        let (f1, p2): (Vec<Errors<'i>>, usize) = match array::<Errors<'i>>(input, p1) {
            Ok(x) => x,
            Err(c) => {
                proof {
                    assert(parse_fields(fs, 1, s, p1 as int) == Parsed::Failed(c));
                    assert(parse_fields(fs, 0, s, p0 as int) == Parsed::Failed(c || p1 > p0));
                }
                return Err(c || p1 > p0);
            },
        };
        proof {
            assert(parse_fields(fs, 2, s, p2 as int) == Parsed::Done(Value::Fields(Seq::empty()), p2 as int));
            assert(seq![f1.value()] + Seq::<Value>::empty() =~= seq![f1.value()]);
            assert(parse_fields(fs, 1, s, p1 as int) == Parsed::Done(Value::Fields(seq![f1.value()]), p2 as int));
            assert(seq![f0.value()] + seq![f1.value()] =~= seq![f0.value(), f1.value()]);
            assert(parse_fields(fs, 0, s, p0 as int) == Parsed::Done(Value::Fields(seq![f0.value(), f1.value()]), p2 as int));
        }
        Ok((AddPartitionsToTxnResponse { throttle_time_ms: f0, errors: f1 }, p2))
    }
}

impl<'i> Encode for AddPartitionsToTxnResponse<'i> {
    open spec fn encode_schema() -> Schema {
        Schema::Struct(Self::encoded_fields())
    }

    fn encode_len(&self) -> (n: usize) {
        proof { self.lemma_encoding(); }
        self.throttle_time_ms.encode_len() + self.errors.encode_len()
    }

    #[verifier::spinoff_prover]
    fn encodable(&self) -> (b: bool) {
        let b = self.throttle_time_ms.encodable() && self.errors.encodable();
        proof {
            self.lemma_encoding();
            let fs = Self::encoded_fields();
            let vs = seq![self.throttle_time_ms.value(), self.errors.value()];
            assert(self.value() == Value::Fields(vs));
            if b {
                assert forall|k: int| 0 <= k < vs.len() implies wf_value(fs[k], #[trigger] vs[k]) by {
                    if k == 0 {} else if k == 1 {}
                }
            }
        }
        b
    }

    fn encode(&self, writer: &mut Vec<u8>) {
        proof { self.lemma_encoding(); }
        self.throttle_time_ms.encode(writer);
        self.errors.encode(writer);
        assert(writer@ =~= old(writer)@ + encode_value(Self::encode_schema(), self.value()));
    }
}

} // verus!
