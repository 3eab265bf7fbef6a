//! The Fetch Request message (version 11).
use vstd::prelude::*;
use crate::wire::{Parsed, Schema, Value, encode_fields, encode_value, framed, parse_fields, parse_value, reported_fields, reported_len, wf_value};
use crate::codec::{Decode, Encode, Wire, agrees, array, be_i32, be_i64, be_i8, parse_prefix, parsed_prefix, string};

verus! {

/// Parses a `FetchRequest` at the start of `input`; gives it with the input that
/// follows it, or `None` when the input does not start with one.
pub fn fetch_request<'i>(input: &'i [u8]) -> (r: Option<(FetchRequest<'i>, &'i [u8])>)
    ensures
        parsed_prefix(r, FetchRequest::<'i>::schema(), input@),
{
    parse_prefix(input)
}

pub const VERSION: i16 = 11;

#[derive(Clone, Debug, PartialEq)]
pub struct Partitions {
    pub partition: i32,
    pub current_leader_epoch: i32,
    pub fetch_offset: i64,
    pub log_start_offset: i64,
    pub partition_max_bytes: i32,
}

impl Wire for Partitions {
    open spec fn value(&self) -> Value {
        Value::Fields(seq![self.partition.value(), self.current_leader_epoch.value(), self.fetch_offset.value(), self.log_start_offset.value(), self.partition_max_bytes.value()])
    }
}

impl Partitions {
    /// The wire format, field by field.
    pub open spec fn fields() -> Seq<Schema> {
        seq![Schema::I32, Schema::I32, Schema::I64, Schema::I64, Schema::I32]
    }

    pub open spec fn schema() -> Schema {
        Schema::Struct(Self::fields())
    }

    /// The schemas with which the fields are written.
    pub open spec fn encoded_fields() -> Seq<Schema> {
        seq![<i32 as Encode>::encode_schema(), <i32 as Encode>::encode_schema(), <i64 as Encode>::encode_schema(), <i64 as Encode>::encode_schema(), <i32 as Encode>::encode_schema()]
    }

    /// The encoding of the whole is the encodings of the fields in order.
    pub proof fn lemma_encoding(&self)
        ensures
            encode_value(<Self as Encode>::encode_schema(), self.value()) == encode_value(<i32 as Encode>::encode_schema(), self.partition.value()) + encode_value(<i32 as Encode>::encode_schema(), self.current_leader_epoch.value()) + encode_value(<i64 as Encode>::encode_schema(), self.fetch_offset.value()) + encode_value(<i64 as Encode>::encode_schema(), self.log_start_offset.value()) + encode_value(<i32 as Encode>::encode_schema(), self.partition_max_bytes.value()),
            reported_len(<Self as Encode>::encode_schema(), self.value()) == reported_len(<i32 as Encode>::encode_schema(), self.partition.value()) + reported_len(<i32 as Encode>::encode_schema(), self.current_leader_epoch.value()) + reported_len(<i64 as Encode>::encode_schema(), self.fetch_offset.value()) + reported_len(<i64 as Encode>::encode_schema(), self.log_start_offset.value()) + reported_len(<i32 as Encode>::encode_schema(), self.partition_max_bytes.value()),
            wf_value(<Self as Encode>::encode_schema(), self.value()) ==> wf_value(<i32 as Encode>::encode_schema(), self.partition.value()),
            wf_value(<Self as Encode>::encode_schema(), self.value()) ==> wf_value(<i32 as Encode>::encode_schema(), self.current_leader_epoch.value()),
            wf_value(<Self as Encode>::encode_schema(), self.value()) ==> wf_value(<i64 as Encode>::encode_schema(), self.fetch_offset.value()),
            wf_value(<Self as Encode>::encode_schema(), self.value()) ==> wf_value(<i64 as Encode>::encode_schema(), self.log_start_offset.value()),
            wf_value(<Self as Encode>::encode_schema(), self.value()) ==> wf_value(<i32 as Encode>::encode_schema(), self.partition_max_bytes.value()),
    {
        let fs = Self::encoded_fields();
        let vs = seq![self.partition.value(), self.current_leader_epoch.value(), self.fetch_offset.value(), self.log_start_offset.value(), self.partition_max_bytes.value()];
        assert(self.value() == Value::Fields(vs));
        assert(encode_fields(fs, 5, vs) == Seq::<u8>::empty());
        assert(encode_fields(fs, 4, vs) == encode_value(fs[4], vs[4]) + encode_fields(fs, 5, vs));
        assert(encode_fields(fs, 3, vs) == encode_value(fs[3], vs[3]) + encode_fields(fs, 4, vs));
        assert(encode_fields(fs, 2, vs) == encode_value(fs[2], vs[2]) + encode_fields(fs, 3, vs));
        assert(encode_fields(fs, 1, vs) == encode_value(fs[1], vs[1]) + encode_fields(fs, 2, vs));
        assert(encode_fields(fs, 0, vs) == encode_value(fs[0], vs[0]) + encode_fields(fs, 1, vs));
        assert(encode_fields(fs, 0, vs) =~= encode_value(fs[0], vs[0]) + encode_value(fs[1], vs[1]) + encode_value(fs[2], vs[2]) + encode_value(fs[3], vs[3]) + encode_value(fs[4], vs[4]));
        assert(reported_fields(fs, 5, vs) == 0);
        assert(reported_fields(fs, 4, vs) == reported_len(fs[4], vs[4]) + reported_fields(fs, 5, vs));
        assert(reported_fields(fs, 3, vs) == reported_len(fs[3], vs[3]) + reported_fields(fs, 4, vs));
        assert(reported_fields(fs, 2, vs) == reported_len(fs[2], vs[2]) + reported_fields(fs, 3, vs));
        assert(reported_fields(fs, 1, vs) == reported_len(fs[1], vs[1]) + reported_fields(fs, 2, vs));
        assert(reported_fields(fs, 0, vs) == reported_len(fs[0], vs[0]) + reported_fields(fs, 1, vs));
        if wf_value(<Self as Encode>::encode_schema(), self.value()) {
            assert(wf_value(fs[0], vs[0]));
            assert(wf_value(fs[1], vs[1]));
            assert(wf_value(fs[2], vs[2]));
            assert(wf_value(fs[3], vs[3]));
            assert(wf_value(fs[4], vs[4]));
        }
    }

    /// The type reads as it writes, and counts all of its lists.
    pub proof fn lemma_wire_format()
        ensures
            Self::schema() == <Self as Encode>::encode_schema(),
            framed(Self::schema()),
    {
        assert(Self::fields() =~= Self::encoded_fields());
        assert forall|k: int| 0 <= k < Self::fields().len() implies framed(#[trigger] Self::fields()[k]) by {
            reveal_with_fuel(framed, 3);
            if k == 0 {} else if k == 1 {} else if k == 2 {} else if k == 3 {} else if k == 4 {}
        }
    }
}

impl<'i> Decode<'i> for Partitions {
    open spec fn parse_schema() -> Schema {
        Self::schema()
    }

    #[verifier::spinoff_prover]
    #[verifier::rlimit(75)]
    fn parse_at(input: &'i [u8], pos: usize) -> (r: Result<(Self, usize), bool>) {
        let ghost s = input@;
        let ghost fs = Self::fields();
        let p0 = pos;
        let (f0, p1): (i32, usize) = match be_i32(input, p0) {
            Ok(x) => x,
            Err(c) => {
                proof {
                    assert(parse_fields(fs, 0, s, p0 as int) == Parsed::Failed(c));
                }
                return Err(c);
            },
        };
        let (f1, p2): (i32, usize) = match be_i32(input, p1) {
            Ok(x) => x,
            Err(c) => {
                proof {
                    assert(parse_fields(fs, 1, s, p1 as int) == Parsed::Failed(c));
                    assert(parse_fields(fs, 0, s, p0 as int) == Parsed::Failed(c || p1 > p0));
                }
                return Err(c || p1 > p0);
            },
        };
        let (f2, p3): (i64, usize) = match be_i64(input, p2) {
            Ok(x) => x,
            Err(c) => {
                proof {
                    assert(parse_fields(fs, 2, s, p2 as int) == Parsed::Failed(c));
                    assert(parse_fields(fs, 1, s, p1 as int) == Parsed::Failed(c || p2 > p1));
                    assert(parse_fields(fs, 0, s, p0 as int) == Parsed::Failed(c || p2 > p0));
                }
                return Err(c || p2 > p0);
            },
        };
        let (f3, p4): (i64, usize) = match be_i64(input, p3) {
            Ok(x) => x,
            Err(c) => {
                proof {
                    assert(parse_fields(fs, 3, s, p3 as int) == Parsed::Failed(c));
                    assert(parse_fields(fs, 2, s, p2 as int) == Parsed::Failed(c || p3 > p2));
                    assert(parse_fields(fs, 1, s, p1 as int) == Parsed::Failed(c || p3 > p1));
                    assert(parse_fields(fs, 0, s, p0 as int) == Parsed::Failed(c || p3 > p0));
                }
                return Err(c || p3 > p0);
            },
        };
        let (f4, p5): (i32, usize) = match be_i32(input, p4) {
            Ok(x) => x,
            Err(c) => {
                proof {
                    assert(parse_fields(fs, 4, s, p4 as int) == Parsed::Failed(c));
                    assert(parse_fields(fs, 3, s, p3 as int) == Parsed::Failed(c || p4 > p3));
                    assert(parse_fields(fs, 2, s, p2 as int) == Parsed::Failed(c || p4 > p2));
                    assert(parse_fields(fs, 1, s, p1 as int) == Parsed::Failed(c || p4 > p1));
                    assert(parse_fields(fs, 0, s, p0 as int) == Parsed::Failed(c || p4 > p0));
                }
                return Err(c || p4 > p0);
            },
        };
        proof {
            assert(parse_fields(fs, 5, s, p5 as int) == Parsed::Done(Value::Fields(Seq::empty()), p5 as int));
            assert(seq![f4.value()] + Seq::<Value>::empty() =~= seq![f4.value()]);
            assert(parse_fields(fs, 4, s, p4 as int) == Parsed::Done(Value::Fields(seq![f4.value()]), p5 as int));
            assert(seq![f3.value()] + seq![f4.value()] =~= seq![f3.value(), f4.value()]);
            assert(parse_fields(fs, 3, s, p3 as int) == Parsed::Done(Value::Fields(seq![f3.value(), f4.value()]), p5 as int));
            assert(seq![f2.value()] + seq![f3.value(), f4.value()] =~= seq![f2.value(), f3.value(), f4.value()]);
            assert(parse_fields(fs, 2, s, p2 as int) == Parsed::Done(Value::Fields(seq![f2.value(), f3.value(), f4.value()]), p5 as int));
            assert(seq![f1.value()] + seq![f2.value(), f3.value(), f4.value()] =~= seq![f1.value(), f2.value(), f3.value(), f4.value()]);
            assert(parse_fields(fs, 1, s, p1 as int) == Parsed::Done(Value::Fields(seq![f1.value(), f2.value(), f3.value(), f4.value()]), p5 as int));
            assert(seq![f0.value()] + seq![f1.value(), f2.value(), f3.value(), f4.value()] =~= seq![f0.value(), f1.value(), f2.value(), f3.value(), f4.value()]);
            assert(parse_fields(fs, 0, s, p0 as int) == Parsed::Done(Value::Fields(seq![f0.value(), f1.value(), f2.value(), f3.value(), f4.value()]), p5 as int));
        }
        Ok((Partitions { partition: f0, current_leader_epoch: f1, fetch_offset: f2, log_start_offset: f3, partition_max_bytes: f4 }, p5))
    }
}

impl Encode for Partitions {
    open spec fn encode_schema() -> Schema {
        Schema::Struct(Self::encoded_fields())
    }

    fn encode_len(&self) -> (n: usize) {
        proof { self.lemma_encoding(); }
        self.partition.encode_len() + self.current_leader_epoch.encode_len() + self.fetch_offset.encode_len() + self.log_start_offset.encode_len() + self.partition_max_bytes.encode_len()
    }

    #[verifier::spinoff_prover]
    fn encodable(&self) -> (b: bool) {
        let b = self.partition.encodable() && self.current_leader_epoch.encodable() && self.fetch_offset.encodable() && self.log_start_offset.encodable() && self.partition_max_bytes.encodable();
        proof {
            self.lemma_encoding();
            let fs = Self::encoded_fields();
            let vs = seq![self.partition.value(), self.current_leader_epoch.value(), self.fetch_offset.value(), self.log_start_offset.value(), self.partition_max_bytes.value()];
            assert(self.value() == Value::Fields(vs));
            if b {
                assert forall|k: int| 0 <= k < vs.len() implies wf_value(fs[k], #[trigger] vs[k]) by {
                    if k == 0 {} else if k == 1 {} else if k == 2 {} else if k == 3 {} else if k == 4 {}
                }
            }
        }
        b
    }

    fn encode(&self, writer: &mut Vec<u8>) {
        proof { self.lemma_encoding(); }
        self.partition.encode(writer);
        self.current_leader_epoch.encode(writer);
        self.fetch_offset.encode(writer);
        self.log_start_offset.encode(writer);
        self.partition_max_bytes.encode(writer);
        assert(writer@ =~= old(writer)@ + encode_value(Self::encode_schema(), self.value()));
    }
}

#[derive(Clone, Debug, PartialEq)]
pub struct Topics<'i> {
    pub topic: &'i str,
    pub partitions: Vec<Partitions>,
}

impl<'i> Wire for Topics<'i> {
    open spec fn value(&self) -> Value {
        Value::Fields(seq![self.topic.value(), self.partitions.value()])
    }
}

impl<'i> Topics<'i> {
    /// The wire format, field by field.
    pub open spec fn fields() -> Seq<Schema> {
        seq![Schema::Str, Schema::Array(Box::new(Partitions::schema()))]
    }

    pub open spec fn schema() -> Schema {
        Schema::Struct(Self::fields())
    }

    /// The schemas with which the fields are written.
    pub open spec fn encoded_fields() -> Seq<Schema> {
        seq![<&'i str as Encode>::encode_schema(), <Vec<Partitions> as Encode>::encode_schema()]
    }

    /// The encoding of the whole is the encodings of the fields in order.
    pub proof fn lemma_encoding(&self)
        ensures
            encode_value(<Self as Encode>::encode_schema(), self.value()) == encode_value(<&'i str as Encode>::encode_schema(), self.topic.value()) + encode_value(<Vec<Partitions> as Encode>::encode_schema(), self.partitions.value()),
            reported_len(<Self as Encode>::encode_schema(), self.value()) == reported_len(<&'i str as Encode>::encode_schema(), self.topic.value()) + reported_len(<Vec<Partitions> as Encode>::encode_schema(), self.partitions.value()),
            wf_value(<Self as Encode>::encode_schema(), self.value()) ==> wf_value(<&'i str as Encode>::encode_schema(), self.topic.value()),
            wf_value(<Self as Encode>::encode_schema(), self.value()) ==> wf_value(<Vec<Partitions> as Encode>::encode_schema(), self.partitions.value()),
    {
        let fs = Self::encoded_fields();
        let vs = seq![self.topic.value(), self.partitions.value()];
        assert(self.value() == Value::Fields(vs));
        assert(encode_fields(fs, 2, vs) == Seq::<u8>::empty());
        assert(encode_fields(fs, 1, vs) == encode_value(fs[1], vs[1]) + encode_fields(fs, 2, vs));
        assert(encode_fields(fs, 0, vs) == encode_value(fs[0], vs[0]) + encode_fields(fs, 1, vs));
        assert(encode_fields(fs, 0, vs) =~= encode_value(fs[0], vs[0]) + encode_value(fs[1], vs[1]));
        assert(reported_fields(fs, 2, vs) == 0);
        assert(reported_fields(fs, 1, vs) == reported_len(fs[1], vs[1]) + reported_fields(fs, 2, vs));
        assert(reported_fields(fs, 0, vs) == reported_len(fs[0], vs[0]) + reported_fields(fs, 1, vs));
        if wf_value(<Self as Encode>::encode_schema(), self.value()) {
            assert(wf_value(fs[0], vs[0]));
            assert(wf_value(fs[1], vs[1]));
        }
    }

    /// The type reads as it writes, and counts all of its lists.
    pub proof fn lemma_wire_format()
        ensures
            Self::schema() == <Self as Encode>::encode_schema(),
            framed(Self::schema()),
    {
        Partitions::lemma_wire_format();
        assert(Self::fields() =~= Self::encoded_fields());
        assert forall|k: int| 0 <= k < Self::fields().len() implies framed(#[trigger] Self::fields()[k]) by {
            reveal_with_fuel(framed, 3);
            if k == 0 {} else if k == 1 {}
        }
    }
}

impl<'i> Decode<'i> for Topics<'i> {
    open spec fn parse_schema() -> Schema {
        Self::schema()
    }

    #[verifier::spinoff_prover]
    #[verifier::rlimit(60)]
    fn parse_at(input: &'i [u8], pos: usize) -> (r: Result<(Self, usize), bool>) {
        let ghost s = input@;
        let ghost fs = Self::fields();
        let p0 = pos;
        let (f0, p1): (&'i str, usize) = match string(input, p0) {
            Ok(x) => x,
            Err(c) => {
                proof {
                    assert(parse_fields(fs, 0, s, p0 as int) == Parsed::Failed(c));
                }
                return Err(c);
            },
        };
        let (f1, p2): (Vec<Partitions>, usize) = match array::<Partitions>(input, p1) {
            Ok(x) => x,
            Err(c) => {
                proof {
                    assert(parse_fields(fs, 1, s, p1 as int) == Parsed::Failed(c));
                    assert(parse_fields(fs, 0, s, p0 as int) == Parsed::Failed(c || p1 > p0));
                }
                return Err(c || p1 > p0);
            },
        };
        proof {
            assert(parse_fields(fs, 2, s, p2 as int) == Parsed::Done(Value::Fields(Seq::empty()), p2 as int));
            assert(seq![f1.value()] + Seq::<Value>::empty() =~= seq![f1.value()]);
            assert(parse_fields(fs, 1, s, p1 as int) == Parsed::Done(Value::Fields(seq![f1.value()]), p2 as int));
            assert(seq![f0.value()] + seq![f1.value()] =~= seq![f0.value(), f1.value()]);
            assert(parse_fields(fs, 0, s, p0 as int) == Parsed::Done(Value::Fields(seq![f0.value(), f1.value()]), p2 as int));
        }
        Ok((Topics { topic: f0, partitions: f1 }, p2))
    }
}

impl<'i> Encode for Topics<'i> {
    open spec fn encode_schema() -> Schema {
        Schema::Struct(Self::encoded_fields())
    }

    fn encode_len(&self) -> (n: usize) {
        proof { self.lemma_encoding(); }
        self.topic.encode_len() + self.partitions.encode_len()
    }

    #[verifier::spinoff_prover]
    fn encodable(&self) -> (b: bool) {
        let b = self.topic.encodable() && self.partitions.encodable();
        proof {
            self.lemma_encoding();
            let fs = Self::encoded_fields();
            let vs = seq![self.topic.value(), self.partitions.value()];
            assert(self.value() == Value::Fields(vs));
            if b {
                assert forall|k: int| 0 <= k < vs.len() implies wf_value(fs[k], #[trigger] vs[k]) by {
                    if k == 0 {} else if k == 1 {}
                }
            }
        }
        b
    }

    fn encode(&self, writer: &mut Vec<u8>) {
        proof { self.lemma_encoding(); }
        self.topic.encode(writer);
        self.partitions.encode(writer);
        assert(writer@ =~= old(writer)@ + encode_value(Self::encode_schema(), self.value()));
    }
}

#[derive(Clone, Debug, PartialEq)]
pub struct ForgottenTopicsData<'i> {
    pub topic: &'i str,
    pub partitions: Vec<i32>,
}

impl<'i> Wire for ForgottenTopicsData<'i> {
    open spec fn value(&self) -> Value {
        Value::Fields(seq![self.topic.value(), self.partitions.value()])
    }
}

impl<'i> ForgottenTopicsData<'i> {
    /// The wire format, field by field.
    pub open spec fn fields() -> Seq<Schema> {
        seq![Schema::Str, Schema::Array(Box::new(Schema::I32))]
    }

    pub open spec fn schema() -> Schema {
        Schema::Struct(Self::fields())
    }

    /// The schemas with which the fields are written.
    pub open spec fn encoded_fields() -> Seq<Schema> {
        seq![<&'i str as Encode>::encode_schema(), <Vec<i32> as Encode>::encode_schema()]
    }

    /// The encoding of the whole is the encodings of the fields in order.
    pub proof fn lemma_encoding(&self)
        ensures
            encode_value(<Self as Encode>::encode_schema(), self.value()) == encode_value(<&'i str as Encode>::encode_schema(), self.topic.value()) + encode_value(<Vec<i32> as Encode>::encode_schema(), self.partitions.value()),
            reported_len(<Self as Encode>::encode_schema(), self.value()) == reported_len(<&'i str as Encode>::encode_schema(), self.topic.value()) + reported_len(<Vec<i32> as Encode>::encode_schema(), self.partitions.value()),
            wf_value(<Self as Encode>::encode_schema(), self.value()) ==> wf_value(<&'i str as Encode>::encode_schema(), self.topic.value()),
            wf_value(<Self as Encode>::encode_schema(), self.value()) ==> wf_value(<Vec<i32> as Encode>::encode_schema(), self.partitions.value()),
    {
        let fs = Self::encoded_fields();
        let vs = seq![self.topic.value(), self.partitions.value()];
        assert(self.value() == Value::Fields(vs));
        assert(encode_fields(fs, 2, vs) == Seq::<u8>::empty());
        assert(encode_fields(fs, 1, vs) == encode_value(fs[1], vs[1]) + encode_fields(fs, 2, vs));
        assert(encode_fields(fs, 0, vs) == encode_value(fs[0], vs[0]) + encode_fields(fs, 1, vs));
        assert(encode_fields(fs, 0, vs) =~= encode_value(fs[0], vs[0]) + encode_value(fs[1], vs[1]));
        assert(reported_fields(fs, 2, vs) == 0);
        assert(reported_fields(fs, 1, vs) == reported_len(fs[1], vs[1]) + reported_fields(fs, 2, vs));
        assert(reported_fields(fs, 0, vs) == reported_len(fs[0], vs[0]) + reported_fields(fs, 1, vs));
        if wf_value(<Self as Encode>::encode_schema(), self.value()) {
            assert(wf_value(fs[0], vs[0]));
            assert(wf_value(fs[1], vs[1]));
        }
    }

    /// The type reads as it writes, and counts all of its lists.
    pub proof fn lemma_wire_format()
        ensures
            Self::schema() == <Self as Encode>::encode_schema(),
            framed(Self::schema()),
    {
        assert(Self::fields() =~= Self::encoded_fields());
        assert forall|k: int| 0 <= k < Self::fields().len() implies framed(#[trigger] Self::fields()[k]) by {
            reveal_with_fuel(framed, 3);
            if k == 0 {} else if k == 1 {}
        }
    }
}

impl<'i> Decode<'i> for ForgottenTopicsData<'i> {
    open spec fn parse_schema() -> Schema {
        Self::schema()
    }

    #[verifier::spinoff_prover]
    #[verifier::rlimit(60)]
    fn parse_at(input: &'i [u8], pos: usize) -> (r: Result<(Self, usize), bool>) {
        let ghost s = input@;
        let ghost fs = Self::fields();
        let p0 = pos;
        let (f0, p1): (&'i str, usize) = match string(input, p0) {
            Ok(x) => x,
            Err(c) => {
                proof {
                    assert(parse_fields(fs, 0, s, p0 as int) == Parsed::Failed(c));
                }
                return Err(c);
            },
        };
        let (f1, p2): (Vec<i32>, usize) = match array::<i32>(input, p1) {
            Ok(x) => x,
            Err(c) => {
                proof {
                    assert(parse_fields(fs, 1, s, p1 as int) == Parsed::Failed(c));
                    assert(parse_fields(fs, 0, s, p0 as int) == Parsed::Failed(c || p1 > p0));
                }
                return Err(c || p1 > p0);
            },
        };
        proof {
            assert(parse_fields(fs, 2, s, p2 as int) == Parsed::Done(Value::Fields(Seq::empty()), p2 as int));
            assert(seq![f1.value()] + Seq::<Value>::empty() =~= seq![f1.value()]);
            assert(parse_fields(fs, 1, s, p1 as int) == Parsed::Done(Value::Fields(seq![f1.value()]), p2 as int));
            assert(seq![f0.value()] + seq![f1.value()] =~= seq![f0.value(), f1.value()]);
            assert(parse_fields(fs, 0, s, p0 as int) == Parsed::Done(Value::Fields(seq![f0.value(), f1.value()]), p2 as int));
        }
        Ok((ForgottenTopicsData { topic: f0, partitions: f1 }, p2))
    }
}

impl<'i> Encode for ForgottenTopicsData<'i> {
    open spec fn encode_schema() -> Schema {
        Schema::Struct(Self::encoded_fields())
    }

    fn encode_len(&self) -> (n: usize) {
        proof { self.lemma_encoding(); }
        self.topic.encode_len() + self.partitions.encode_len()
    }

    #[verifier::spinoff_prover]
    fn encodable(&self) -> (b: bool) {
        let b = self.topic.encodable() && self.partitions.encodable();
        proof {
            self.lemma_encoding();
            let fs = Self::encoded_fields();
            let vs = seq![self.topic.value(), self.partitions.value()];
            assert(self.value() == Value::Fields(vs));
            if b {
                assert forall|k: int| 0 <= k < vs.len() implies wf_value(fs[k], #[trigger] vs[k]) by {
                    if k == 0 {} else if k == 1 {}
                }
            }
        }
        b
    }

    fn encode(&self, writer: &mut Vec<u8>) {
        proof { self.lemma_encoding(); }
        self.topic.encode(writer);
        self.partitions.encode(writer);
        assert(writer@ =~= old(writer)@ + encode_value(Self::encode_schema(), self.value()));
    }
}

#[derive(Clone, Debug, PartialEq)]
pub struct FetchRequest<'i> {
    pub replica_id: i32,
    pub max_wait_time: i32,
    pub min_bytes: i32,
    pub max_bytes: i32,
    pub isolation_level: i8,
    pub session_id: i32,
    pub session_epoch: i32,
    pub topics: Vec<Topics<'i>>,
    pub forgotten_topics_data: Vec<ForgottenTopicsData<'i>>,
    pub rack_id: &'i str,
}

impl<'i> Wire for FetchRequest<'i> {
    open spec fn value(&self) -> Value {
        Value::Fields(seq![self.replica_id.value(), self.max_wait_time.value(), self.min_bytes.value(), self.max_bytes.value(), self.isolation_level.value(), self.session_id.value(), self.session_epoch.value(), self.topics.value(), self.forgotten_topics_data.value(), self.rack_id.value()])
    }
}

impl<'i> FetchRequest<'i> {
    /// The wire format, field by field.
    pub open spec fn fields() -> Seq<Schema> {
        seq![Schema::I32, Schema::I32, Schema::I32, Schema::I32, Schema::I8, Schema::I32, Schema::I32, Schema::Array(Box::new(Topics::<'i>::schema())), Schema::Array(Box::new(ForgottenTopicsData::<'i>::schema())), Schema::Str]
    }

    pub open spec fn schema() -> Schema {
        Schema::Struct(Self::fields())
    }

    /// The schemas with which the fields are written.
    pub open spec fn encoded_fields() -> Seq<Schema> {
        seq![<i32 as Encode>::encode_schema(), <i32 as Encode>::encode_schema(), <i32 as Encode>::encode_schema(), <i32 as Encode>::encode_schema(), <i8 as Encode>::encode_schema(), <i32 as Encode>::encode_schema(), <i32 as Encode>::encode_schema(), <Vec<Topics<'i>> as Encode>::encode_schema(), <Vec<ForgottenTopicsData<'i>> as Encode>::encode_schema(), <&'i str as Encode>::encode_schema()]
    }

    /// The encoding of the whole is the encodings of the fields in order.
    pub proof fn lemma_encoding(&self)
        ensures
            encode_value(<Self as Encode>::encode_schema(), self.value()) == encode_value(<i32 as Encode>::encode_schema(), self.replica_id.value()) + encode_value(<i32 as Encode>::encode_schema(), self.max_wait_time.value()) + encode_value(<i32 as Encode>::encode_schema(), self.min_bytes.value()) + encode_value(<i32 as Encode>::encode_schema(), self.max_bytes.value()) + encode_value(<i8 as Encode>::encode_schema(), self.isolation_level.value()) + encode_value(<i32 as Encode>::encode_schema(), self.session_id.value()) + encode_value(<i32 as Encode>::encode_schema(), self.session_epoch.value()) + encode_value(<Vec<Topics<'i>> as Encode>::encode_schema(), self.topics.value()) + encode_value(<Vec<ForgottenTopicsData<'i>> as Encode>::encode_schema(), self.forgotten_topics_data.value()) + encode_value(<&'i str as Encode>::encode_schema(), self.rack_id.value()),
            reported_len(<Self as Encode>::encode_schema(), self.value()) == reported_len(<i32 as Encode>::encode_schema(), self.replica_id.value()) + reported_len(<i32 as Encode>::encode_schema(), self.max_wait_time.value()) + reported_len(<i32 as Encode>::encode_schema(), self.min_bytes.value()) + reported_len(<i32 as Encode>::encode_schema(), self.max_bytes.value()) + reported_len(<i8 as Encode>::encode_schema(), self.isolation_level.value()) + reported_len(<i32 as Encode>::encode_schema(), self.session_id.value()) + reported_len(<i32 as Encode>::encode_schema(), self.session_epoch.value()) + reported_len(<Vec<Topics<'i>> as Encode>::encode_schema(), self.topics.value()) + reported_len(<Vec<ForgottenTopicsData<'i>> as Encode>::encode_schema(), self.forgotten_topics_data.value()) + reported_len(<&'i str as Encode>::encode_schema(), self.rack_id.value()),
            wf_value(<Self as Encode>::encode_schema(), self.value()) ==> wf_value(<i32 as Encode>::encode_schema(), self.replica_id.value()),
            wf_value(<Self as Encode>::encode_schema(), self.value()) ==> wf_value(<i32 as Encode>::encode_schema(), self.max_wait_time.value()),
            wf_value(<Self as Encode>::encode_schema(), self.value()) ==> wf_value(<i32 as Encode>::encode_schema(), self.min_bytes.value()),
            wf_value(<Self as Encode>::encode_schema(), self.value()) ==> wf_value(<i32 as Encode>::encode_schema(), self.max_bytes.value()),
            wf_value(<Self as Encode>::encode_schema(), self.value()) ==> wf_value(<i8 as Encode>::encode_schema(), self.isolation_level.value()),
            wf_value(<Self as Encode>::encode_schema(), self.value()) ==> wf_value(<i32 as Encode>::encode_schema(), self.session_id.value()),
            wf_value(<Self as Encode>::encode_schema(), self.value()) ==> wf_value(<i32 as Encode>::encode_schema(), self.session_epoch.value()),
            wf_value(<Self as Encode>::encode_schema(), self.value()) ==> wf_value(<Vec<Topics<'i>> as Encode>::encode_schema(), self.topics.value()),
            wf_value(<Self as Encode>::encode_schema(), self.value()) ==> wf_value(<Vec<ForgottenTopicsData<'i>> as Encode>::encode_schema(), self.forgotten_topics_data.value()),
            wf_value(<Self as Encode>::encode_schema(), self.value()) ==> wf_value(<&'i str as Encode>::encode_schema(), self.rack_id.value()),
    {
        let fs = Self::encoded_fields();
        let vs = seq![self.replica_id.value(), self.max_wait_time.value(), self.min_bytes.value(), self.max_bytes.value(), self.isolation_level.value(), self.session_id.value(), self.session_epoch.value(), self.topics.value(), self.forgotten_topics_data.value(), self.rack_id.value()];
        assert(self.value() == Value::Fields(vs));
        assert(encode_fields(fs, 10, vs) == Seq::<u8>::empty());
        assert(encode_fields(fs, 9, vs) == encode_value(fs[9], vs[9]) + encode_fields(fs, 10, vs));
        assert(encode_fields(fs, 8, vs) == encode_value(fs[8], vs[8]) + encode_fields(fs, 9, vs));
        assert(encode_fields(fs, 7, vs) == encode_value(fs[7], vs[7]) + encode_fields(fs, 8, vs));
        assert(encode_fields(fs, 6, vs) == encode_value(fs[6], vs[6]) + encode_fields(fs, 7, vs));
        assert(encode_fields(fs, 5, vs) == encode_value(fs[5], vs[5]) + encode_fields(fs, 6, vs));
        assert(encode_fields(fs, 4, vs) == encode_value(fs[4], vs[4]) + encode_fields(fs, 5, vs));
        assert(encode_fields(fs, 3, vs) == encode_value(fs[3], vs[3]) + encode_fields(fs, 4, vs));
        assert(encode_fields(fs, 2, vs) == encode_value(fs[2], vs[2]) + encode_fields(fs, 3, vs));
        assert(encode_fields(fs, 1, vs) == encode_value(fs[1], vs[1]) + encode_fields(fs, 2, vs));
        assert(encode_fields(fs, 0, vs) == encode_value(fs[0], vs[0]) + encode_fields(fs, 1, vs));
        assert(encode_fields(fs, 0, vs) =~= encode_value(fs[0], vs[0]) + encode_value(fs[1], vs[1]) + encode_value(fs[2], vs[2]) + encode_value(fs[3], vs[3]) + encode_value(fs[4], vs[4]) + encode_value(fs[5], vs[5]) + encode_value(fs[6], vs[6]) + encode_value(fs[7], vs[7]) + encode_value(fs[8], vs[8]) + encode_value(fs[9], vs[9]));
        assert(reported_fields(fs, 10, vs) == 0);
        assert(reported_fields(fs, 9, vs) == reported_len(fs[9], vs[9]) + reported_fields(fs, 10, vs));
        assert(reported_fields(fs, 8, vs) == reported_len(fs[8], vs[8]) + reported_fields(fs, 9, vs));
        assert(reported_fields(fs, 7, vs) == reported_len(fs[7], vs[7]) + reported_fields(fs, 8, vs));
        assert(reported_fields(fs, 6, vs) == reported_len(fs[6], vs[6]) + reported_fields(fs, 7, vs));
        assert(reported_fields(fs, 5, vs) == reported_len(fs[5], vs[5]) + reported_fields(fs, 6, vs));
        assert(reported_fields(fs, 4, vs) == reported_len(fs[4], vs[4]) + reported_fields(fs, 5, vs));
        assert(reported_fields(fs, 3, vs) == reported_len(fs[3], vs[3]) + reported_fields(fs, 4, vs));
        assert(reported_fields(fs, 2, vs) == reported_len(fs[2], vs[2]) + reported_fields(fs, 3, vs));
        assert(reported_fields(fs, 1, vs) == reported_len(fs[1], vs[1]) + reported_fields(fs, 2, vs));
        assert(reported_fields(fs, 0, vs) == reported_len(fs[0], vs[0]) + reported_fields(fs, 1, vs));
        if wf_value(<Self as Encode>::encode_schema(), self.value()) {
            assert(wf_value(fs[0], vs[0]));
            assert(wf_value(fs[1], vs[1]));
            assert(wf_value(fs[2], vs[2]));
            assert(wf_value(fs[3], vs[3]));
            assert(wf_value(fs[4], vs[4]));
            assert(wf_value(fs[5], vs[5]));
            assert(wf_value(fs[6], vs[6]));
            assert(wf_value(fs[7], vs[7]));
            assert(wf_value(fs[8], vs[8]));
            assert(wf_value(fs[9], vs[9]));
        }
    }

    /// The type reads as it writes, and counts all of its lists.
    pub proof fn lemma_wire_format()
        ensures
            Self::schema() == <Self as Encode>::encode_schema(),
            framed(Self::schema()),
    {
        Topics::<'i>::lemma_wire_format();
        ForgottenTopicsData::<'i>::lemma_wire_format();
        assert(Self::fields() =~= Self::encoded_fields());
        assert forall|k: int| 0 <= k < Self::fields().len() implies framed(#[trigger] Self::fields()[k]) by {
            reveal_with_fuel(framed, 3);
            if k == 0 {} else if k == 1 {} else if k == 2 {} else if k == 3 {} else if k == 4 {} else if k == 5 {} else if k == 6 {} else if k == 7 {} else if k == 8 {} else if k == 9 {}
        }
    }
}

impl<'i> Decode<'i> for FetchRequest<'i> {
    open spec fn parse_schema() -> Schema {
        Self::schema()
    }

    #[verifier::spinoff_prover]
    #[verifier::rlimit(100)]
    fn parse_at(input: &'i [u8], pos: usize) -> (r: Result<(Self, usize), bool>) {
        let ghost s = input@;
        let ghost fs = Self::fields();
        let p0 = pos;
        let (f0, p1): (i32, usize) = match be_i32(input, p0) {
            Ok(x) => x,
            Err(c) => {
                proof {
                    assert(parse_fields(fs, 0, s, p0 as int) == Parsed::Failed(c));
                }
                return Err(c);
            },
        };
        let (f1, p2): (i32, usize) = match be_i32(input, p1) {
            Ok(x) => x,
            Err(c) => {
                proof {
                    assert(parse_fields(fs, 1, s, p1 as int) == Parsed::Failed(c));
                    assert(parse_fields(fs, 0, s, p0 as int) == Parsed::Failed(c || p1 > p0));
                }
                return Err(c || p1 > p0);
            },
        };
        let (f2, p3): (i32, usize) = match be_i32(input, p2) {
            Ok(x) => x,
            Err(c) => {
                proof {
                    assert(parse_fields(fs, 2, s, p2 as int) == Parsed::Failed(c));
                    assert(parse_fields(fs, 1, s, p1 as int) == Parsed::Failed(c || p2 > p1));
                    assert(parse_fields(fs, 0, s, p0 as int) == Parsed::Failed(c || p2 > p0));
                }
                return Err(c || p2 > p0);
            },
        };
        let (f3, p4): (i32, usize) = match be_i32(input, p3) {
            Ok(x) => x,
            Err(c) => {
                proof {
                    assert(parse_fields(fs, 3, s, p3 as int) == Parsed::Failed(c));
                    assert(parse_fields(fs, 2, s, p2 as int) == Parsed::Failed(c || p3 > p2));
                    assert(parse_fields(fs, 1, s, p1 as int) == Parsed::Failed(c || p3 > p1));
                    assert(parse_fields(fs, 0, s, p0 as int) == Parsed::Failed(c || p3 > p0));
                }
                return Err(c || p3 > p0);
            },
        };
        let (f4, p5): (i8, usize) = match be_i8(input, p4) {
            Ok(x) => x,
            Err(c) => {
                proof {
                    assert(parse_fields(fs, 4, s, p4 as int) == Parsed::Failed(c));
                    assert(parse_fields(fs, 3, s, p3 as int) == Parsed::Failed(c || p4 > p3));
                    assert(parse_fields(fs, 2, s, p2 as int) == Parsed::Failed(c || p4 > p2));
                    assert(parse_fields(fs, 1, s, p1 as int) == Parsed::Failed(c || p4 > p1));
                    assert(parse_fields(fs, 0, s, p0 as int) == Parsed::Failed(c || p4 > p0));
                }
                return Err(c || p4 > p0);
            },
        };
        let (f5, p6): (i32, usize) = match be_i32(input, p5) {
            Ok(x) => x,
            Err(c) => {
                proof {
                    assert(parse_fields(fs, 5, s, p5 as int) == Parsed::Failed(c));
                    assert(parse_fields(fs, 4, s, p4 as int) == Parsed::Failed(c || p5 > p4));
                    assert(parse_fields(fs, 3, s, p3 as int) == Parsed::Failed(c || p5 > p3));
                    assert(parse_fields(fs, 2, s, p2 as int) == Parsed::Failed(c || p5 > p2));
                    assert(parse_fields(fs, 1, s, p1 as int) == Parsed::Failed(c || p5 > p1));
                    assert(parse_fields(fs, 0, s, p0 as int) == Parsed::Failed(c || p5 > p0));
                }
                return Err(c || p5 > p0);
            },
        };
        let (f6, p7): (i32, usize) = match be_i32(input, p6) {
            Ok(x) => x,
            Err(c) => {
                proof {
                    assert(parse_fields(fs, 6, s, p6 as int) == Parsed::Failed(c));
                    assert(parse_fields(fs, 5, s, p5 as int) == Parsed::Failed(c || p6 > p5));
                    assert(parse_fields(fs, 4, s, p4 as int) == Parsed::Failed(c || p6 > p4));
                    assert(parse_fields(fs, 3, s, p3 as int) == Parsed::Failed(c || p6 > p3));
                    assert(parse_fields(fs, 2, s, p2 as int) == Parsed::Failed(c || p6 > p2));
                    assert(parse_fields(fs, 1, s, p1 as int) == Parsed::Failed(c || p6 > p1));
                    assert(parse_fields(fs, 0, s, p0 as int) == Parsed::Failed(c || p6 > p0));
                }
                return Err(c || p6 > p0);
            },
        };
        let (f7, p8): (Vec<Topics<'i>>, usize) = match array::<Topics<'i>>(input, p7) {
            Ok(x) => x,
            Err(c) => {
                proof {
                    assert(parse_fields(fs, 7, s, p7 as int) == Parsed::Failed(c));
                    assert(parse_fields(fs, 6, s, p6 as int) == Parsed::Failed(c || p7 > p6));
                    assert(parse_fields(fs, 5, s, p5 as int) == Parsed::Failed(c || p7 > p5));
                    assert(parse_fields(fs, 4, s, p4 as int) == Parsed::Failed(c || p7 > p4));
                    assert(parse_fields(fs, 3, s, p3 as int) == Parsed::Failed(c || p7 > p3));
                    assert(parse_fields(fs, 2, s, p2 as int) == Parsed::Failed(c || p7 > p2));
                    assert(parse_fields(fs, 1, s, p1 as int) == Parsed::Failed(c || p7 > p1));
                    assert(parse_fields(fs, 0, s, p0 as int) == Parsed::Failed(c || p7 > p0));
                }
                return Err(c || p7 > p0);
            },
        };
        let (f8, p9): (Vec<ForgottenTopicsData<'i>>, usize) = match array::<ForgottenTopicsData<'i>>(input, p8) {
            Ok(x) => x,
            Err(c) => {
                proof {
                    assert(parse_fields(fs, 8, s, p8 as int) == Parsed::Failed(c));
                    assert(parse_fields(fs, 7, s, p7 as int) == Parsed::Failed(c || p8 > p7));
                    assert(parse_fields(fs, 6, s, p6 as int) == Parsed::Failed(c || p8 > p6));
                    assert(parse_fields(fs, 5, s, p5 as int) == Parsed::Failed(c || p8 > p5));
                    assert(parse_fields(fs, 4, s, p4 as int) == Parsed::Failed(c || p8 > p4));
                    assert(parse_fields(fs, 3, s, p3 as int) == Parsed::Failed(c || p8 > p3));
                    assert(parse_fields(fs, 2, s, p2 as int) == Parsed::Failed(c || p8 > p2));
                    assert(parse_fields(fs, 1, s, p1 as int) == Parsed::Failed(c || p8 > p1));
                    assert(parse_fields(fs, 0, s, p0 as int) == Parsed::Failed(c || p8 > p0));
                }
                return Err(c || p8 > p0);
            },
        };
        let (f9, p10): (&'i str, usize) = match string(input, p9) {
            Ok(x) => x,
            Err(c) => {
                proof {
                    assert(parse_fields(fs, 9, s, p9 as int) == Parsed::Failed(c));
                    assert(parse_fields(fs, 8, s, p8 as int) == Parsed::Failed(c || p9 > p8));
                    assert(parse_fields(fs, 7, s, p7 as int) == Parsed::Failed(c || p9 > p7));
                    assert(parse_fields(fs, 6, s, p6 as int) == Parsed::Failed(c || p9 > p6));
                    assert(parse_fields(fs, 5, s, p5 as int) == Parsed::Failed(c || p9 > p5));
                    assert(parse_fields(fs, 4, s, p4 as int) == Parsed::Failed(c || p9 > p4));
                    assert(parse_fields(fs, 3, s, p3 as int) == Parsed::Failed(c || p9 > p3));
                    assert(parse_fields(fs, 2, s, p2 as int) == Parsed::Failed(c || p9 > p2));
                    assert(parse_fields(fs, 1, s, p1 as int) == Parsed::Failed(c || p9 > p1));
                    assert(parse_fields(fs, 0, s, p0 as int) == Parsed::Failed(c || p9 > p0));
                }
                return Err(c || p9 > p0);
            },
        };
        proof {
            assert(parse_fields(fs, 10, s, p10 as int) == Parsed::Done(Value::Fields(Seq::empty()), p10 as int));
            assert(seq![f9.value()] + Seq::<Value>::empty() =~= seq![f9.value()]);
            assert(parse_fields(fs, 9, s, p9 as int) == Parsed::Done(Value::Fields(seq![f9.value()]), p10 as int));
            assert(seq![f8.value()] + seq![f9.value()] =~= seq![f8.value(), f9.value()]);
            assert(parse_fields(fs, 8, s, p8 as int) == Parsed::Done(Value::Fields(seq![f8.value(), f9.value()]), p10 as int));
            assert(seq![f7.value()] + seq![f8.value(), f9.value()] =~= seq![f7.value(), f8.value(), f9.value()]);
            assert(parse_fields(fs, 7, s, p7 as int) == Parsed::Done(Value::Fields(seq![f7.value(), f8.value(), f9.value()]), p10 as int));
            assert(seq![f6.value()] + seq![f7.value(), f8.value(), f9.value()] =~= seq![f6.value(), f7.value(), f8.value(), f9.value()]);
            assert(parse_fields(fs, 6, s, p6 as int) == Parsed::Done(Value::Fields(seq![f6.value(), f7.value(), f8.value(), f9.value()]), p10 as int));
            assert(seq![f5.value()] + seq![f6.value(), f7.value(), f8.value(), f9.value()] =~= seq![f5.value(), f6.value(), f7.value(), f8.value(), f9.value()]);
            assert(parse_fields(fs, 5, s, p5 as int) == Parsed::Done(Value::Fields(seq![f5.value(), f6.value(), f7.value(), f8.value(), f9.value()]), p10 as int));
            assert(seq![f4.value()] + seq![f5.value(), f6.value(), f7.value(), f8.value(), f9.value()] =~= seq![f4.value(), f5.value(), f6.value(), f7.value(), f8.value(), f9.value()]);
            assert(parse_fields(fs, 4, s, p4 as int) == Parsed::Done(Value::Fields(seq![f4.value(), f5.value(), f6.value(), f7.value(), f8.value(), f9.value()]), p10 as int));
            assert(seq![f3.value()] + seq![f4.value(), f5.value(), f6.value(), f7.value(), f8.value(), f9.value()] =~= seq![f3.value(), f4.value(), f5.value(), f6.value(), f7.value(), f8.value(), f9.value()]);
            assert(parse_fields(fs, 3, s, p3 as int) == Parsed::Done(Value::Fields(seq![f3.value(), f4.value(), f5.value(), f6.value(), f7.value(), f8.value(), f9.value()]), p10 as int));
            assert(seq![f2.value()] + seq![f3.value(), f4.value(), f5.value(), f6.value(), f7.value(), f8.value(), f9.value()] =~= seq![f2.value(), f3.value(), f4.value(), f5.value(), f6.value(), f7.value(), f8.value(), f9.value()]);
            assert(parse_fields(fs, 2, s, p2 as int) == Parsed::Done(Value::Fields(seq![f2.value(), f3.value(), f4.value(), f5.value(), f6.value(), f7.value(), f8.value(), f9.value()]), p10 as int));
            assert(seq![f1.value()] + seq![f2.value(), f3.value(), f4.value(), f5.value(), f6.value(), f7.value(), f8.value(), f9.value()] =~= seq![f1.value(), f2.value(), f3.value(), f4.value(), f5.value(), f6.value(), f7.value(), f8.value(), f9.value()]);
            assert(parse_fields(fs, 1, s, p1 as int) == Parsed::Done(Value::Fields(seq![f1.value(), f2.value(), f3.value(), f4.value(), f5.value(), f6.value(), f7.value(), f8.value(), f9.value()]), p10 as int));
            assert(seq![f0.value()] + seq![f1.value(), f2.value(), f3.value(), f4.value(), f5.value(), f6.value(), f7.value(), f8.value(), f9.value()] =~= seq![f0.value(), f1.value(), f2.value(), f3.value(), f4.value(), f5.value(), f6.value(), f7.value(), f8.value(), f9.value()]);
            assert(parse_fields(fs, 0, s, p0 as int) == Parsed::Done(Value::Fields(seq![f0.value(), f1.value(), f2.value(), f3.value(), f4.value(), f5.value(), f6.value(), f7.value(), f8.value(), f9.value()]), p10 as int));
        }
        Ok((FetchRequest { replica_id: f0, max_wait_time: f1, min_bytes: f2, max_bytes: f3, isolation_level: f4, session_id: f5, session_epoch: f6, topics: f7, forgotten_topics_data: f8, rack_id: f9 }, p10))
    }
}

impl<'i> Encode for FetchRequest<'i> {
    open spec fn encode_schema() -> Schema {
        Schema::Struct(Self::encoded_fields())
    }

    fn encode_len(&self) -> (n: usize) {
        proof { self.lemma_encoding(); }
        self.replica_id.encode_len() + self.max_wait_time.encode_len() + self.min_bytes.encode_len() + self.max_bytes.encode_len() + self.isolation_level.encode_len() + self.session_id.encode_len() + self.session_epoch.encode_len() + self.topics.encode_len() + self.forgotten_topics_data.encode_len() + self.rack_id.encode_len()
    }

    #[verifier::spinoff_prover]
    fn encodable(&self) -> (b: bool) {
        let b = self.replica_id.encodable() && self.max_wait_time.encodable() && self.min_bytes.encodable() && self.max_bytes.encodable() && self.isolation_level.encodable() && self.session_id.encodable() && self.session_epoch.encodable() && self.topics.encodable() && self.forgotten_topics_data.encodable() && self.rack_id.encodable();
        proof {
            self.lemma_encoding();
            let fs = Self::encoded_fields();
            let vs = seq![self.replica_id.value(), self.max_wait_time.value(), self.min_bytes.value(), self.max_bytes.value(), self.isolation_level.value(), self.session_id.value(), self.session_epoch.value(), self.topics.value(), self.forgotten_topics_data.value(), self.rack_id.value()];
            assert(self.value() == Value::Fields(vs));
            if b {
                assert forall|k: int| 0 <= k < vs.len() implies wf_value(fs[k], #[trigger] vs[k]) by {
                    if k == 0 {} else if k == 1 {} else if k == 2 {} else if k == 3 {} else if k == 4 {} else if k == 5 {} else if k == 6 {} else if k == 7 {} else if k == 8 {} else if k == 9 {}
                }
            }
        }
        b
    }

    fn encode(&self, writer: &mut Vec<u8>) {
        proof { self.lemma_encoding(); }
        self.replica_id.encode(writer);
        self.max_wait_time.encode(writer);
        self.min_bytes.encode(writer);
        self.max_bytes.encode(writer);
        self.isolation_level.encode(writer);
        self.session_id.encode(writer);
        self.session_epoch.encode(writer);
        self.topics.encode(writer);
        self.forgotten_topics_data.encode(writer);
        self.rack_id.encode(writer);
        assert(writer@ =~= old(writer)@ + encode_value(Self::encode_schema(), self.value()));
    }
}

} // verus!
