//! The Create Topics Request message (version 0).
use vstd::prelude::*;
use crate::wire::{Parsed, Schema, Value, encode_fields, encode_value, framed, parse_fields, parse_value, reported_fields, reported_len, wf_value};
use crate::codec::{Decode, Encode, Wire, agrees, array, be_i16, be_i32, boolean, nullable_string, parse_prefix, parsed_prefix, string};

verus! {

/// Parses a `CreateTopicsRequest` at the start of `input`; gives it with the input that
/// follows it, or `None` when the input does not start with one.
pub fn create_topics_request<'i>(input: &'i [u8]) -> (r: Option<(CreateTopicsRequest<'i>, &'i [u8])>)
    ensures
        parsed_prefix(r, CreateTopicsRequest::<'i>::schema(), input@),
{
    parse_prefix(input)
}

pub const VERSION: i16 = 0;

#[derive(Clone, Debug, PartialEq)]
pub struct Assignments {
    pub partition_index: i32,
    pub broker_ids: Vec<i32>,
}

impl Wire for Assignments {
    open spec fn value(&self) -> Value {
        Value::Fields(seq![self.partition_index.value(), self.broker_ids.value()])
    }
}

impl Assignments {
    /// The wire format, field by field.
    pub open spec fn fields() -> Seq<Schema> {
        seq![Schema::I32, Schema::Array(Box::new(Schema::I32))]
    }

    pub open spec fn schema() -> Schema {
        Schema::Struct(Self::fields())
    }

    /// The schemas with which the fields are written.
    pub open spec fn encoded_fields() -> Seq<Schema> {
        seq![<i32 as Encode>::encode_schema(), <Vec<i32> as Encode>::encode_schema()]
    }

    /// The encoding of the whole is the encodings of the fields in order.
    pub proof fn lemma_encoding(&self)
        ensures
            encode_value(<Self as Encode>::encode_schema(), self.value()) == encode_value(<i32 as Encode>::encode_schema(), self.partition_index.value()) + encode_value(<Vec<i32> as Encode>::encode_schema(), self.broker_ids.value()),
            reported_len(<Self as Encode>::encode_schema(), self.value()) == reported_len(<i32 as Encode>::encode_schema(), self.partition_index.value()) + reported_len(<Vec<i32> as Encode>::encode_schema(), self.broker_ids.value()),
            wf_value(<Self as Encode>::encode_schema(), self.value()) ==> wf_value(<i32 as Encode>::encode_schema(), self.partition_index.value()),
            wf_value(<Self as Encode>::encode_schema(), self.value()) ==> wf_value(<Vec<i32> as Encode>::encode_schema(), self.broker_ids.value()),
    {
        let fs = Self::encoded_fields();
        let vs = seq![self.partition_index.value(), self.broker_ids.value()];
        assert(self.value() == Value::Fields(vs));
        assert(encode_fields(fs, 2, vs) == Seq::<u8>::empty());
        assert(encode_fields(fs, 1, vs) == encode_value(fs[1], vs[1]) + encode_fields(fs, 2, vs));
        assert(encode_fields(fs, 0, vs) == encode_value(fs[0], vs[0]) + encode_fields(fs, 1, vs));
        assert(encode_fields(fs, 0, vs) =~= encode_value(fs[0], vs[0]) + encode_value(fs[1], vs[1]));
        assert(reported_fields(fs, 2, vs) == 0);
        assert(reported_fields(fs, 1, vs) == reported_len(fs[1], vs[1]) + reported_fields(fs, 2, vs));
        assert(reported_fields(fs, 0, vs) == reported_len(fs[0], vs[0]) + reported_fields(fs, 1, vs));
        if wf_value(<Self as Encode>::encode_schema(), self.value()) {
            assert(wf_value(fs[0], vs[0]));
            assert(wf_value(fs[1], vs[1]));
        }
    }

    /// The type reads as it writes, and counts all of its lists.
    pub proof fn lemma_wire_format()
        ensures
            Self::schema() == <Self as Encode>::encode_schema(),
            framed(Self::schema()),
    {
        assert(Self::fields() =~= Self::encoded_fields());
        assert forall|k: int| 0 <= k < Self::fields().len() implies framed(#[trigger] Self::fields()[k]) by {
            reveal_with_fuel(framed, 3);
            if k == 0 {} else if k == 1 {}
        }
    }
}

impl<'i> Decode<'i> for Assignments {
    open spec fn parse_schema() -> Schema {
        Self::schema()
    }

    #[verifier::spinoff_prover]
    #[verifier::rlimit(60)]
    fn parse_at(input: &'i [u8], pos: usize) -> (r: Result<(Self, usize), bool>) {
        let ghost s = input@;
        let ghost fs = Self::fields();
        let p0 = pos;
        let (f0, p1): (i32, usize) = match be_i32(input, p0) {
            Ok(x) => x,
            Err(c) => {
                proof {
                    assert(parse_fields(fs, 0, s, p0 as int) == Parsed::Failed(c));
                }
                return Err(c);
            },
        };
        let (f1, p2): (Vec<i32>, usize) = match array::<i32>(input, p1) {
            Ok(x) => x,
            Err(c) => {
                proof {
                    assert(parse_fields(fs, 1, s, p1 as int) == Parsed::Failed(c));
                    assert(parse_fields(fs, 0, s, p0 as int) == Parsed::Failed(c || p1 > p0));
                }
                return Err(c || p1 > p0);
            },
        };
        proof {
            assert(parse_fields(fs, 2, s, p2 as int) == Parsed::Done(Value::Fields(Seq::empty()), p2 as int));
            assert(seq![f1.value()] + Seq::<Value>::empty() =~= seq![f1.value()]);
            assert(parse_fields(fs, 1, s, p1 as int) == Parsed::Done(Value::Fields(seq![f1.value()]), p2 as int));
            assert(seq![f0.value()] + seq![f1.value()] =~= seq![f0.value(), f1.value()]);
            assert(parse_fields(fs, 0, s, p0 as int) == Parsed::Done(Value::Fields(seq![f0.value(), f1.value()]), p2 as int));
        }
        Ok((Assignments { partition_index: f0, broker_ids: f1 }, p2))
    }
}

impl Encode for Assignments {
    open spec fn encode_schema() -> Schema {
        Schema::Struct(Self::encoded_fields())
    }

    fn encode_len(&self) -> (n: usize) {
        proof { self.lemma_encoding(); }
        self.partition_index.encode_len() + self.broker_ids.encode_len()
    }

    #[verifier::spinoff_prover]
    fn encodable(&self) -> (b: bool) {
        let b = self.partition_index.encodable() && self.broker_ids.encodable();
        proof {
            self.lemma_encoding();
            let fs = Self::encoded_fields();
            let vs = seq![self.partition_index.value(), self.broker_ids.value()];
            assert(self.value() == Value::Fields(vs));
            if b {
                assert forall|k: int| 0 <= k < vs.len() implies wf_value(fs[k], #[trigger] vs[k]) by {
                    if k == 0 {} else if k == 1 {}
                }
            }
        }
        b
    }

    fn encode(&self, writer: &mut Vec<u8>) {
        proof { self.lemma_encoding(); }
        self.partition_index.encode(writer);
        self.broker_ids.encode(writer);
        assert(writer@ =~= old(writer)@ + encode_value(Self::encode_schema(), self.value()));
    }
}

#[derive(Clone, Debug, PartialEq)]
pub struct Configs<'i> {
    pub name: &'i str,
    pub value: Option<&'i str>,
}

impl<'i> Wire for Configs<'i> {
    open spec fn value(&self) -> Value {
        Value::Fields(seq![self.name.value(), self.value.value()])
    }
}

impl<'i> Configs<'i> {
    /// The wire format, field by field.
    pub open spec fn fields() -> Seq<Schema> {
        seq![Schema::Str, Schema::NullableStr]
    }

    pub open spec fn schema() -> Schema {
        Schema::Struct(Self::fields())
    }

    /// The schemas with which the fields are written.
    pub open spec fn encoded_fields() -> Seq<Schema> {
        seq![<&'i str as Encode>::encode_schema(), <Option<&'i str> as Encode>::encode_schema()]
    }

    /// The encoding of the whole is the encodings of the fields in order.
    pub proof fn lemma_encoding(&self)
        ensures
            encode_value(<Self as Encode>::encode_schema(), self.value()) == encode_value(<&'i str as Encode>::encode_schema(), self.name.value()) + encode_value(<Option<&'i str> as Encode>::encode_schema(), self.value.value()),
            reported_len(<Self as Encode>::encode_schema(), self.value()) == reported_len(<&'i str as Encode>::encode_schema(), self.name.value()) + reported_len(<Option<&'i str> as Encode>::encode_schema(), self.value.value()),
            wf_value(<Self as Encode>::encode_schema(), self.value()) ==> wf_value(<&'i str as Encode>::encode_schema(), self.name.value()),
            wf_value(<Self as Encode>::encode_schema(), self.value()) ==> wf_value(<Option<&'i str> as Encode>::encode_schema(), self.value.value()),
    {
        let fs = Self::encoded_fields();
        let vs = seq![self.name.value(), self.value.value()];
        assert(self.value() == Value::Fields(vs));
        assert(encode_fields(fs, 2, vs) == Seq::<u8>::empty());
        assert(encode_fields(fs, 1, vs) == encode_value(fs[1], vs[1]) + encode_fields(fs, 2, vs));
        assert(encode_fields(fs, 0, vs) == encode_value(fs[0], vs[0]) + encode_fields(fs, 1, vs));
        assert(encode_fields(fs, 0, vs) =~= encode_value(fs[0], vs[0]) + encode_value(fs[1], vs[1]));
        assert(reported_fields(fs, 2, vs) == 0);
        assert(reported_fields(fs, 1, vs) == reported_len(fs[1], vs[1]) + reported_fields(fs, 2, vs));
        assert(reported_fields(fs, 0, vs) == reported_len(fs[0], vs[0]) + reported_fields(fs, 1, vs));
        if wf_value(<Self as Encode>::encode_schema(), self.value()) {
            assert(wf_value(fs[0], vs[0]));
            assert(wf_value(fs[1], vs[1]));
        }
    }

    /// The type reads as it writes, and counts all of its lists.
    pub proof fn lemma_wire_format()
        ensures
            Self::schema() == <Self as Encode>::encode_schema(),
            framed(Self::schema()),
    {
        assert(Self::fields() =~= Self::encoded_fields());
        assert forall|k: int| 0 <= k < Self::fields().len() implies framed(#[trigger] Self::fields()[k]) by {
            reveal_with_fuel(framed, 3);
            if k == 0 {} else if k == 1 {}
        }
    }
}

impl<'i> Decode<'i> for Configs<'i> {
    open spec fn parse_schema() -> Schema {
        Self::schema()
    }

    #[verifier::spinoff_prover]
    #[verifier::rlimit(60)]
    fn parse_at(input: &'i [u8], pos: usize) -> (r: Result<(Self, usize), bool>) {
        let ghost s = input@;
        let ghost fs = Self::fields();
        let p0 = pos;
        let (f0, p1): (&'i str, usize) = match string(input, p0) {
            Ok(x) => x,
            Err(c) => {
                proof {
                    assert(parse_fields(fs, 0, s, p0 as int) == Parsed::Failed(c));
                }
                return Err(c);
            },
        };
        let (f1, p2): (Option<&'i str>, usize) = match nullable_string(input, p1) {
            Ok(x) => x,
            Err(c) => {
                proof {
                    assert(parse_fields(fs, 1, s, p1 as int) == Parsed::Failed(c));
                    assert(parse_fields(fs, 0, s, p0 as int) == Parsed::Failed(c || p1 > p0));
                }
                return Err(c || p1 > p0);
            },
        };
        proof {
            assert(parse_fields(fs, 2, s, p2 as int) == Parsed::Done(Value::Fields(Seq::empty()), p2 as int));
            assert(seq![f1.value()] + Seq::<Value>::empty() =~= seq![f1.value()]);
            assert(parse_fields(fs, 1, s, p1 as int) == Parsed::Done(Value::Fields(seq![f1.value()]), p2 as int));
            assert(seq![f0.value()] + seq![f1.value()] =~= seq![f0.value(), f1.value()]);
            assert(parse_fields(fs, 0, s, p0 as int) == Parsed::Done(Value::Fields(seq![f0.value(), f1.value()]), p2 as int));
        }
        Ok((Configs { name: f0, value: f1 }, p2))
    }
}

impl<'i> Encode for Configs<'i> {
    open spec fn encode_schema() -> Schema {
        Schema::Struct(Self::encoded_fields())
    }

    fn encode_len(&self) -> (n: usize) {
        proof { self.lemma_encoding(); }
        self.name.encode_len() + self.value.encode_len()
    }

    #[verifier::spinoff_prover]
    fn encodable(&self) -> (b: bool) {
        let b = self.name.encodable() && self.value.encodable();
        proof {
            self.lemma_encoding();
            let fs = Self::encoded_fields();
            let vs = seq![self.name.value(), self.value.value()];
            assert(self.value() == Value::Fields(vs));
            if b {
                assert forall|k: int| 0 <= k < vs.len() implies wf_value(fs[k], #[trigger] vs[k]) by {
                    if k == 0 {} else if k == 1 {}
                }
            }
        }
        b
    }

    fn encode(&self, writer: &mut Vec<u8>) {
        proof { self.lemma_encoding(); }
        self.name.encode(writer);
        self.value.encode(writer);
        assert(writer@ =~= old(writer)@ + encode_value(Self::encode_schema(), self.value()));
    }
}

#[derive(Clone, Debug, PartialEq)]
pub struct Topics<'i> {
    pub name: &'i str,
    pub num_partitions: i32,
    pub replication_factor: i16,
    pub assignments: Vec<Assignments>,
    pub configs: Vec<Configs<'i>>,
}

impl<'i> Wire for Topics<'i> {
    open spec fn value(&self) -> Value {
        Value::Fields(seq![self.name.value(), self.num_partitions.value(), self.replication_factor.value(), self.assignments.value(), self.configs.value()])
    }
}

impl<'i> Topics<'i> {
    /// The wire format, field by field.
    pub open spec fn fields() -> Seq<Schema> {
        seq![Schema::Str, Schema::I32, Schema::I16, Schema::Array(Box::new(Assignments::schema())), Schema::Array(Box::new(Configs::<'i>::schema()))]
    }

    pub open spec fn schema() -> Schema {
        Schema::Struct(Self::fields())
    }

    /// The schemas with which the fields are written.
    pub open spec fn encoded_fields() -> Seq<Schema> {
        seq![<&'i str as Encode>::encode_schema(), <i32 as Encode>::encode_schema(), <i16 as Encode>::encode_schema(), <Vec<Assignments> as Encode>::encode_schema(), <Vec<Configs<'i>> as Encode>::encode_schema()]
    }

    /// The encoding of the whole is the encodings of the fields in order.
    pub proof fn lemma_encoding(&self)
        ensures
            encode_value(<Self as Encode>::encode_schema(), self.value()) == encode_value(<&'i str as Encode>::encode_schema(), self.name.value()) + encode_value(<i32 as Encode>::encode_schema(), self.num_partitions.value()) + encode_value(<i16 as Encode>::encode_schema(), self.replication_factor.value()) + encode_value(<Vec<Assignments> as Encode>::encode_schema(), self.assignments.value()) + encode_value(<Vec<Configs<'i>> as Encode>::encode_schema(), self.configs.value()),
            reported_len(<Self as Encode>::encode_schema(), self.value()) == reported_len(<&'i str as Encode>::encode_schema(), self.name.value()) + reported_len(<i32 as Encode>::encode_schema(), self.num_partitions.value()) + reported_len(<i16 as Encode>::encode_schema(), self.replication_factor.value()) + reported_len(<Vec<Assignments> as Encode>::encode_schema(), self.assignments.value()) + reported_len(<Vec<Configs<'i>> as Encode>::encode_schema(), self.configs.value()),
            wf_value(<Self as Encode>::encode_schema(), self.value()) ==> wf_value(<&'i str as Encode>::encode_schema(), self.name.value()),
            wf_value(<Self as Encode>::encode_schema(), self.value()) ==> wf_value(<i32 as Encode>::encode_schema(), self.num_partitions.value()),
            wf_value(<Self as Encode>::encode_schema(), self.value()) ==> wf_value(<i16 as Encode>::encode_schema(), self.replication_factor.value()),
            wf_value(<Self as Encode>::encode_schema(), self.value()) ==> wf_value(<Vec<Assignments> as Encode>::encode_schema(), self.assignments.value()),
            wf_value(<Self as Encode>::encode_schema(), self.value()) ==> wf_value(<Vec<Configs<'i>> as Encode>::encode_schema(), self.configs.value()),
    {
        let fs = Self::encoded_fields();
        let vs = seq![self.name.value(), self.num_partitions.value(), self.replication_factor.value(), self.assignments.value(), self.configs.value()];
        assert(self.value() == Value::Fields(vs));
        assert(encode_fields(fs, 5, vs) == Seq::<u8>::empty());
        assert(encode_fields(fs, 4, vs) == encode_value(fs[4], vs[4]) + encode_fields(fs, 5, vs));
        assert(encode_fields(fs, 3, vs) == encode_value(fs[3], vs[3]) + encode_fields(fs, 4, vs));
        assert(encode_fields(fs, 2, vs) == encode_value(fs[2], vs[2]) + encode_fields(fs, 3, vs));
        assert(encode_fields(fs, 1, vs) == encode_value(fs[1], vs[1]) + encode_fields(fs, 2, vs));
        assert(encode_fields(fs, 0, vs) == encode_value(fs[0], vs[0]) + encode_fields(fs, 1, vs));
        assert(encode_fields(fs, 0, vs) =~= encode_value(fs[0], vs[0]) + encode_value(fs[1], vs[1]) + encode_value(fs[2], vs[2]) + encode_value(fs[3], vs[3]) + encode_value(fs[4], vs[4]));
        assert(reported_fields(fs, 5, vs) == 0);
        assert(reported_fields(fs, 4, vs) == reported_len(fs[4], vs[4]) + reported_fields(fs, 5, vs));
        assert(reported_fields(fs, 3, vs) == reported_len(fs[3], vs[3]) + reported_fields(fs, 4, vs));
        assert(reported_fields(fs, 2, vs) == reported_len(fs[2], vs[2]) + reported_fields(fs, 3, vs));
        assert(reported_fields(fs, 1, vs) == reported_len(fs[1], vs[1]) + reported_fields(fs, 2, vs));
        assert(reported_fields(fs, 0, vs) == reported_len(fs[0], vs[0]) + reported_fields(fs, 1, vs));
        if wf_value(<Self as Encode>::encode_schema(), self.value()) {
            assert(wf_value(fs[0], vs[0]));
            assert(wf_value(fs[1], vs[1]));
            assert(wf_value(fs[2], vs[2]));
            assert(wf_value(fs[3], vs[3]));
            assert(wf_value(fs[4], vs[4]));
        }
    }

    /// The type reads as it writes, and counts all of its lists.
    pub proof fn lemma_wire_format()
        ensures
            Self::schema() == <Self as Encode>::encode_schema(),
            framed(Self::schema()),
    {
        Assignments::lemma_wire_format();
        Configs::<'i>::lemma_wire_format();
        assert(Self::fields() =~= Self::encoded_fields());
        assert forall|k: int| 0 <= k < Self::fields().len() implies framed(#[trigger] Self::fields()[k]) by {
            reveal_with_fuel(framed, 3);
            if k == 0 {} else if k == 1 {} else if k == 2 {} else if k == 3 {} else if k == 4 {}
        }
    }
}

impl<'i> Decode<'i> for Topics<'i> {
    open spec fn parse_schema() -> Schema {
        Self::schema()
    }

    #[verifier::spinoff_prover]
    #[verifier::rlimit(75)]
    fn parse_at(input: &'i [u8], pos: usize) -> (r: Result<(Self, usize), bool>) {
        let ghost s = input@;
        let ghost fs = Self::fields();
        let p0 = pos;
        let (f0, p1): (&'i str, usize) = match string(input, p0) {
            Ok(x) => x,
            Err(c) => {
                proof {
                    assert(parse_fields(fs, 0, s, p0 as int) == Parsed::Failed(c));
                }
                return Err(c);
            },
        };
        let (f1, p2): (i32, usize) = match be_i32(input, p1) {
            Ok(x) => x,
            Err(c) => {
                proof {
                    assert(parse_fields(fs, 1, s, p1 as int) == Parsed::Failed(c));
                    assert(parse_fields(fs, 0, s, p0 as int) == Parsed::Failed(c || p1 > p0));
                }
                return Err(c || p1 > p0);
            },
        };
        let (f2, p3): (i16, usize) = match be_i16(input, p2) {
            Ok(x) => x,
            Err(c) => {
                proof {
                    assert(parse_fields(fs, 2, s, p2 as int) == Parsed::Failed(c));
                    assert(parse_fields(fs, 1, s, p1 as int) == Parsed::Failed(c || p2 > p1));
                    assert(parse_fields(fs, 0, s, p0 as int) == Parsed::Failed(c || p2 > p0));
                }
                return Err(c || p2 > p0);
            },
        };
        let (f3, p4): (Vec<Assignments>, usize) = match array::<Assignments>(input, p3) {
            Ok(x) => x,
            Err(c) => {
                proof {
                    assert(parse_fields(fs, 3, s, p3 as int) == Parsed::Failed(c));
                    assert(parse_fields(fs, 2, s, p2 as int) == Parsed::Failed(c || p3 > p2));
                    assert(parse_fields(fs, 1, s, p1 as int) == Parsed::Failed(c || p3 > p1));
                    assert(parse_fields(fs, 0, s, p0 as int) == Parsed::Failed(c || p3 > p0));
                }
                return Err(c || p3 > p0);
            },
        };
        let (f4, p5): (Vec<Configs<'i>>, usize) = match array::<Configs<'i>>(input, p4) {
            Ok(x) => x,
            Err(c) => {
                proof {
                    assert(parse_fields(fs, 4, s, p4 as int) == Parsed::Failed(c));
                    assert(parse_fields(fs, 3, s, p3 as int) == Parsed::Failed(c || p4 > p3));
                    assert(parse_fields(fs, 2, s, p2 as int) == Parsed::Failed(c || p4 > p2));
                    assert(parse_fields(fs, 1, s, p1 as int) == Parsed::Failed(c || p4 > p1));
                    assert(parse_fields(fs, 0, s, p0 as int) == Parsed::Failed(c || p4 > p0));
                }
                return Err(c || p4 > p0);
            },
        };
        proof {
            assert(parse_fields(fs, 5, s, p5 as int) == Parsed::Done(Value::Fields(Seq::empty()), p5 as int));
            assert(seq![f4.value()] + Seq::<Value>::empty() =~= seq![f4.value()]);
            assert(parse_fields(fs, 4, s, p4 as int) == Parsed::Done(Value::Fields(seq![f4.value()]), p5 as int));
            assert(seq![f3.value()] + seq![f4.value()] =~= seq![f3.value(), f4.value()]);
            assert(parse_fields(fs, 3, s, p3 as int) == Parsed::Done(Value::Fields(seq![f3.value(), f4.value()]), p5 as int));
            assert(seq![f2.value()] + seq![f3.value(), f4.value()] =~= seq![f2.value(), f3.value(), f4.value()]);
            assert(parse_fields(fs, 2, s, p2 as int) == Parsed::Done(Value::Fields(seq![f2.value(), f3.value(), f4.value()]), p5 as int));
            assert(seq![f1.value()] + seq![f2.value(), f3.value(), f4.value()] =~= seq![f1.value(), f2.value(), f3.value(), f4.value()]);
            assert(parse_fields(fs, 1, s, p1 as int) == Parsed::Done(Value::Fields(seq![f1.value(), f2.value(), f3.value(), f4.value()]), p5 as int));
            assert(seq![f0.value()] + seq![f1.value(), f2.value(), f3.value(), f4.value()] =~= seq![f0.value(), f1.value(), f2.value(), f3.value(), f4.value()]);
            assert(parse_fields(fs, 0, s, p0 as int) == Parsed::Done(Value::Fields(seq![f0.value(), f1.value(), f2.value(), f3.value(), f4.value()]), p5 as int));
        }
        Ok((Topics { name: f0, num_partitions: f1, replication_factor: f2, assignments: f3, configs: f4 }, p5))
    }
}

impl<'i> Encode for Topics<'i> {
    open spec fn encode_schema() -> Schema {
        Schema::Struct(Self::encoded_fields())
    }

    fn encode_len(&self) -> (n: usize) {
        proof { self.lemma_encoding(); }
        self.name.encode_len() + self.num_partitions.encode_len() + self.replication_factor.encode_len() + self.assignments.encode_len() + self.configs.encode_len()
    }

    #[verifier::spinoff_prover]
    fn encodable(&self) -> (b: bool) {
        let b = self.name.encodable() && self.num_partitions.encodable() && self.replication_factor.encodable() && self.assignments.encodable() && self.configs.encodable();
        proof {
            self.lemma_encoding();
            let fs = Self::encoded_fields();
            let vs = seq![self.name.value(), self.num_partitions.value(), self.replication_factor.value(), self.assignments.value(), self.configs.value()];
            assert(self.value() == Value::Fields(vs));
            if b {
                assert forall|k: int| 0 <= k < vs.len() implies wf_value(fs[k], #[trigger] vs[k]) by {
                    if k == 0 {} else if k == 1 {} else if k == 2 {} else if k == 3 {} else if k == 4 {}
                }
            }
        }
        b
    }

    fn encode(&self, writer: &mut Vec<u8>) {
        proof { self.lemma_encoding(); }
        self.name.encode(writer);
        self.num_partitions.encode(writer);
        self.replication_factor.encode(writer);
        self.assignments.encode(writer);
        self.configs.encode(writer);
        assert(writer@ =~= old(writer)@ + encode_value(Self::encode_schema(), self.value()));
    }
}

#[derive(Clone, Debug, PartialEq)]
pub struct CreateTopicsRequest<'i> {
    pub topics: Vec<Topics<'i>>,
    pub timeout_ms: i32,
    pub validate_only: bool,
}

impl<'i> Wire for CreateTopicsRequest<'i> {
    open spec fn value(&self) -> Value {
        Value::Fields(seq![self.topics.value(), self.timeout_ms.value(), self.validate_only.value()])
    }
}

impl<'i> CreateTopicsRequest<'i> {
    /// The wire format, field by field.
    pub open spec fn fields() -> Seq<Schema> {
        seq![Schema::Array(Box::new(Topics::<'i>::schema())), Schema::I32, Schema::Bool]
    }

    pub open spec fn schema() -> Schema {
        Schema::Struct(Self::fields())
    }

    /// The schemas with which the fields are written.
    pub open spec fn encoded_fields() -> Seq<Schema> {
        seq![<Vec<Topics<'i>> as Encode>::encode_schema(), <i32 as Encode>::encode_schema(), <bool as Encode>::encode_schema()]
    }

    /// The encoding of the whole is the encodings of the fields in order.
    pub proof fn lemma_encoding(&self)
        ensures
            encode_value(<Self as Encode>::encode_schema(), self.value()) == encode_value(<Vec<Topics<'i>> as Encode>::encode_schema(), self.topics.value()) + encode_value(<i32 as Encode>::encode_schema(), self.timeout_ms.value()) + encode_value(<bool as Encode>::encode_schema(), self.validate_only.value()),
            reported_len(<Self as Encode>::encode_schema(), self.value()) == reported_len(<Vec<Topics<'i>> as Encode>::encode_schema(), self.topics.value()) + reported_len(<i32 as Encode>::encode_schema(), self.timeout_ms.value()) + reported_len(<bool as Encode>::encode_schema(), self.validate_only.value()),
            wf_value(<Self as Encode>::encode_schema(), self.value()) ==> wf_value(<Vec<Topics<'i>> as Encode>::encode_schema(), self.topics.value()),
            wf_value(<Self as Encode>::encode_schema(), self.value()) ==> wf_value(<i32 as Encode>::encode_schema(), self.timeout_ms.value()),
            wf_value(<Self as Encode>::encode_schema(), self.value()) ==> wf_value(<bool as Encode>::encode_schema(), self.validate_only.value()),
    {
        let fs = Self::encoded_fields();
        let vs = seq![self.topics.value(), self.timeout_ms.value(), self.validate_only.value()];
        assert(self.value() == Value::Fields(vs));
        assert(encode_fields(fs, 3, vs) == Seq::<u8>::empty());
        assert(encode_fields(fs, 2, vs) == encode_value(fs[2], vs[2]) + encode_fields(fs, 3, vs));
        assert(encode_fields(fs, 1, vs) == encode_value(fs[1], vs[1]) + encode_fields(fs, 2, vs));
        assert(encode_fields(fs, 0, vs) == encode_value(fs[0], vs[0]) + encode_fields(fs, 1, vs));
        assert(encode_fields(fs, 0, vs) =~= encode_value(fs[0], vs[0]) + encode_value(fs[1], vs[1]) + encode_value(fs[2], vs[2]));
        assert(reported_fields(fs, 3, vs) == 0);
        assert(reported_fields(fs, 2, vs) == reported_len(fs[2], vs[2]) + reported_fields(fs, 3, vs));
        assert(reported_fields(fs, 1, vs) == reported_len(fs[1], vs[1]) + reported_fields(fs, 2, vs));
        assert(reported_fields(fs, 0, vs) == reported_len(fs[0], vs[0]) + reported_fields(fs, 1, vs));
        if wf_value(<Self as Encode>::encode_schema(), self.value()) {
            assert(wf_value(fs[0], vs[0]));
            assert(wf_value(fs[1], vs[1]));
            assert(wf_value(fs[2], vs[2]));
        }
    }

    /// The type reads as it writes, and counts all of its lists.
    pub proof fn lemma_wire_format()
        ensures
            Self::schema() == <Self as Encode>::encode_schema(),
            framed(Self::schema()),
    {
        Topics::<'i>::lemma_wire_format();
        assert(Self::fields() =~= Self::encoded_fields());
        assert forall|k: int| 0 <= k < Self::fields().len() implies framed(#[trigger] Self::fields()[k]) by {
            reveal_with_fuel(framed, 3);
            if k == 0 {} else if k == 1 {} else if k == 2 {}
        }
    }
}

impl<'i> Decode<'i> for CreateTopicsRequest<'i> {
    open spec fn parse_schema() -> Schema {
        Self::schema()
    }

    #[verifier::spinoff_prover]
    #[verifier::rlimit(60)]
    fn parse_at(input: &'i [u8], pos: usize) -> (r: Result<(Self, usize), bool>) {
        let ghost s = input@;
        let ghost fs = Self::fields();
        let p0 = pos;
        let (f0, p1): (Vec<Topics<'i>>, usize) = match array::<Topics<'i>>(input, p0) {
            Ok(x) => x,
            Err(c) => {
                proof {
                    assert(parse_fields(fs, 0, s, p0 as int) == Parsed::Failed(c));
                }
                return Err(c);
            },
        };
        let (f1, p2): (i32, usize) = match be_i32(input, p1) {
            Ok(x) => x,
            Err(c) => {
                proof {
                    assert(parse_fields(fs, 1, s, p1 as int) == Parsed::Failed(c));
                    assert(parse_fields(fs, 0, s, p0 as int) == Parsed::Failed(c || p1 > p0));
                }
                return Err(c || p1 > p0);
            },
        };
        let (f2, p3): (bool, usize) = match boolean(input, p2) {
            Ok(x) => x,
            Err(c) => {
                proof {
                    assert(parse_fields(fs, 2, s, p2 as int) == Parsed::Failed(c));
                    assert(parse_fields(fs, 1, s, p1 as int) == Parsed::Failed(c || p2 > p1));
                    assert(parse_fields(fs, 0, s, p0 as int) == Parsed::Failed(c || p2 > p0));
                }
                return Err(c || p2 > p0);
            },
        };
        proof {
            assert(parse_fields(fs, 3, s, p3 as int) == Parsed::Done(Value::Fields(Seq::empty()), p3 as int));
            assert(seq![f2.value()] + Seq::<Value>::empty() =~= seq![f2.value()]);
            assert(parse_fields(fs, 2, s, p2 as int) == Parsed::Done(Value::Fields(seq![f2.value()]), p3 as int));
            assert(seq![f1.value()] + seq![f2.value()] =~= seq![f1.value(), f2.value()]);
            assert(parse_fields(fs, 1, s, p1 as int) == Parsed::Done(Value::Fields(seq![f1.value(), f2.value()]), p3 as int));
            assert(seq![f0.value()] + seq![f1.value(), f2.value()] =~= seq![f0.value(), f1.value(), f2.value()]);
            assert(parse_fields(fs, 0, s, p0 as int) == Parsed::Done(Value::Fields(seq![f0.value(), f1.value(), f2.value()]), p3 as int));
        }
        Ok((CreateTopicsRequest { topics: f0, timeout_ms: f1, validate_only: f2 }, p3))
    }
}

impl<'i> Encode for CreateTopicsRequest<'i> {
    open spec fn encode_schema() -> Schema {
        Schema::Struct(Self::encoded_fields())
    }

    fn encode_len(&self) -> (n: usize) {
        proof { self.lemma_encoding(); }
        self.topics.encode_len() + self.timeout_ms.encode_len() + self.validate_only.encode_len()
    }

    #[verifier::spinoff_prover]
    fn encodable(&self) -> (b: bool) {
        let b = self.topics.encodable() && self.timeout_ms.encodable() && self.validate_only.encodable();
        proof {
            self.lemma_encoding();
            let fs = Self::encoded_fields();
            let vs = seq![self.topics.value(), self.timeout_ms.value(), self.validate_only.value()];
            assert(self.value() == Value::Fields(vs));
            if b {
                assert forall|k: int| 0 <= k < vs.len() implies wf_value(fs[k], #[trigger] vs[k]) by {
                    if k == 0 {} else if k == 1 {} else if k == 2 {}
                }
            }
        }
        b
    }

    fn encode(&self, writer: &mut Vec<u8>) {
        proof { self.lemma_encoding(); }
        self.topics.encode(writer);
        self.timeout_ms.encode(writer);
        self.validate_only.encode(writer);
        assert(writer@ =~= old(writer)@ + encode_value(Self::encode_schema(), self.value()));
    }
}

} // verus!
