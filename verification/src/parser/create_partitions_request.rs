//! The Create Partitions Request message.
use vstd::prelude::*;
use crate::wire::{Parsed, Schema, Value, parse_fields, parse_value};
use crate::codec::{Decode, Encode, Wire, agrees, be_i32, boolean, optional, parse_prefix, parsed_prefix, string};

verus! {

/// Parses a `CreatePartitionsRequest` at the start of `input`; gives it with the input that
/// follows it, or `None` when the input does not start with one.
pub fn create_partitions_request<'i>(input: &'i [u8]) -> (r: Option<(CreatePartitionsRequest<'i>, &'i [u8])>)
    ensures
        parsed_prefix(r, CreatePartitionsRequest::<'i>::schema(), input@),
{
    parse_prefix(input)
}

#[derive(Clone, Debug, PartialEq)]
pub struct NewPartitions<'i> {
    pub count: i32,
    pub assignment: Option<&'i [u8]>,
}

impl<'i> Wire for NewPartitions<'i> {
    open spec fn value(&self) -> Value {
        Value::Fields(seq![self.count.value(), self.assignment.value()])
    }
}

impl<'i> NewPartitions<'i> {
    /// The wire format, field by field.
    pub open spec fn fields() -> Seq<Schema> {
        seq![Schema::I32, Schema::Optional(Box::new(Schema::Bytes))]
    }

    pub open spec fn schema() -> Schema {
        Schema::Struct(Self::fields())
    }

    /// The fields are read as their types are written: the count as an `i32`, then optional assignment bytes.
    pub proof fn lemma_field_types()
        ensures
            Self::fields() == seq![<i32 as Encode>::encode_schema(), Schema::Optional(Box::new(<&'i [u8] as Encode>::encode_schema()))],
    {
        assert(Self::fields() =~= seq![<i32 as Encode>::encode_schema(), Schema::Optional(Box::new(<&'i [u8] as Encode>::encode_schema()))]);
    }
}

impl<'i> Decode<'i> for NewPartitions<'i> {
    open spec fn parse_schema() -> Schema {
        Self::schema()
    }

    #[verifier::spinoff_prover]
    #[verifier::rlimit(60)]
    fn parse_at(input: &'i [u8], pos: usize) -> (r: Result<(Self, usize), bool>) {
        let ghost s = input@;
        let ghost fs = Self::fields();
        let p0 = pos;
        let (f0, p1): (i32, usize) = match be_i32(input, p0) {
            Ok(x) => x,
            Err(c) => {
                proof {
                    assert(parse_fields(fs, 0, s, p0 as int) == Parsed::Failed(c));
                }
                return Err(c);
            },
        };
        let (f1, p2): (Option<&'i [u8]>, usize) = match optional::<&'i [u8]>(input, p1) {
            Ok(x) => x,
            Err(c) => {
                proof {
                    assert(parse_fields(fs, 1, s, p1 as int) == Parsed::Failed(c));
                    assert(parse_fields(fs, 0, s, p0 as int) == Parsed::Failed(c || p1 > p0));
                }
                return Err(c || p1 > p0);
            },
        };
        proof {
            assert(parse_fields(fs, 2, s, p2 as int) == Parsed::Done(Value::Fields(Seq::empty()), p2 as int));
            assert(seq![f1.value()] + Seq::<Value>::empty() =~= seq![f1.value()]);
            assert(parse_fields(fs, 1, s, p1 as int) == Parsed::Done(Value::Fields(seq![f1.value()]), p2 as int));
            assert(seq![f0.value()] + seq![f1.value()] =~= seq![f0.value(), f1.value()]);
            assert(parse_fields(fs, 0, s, p0 as int) == Parsed::Done(Value::Fields(seq![f0.value(), f1.value()]), p2 as int));
        }
        Ok((NewPartitions { count: f0, assignment: f1 }, p2))
    }
}

#[derive(Clone, Debug, PartialEq)]
pub struct TopicPartitions<'i> {
    pub topic: &'i str,
    pub new_partitions: NewPartitions<'i>,
}

impl<'i> Wire for TopicPartitions<'i> {
    open spec fn value(&self) -> Value {
        Value::Fields(seq![self.topic.value(), self.new_partitions.value()])
    }
}

impl<'i> TopicPartitions<'i> {
    /// The wire format, field by field.
    pub open spec fn fields() -> Seq<Schema> {
        seq![Schema::Str, NewPartitions::<'i>::schema()]
    }

    pub open spec fn schema() -> Schema {
        Schema::Struct(Self::fields())
    }

    /// The fields are read as their types are written: the topic as a string, then its new partitions.
    pub proof fn lemma_field_types()
        ensures
            Self::fields() == seq![<&'i str as Encode>::encode_schema(), NewPartitions::<'i>::schema()],
    {
        assert(Self::fields() =~= seq![<&'i str as Encode>::encode_schema(), NewPartitions::<'i>::schema()]);
    }
}

impl<'i> Decode<'i> for TopicPartitions<'i> {
    open spec fn parse_schema() -> Schema {
        Self::schema()
    }

    #[verifier::spinoff_prover]
    #[verifier::rlimit(60)]
    fn parse_at(input: &'i [u8], pos: usize) -> (r: Result<(Self, usize), bool>) {
        let ghost s = input@;
        let ghost fs = Self::fields();
        let p0 = pos;
        let (f0, p1): (&'i str, usize) = match string(input, p0) {
            Ok(x) => x,
            Err(c) => {
                proof {
                    assert(parse_fields(fs, 0, s, p0 as int) == Parsed::Failed(c));
                }
                return Err(c);
            },
        };
        let (f1, p2): (NewPartitions<'i>, usize) = match NewPartitions::parse_at(input, p1) {
            Ok(x) => x,
            Err(c) => {
                proof {
                    assert(parse_fields(fs, 1, s, p1 as int) == Parsed::Failed(c));
                    assert(parse_fields(fs, 0, s, p0 as int) == Parsed::Failed(c || p1 > p0));
                }
                return Err(c || p1 > p0);
            },
        };
        proof {
            assert(parse_fields(fs, 2, s, p2 as int) == Parsed::Done(Value::Fields(Seq::empty()), p2 as int));
            assert(seq![f1.value()] + Seq::<Value>::empty() =~= seq![f1.value()]);
            assert(parse_fields(fs, 1, s, p1 as int) == Parsed::Done(Value::Fields(seq![f1.value()]), p2 as int));
            assert(seq![f0.value()] + seq![f1.value()] =~= seq![f0.value(), f1.value()]);
            assert(parse_fields(fs, 0, s, p0 as int) == Parsed::Done(Value::Fields(seq![f0.value(), f1.value()]), p2 as int));
        }
        Ok((TopicPartitions { topic: f0, new_partitions: f1 }, p2))
    }
}

#[derive(Clone, Debug, PartialEq)]
pub struct CreatePartitionsRequest<'i> {
    pub topic_partitions: Option<TopicPartitions<'i>>,
    pub timeout: i32,
    pub validate_only: bool,
}

impl<'i> Wire for CreatePartitionsRequest<'i> {
    open spec fn value(&self) -> Value {
        Value::Fields(seq![self.topic_partitions.value(), self.timeout.value(), self.validate_only.value()])
    }
}

impl<'i> CreatePartitionsRequest<'i> {
    /// The wire format, field by field.
    pub open spec fn fields() -> Seq<Schema> {
        seq![Schema::Optional(Box::new(TopicPartitions::<'i>::schema())), Schema::I32, Schema::Bool]
    }

    pub open spec fn schema() -> Schema {
        Schema::Struct(Self::fields())
    }

    /// The fields are read as their types are written: an optional topic with its partitions, the timeout as an `i32` and the validation flag as a boolean.
    pub proof fn lemma_field_types()
        ensures
            Self::fields() == seq![Schema::Optional(Box::new(TopicPartitions::<'i>::schema())), <i32 as Encode>::encode_schema(), <bool as Encode>::encode_schema()],
    {
        assert(Self::fields() =~= seq![Schema::Optional(Box::new(TopicPartitions::<'i>::schema())), <i32 as Encode>::encode_schema(), <bool as Encode>::encode_schema()]);
    }
}

impl<'i> Decode<'i> for CreatePartitionsRequest<'i> {
    open spec fn parse_schema() -> Schema {
        Self::schema()
    }

    #[verifier::spinoff_prover]
    #[verifier::rlimit(60)]
    fn parse_at(input: &'i [u8], pos: usize) -> (r: Result<(Self, usize), bool>) {
        let ghost s = input@;
        let ghost fs = Self::fields();
        let p0 = pos;
        let (f0, p1): (Option<TopicPartitions<'i>>, usize) = match optional::<TopicPartitions<'i>>(input, p0) {
            Ok(x) => x,
            Err(c) => {
                proof {
                    assert(parse_fields(fs, 0, s, p0 as int) == Parsed::Failed(c));
                }
                return Err(c);
            },
        };
        let (f1, p2): (i32, usize) = match be_i32(input, p1) {
            Ok(x) => x,
            Err(c) => {
                proof {
                    assert(parse_fields(fs, 1, s, p1 as int) == Parsed::Failed(c));
                    assert(parse_fields(fs, 0, s, p0 as int) == Parsed::Failed(c || p1 > p0));
                }
                return Err(c || p1 > p0);
            },
        };
        let (f2, p3): (bool, usize) = match boolean(input, p2) {
            Ok(x) => x,
            Err(c) => {
                proof {
                    assert(parse_fields(fs, 2, s, p2 as int) == Parsed::Failed(c));
                    assert(parse_fields(fs, 1, s, p1 as int) == Parsed::Failed(c || p2 > p1));
                    assert(parse_fields(fs, 0, s, p0 as int) == Parsed::Failed(c || p2 > p0));
                }
                return Err(c || p2 > p0);
            },
        };
        proof {
            assert(parse_fields(fs, 3, s, p3 as int) == Parsed::Done(Value::Fields(Seq::empty()), p3 as int));
            assert(seq![f2.value()] + Seq::<Value>::empty() =~= seq![f2.value()]);
            assert(parse_fields(fs, 2, s, p2 as int) == Parsed::Done(Value::Fields(seq![f2.value()]), p3 as int));
            assert(seq![f1.value()] + seq![f2.value()] =~= seq![f1.value(), f2.value()]);
            assert(parse_fields(fs, 1, s, p1 as int) == Parsed::Done(Value::Fields(seq![f1.value(), f2.value()]), p3 as int));
            assert(seq![f0.value()] + seq![f1.value(), f2.value()] =~= seq![f0.value(), f1.value(), f2.value()]);
            assert(parse_fields(fs, 0, s, p0 as int) == Parsed::Done(Value::Fields(seq![f0.value(), f1.value(), f2.value()]), p3 as int));
        }
        Ok((CreatePartitionsRequest { topic_partitions: f0, timeout: f1, validate_only: f2 }, p3))
    }
}

} // verus!
