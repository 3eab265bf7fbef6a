//! The Delete Records Response message.
use vstd::prelude::*;
use crate::wire::{Parsed, Schema, Value, parse_fields, parse_value, int_bytes, encode_value, encode_fields, lemma_int_bytes_len, lemma_parse_encode, lemma_pow256_values};
use crate::codec::{Decode, Encode, Wire, agrees, be_i16, be_i32, be_i64, optional, parse_prefix, parsed_prefix, string};

verus! {

/// Parses a `DeleteRecordsResponse` at the start of `input`; gives it with the input that
/// follows it, or `None` when the input does not start with one.
pub fn delete_records_response<'i>(input: &'i [u8]) -> (r: Option<(DeleteRecordsResponse<'i>, &'i [u8])>)
    ensures
        parsed_prefix(r, DeleteRecordsResponse::<'i>::schema(), input@),
{
    parse_prefix(input)
}

#[derive(Clone, Debug, PartialEq)]
pub struct Partitions {
    pub partition: i32,
    pub low_watermark: i64,
    pub error_code: i16,
}

impl Wire for Partitions {
    open spec fn value(&self) -> Value {
        Value::Fields(seq![self.partition.value(), self.low_watermark.value(), self.error_code.value()])
    }
}

impl Partitions {
    /// The wire format, field by field.
    pub open spec fn fields() -> Seq<Schema> {
        seq![Schema::I32, Schema::I64, Schema::I16]
    }

    pub open spec fn schema() -> Schema {
        Schema::Struct(Self::fields())
    }

    /// The fields are read as their types are written: the partition as an `i32`, the low watermark as an `i64` and the error code as an `i16`.
    pub proof fn lemma_field_types()
        ensures
            Self::fields() == seq![<i32 as Encode>::encode_schema(), <i64 as Encode>::encode_schema(), <i16 as Encode>::encode_schema()],
    {
        assert(Self::fields() =~= seq![<i32 as Encode>::encode_schema(), <i64 as Encode>::encode_schema(), <i16 as Encode>::encode_schema()]);
    }
}

/// A partition of a Delete Records response reads as a big-endian `i32`
/// partition, an eight-byte big-endian `i64` low watermark and a
/// big-endian `i16` error code, and ends right after those 14 bytes,
/// whatever follows them.
pub proof fn lemma_partition_bytes(partition: i32, low_watermark: i64, error_code: i16, rest: Seq<u8>)
    ensures
        parse_value(
            <Partitions as Decode>::parse_schema(),
            int_bytes(partition as int, 4) + int_bytes(low_watermark as int, 8) + int_bytes(error_code as int, 2) + rest,
            0,
        ) == Parsed::Done((Partitions { partition, low_watermark, error_code }).value(), 14),
{
    let fs = Partitions::fields();
    let v = (Partitions { partition, low_watermark, error_code }).value();
    let vs = seq![Value::Int(partition as int), Value::Int(low_watermark as int), Value::Int(error_code as int)];
    let enc = int_bytes(partition as int, 4) + int_bytes(low_watermark as int, 8) + int_bytes(error_code as int, 2);
    let s = enc + rest;
    lemma_pow256_values();
    lemma_int_bytes_len(partition as int, 4);
    lemma_int_bytes_len(low_watermark as int, 8);
    lemma_int_bytes_len(error_code as int, 2);
    assert(v == Value::Fields(vs));
    assert(encode_fields(fs, 3, vs) == Seq::<u8>::empty());
    assert(encode_fields(fs, 2, vs) == encode_value(fs[2], vs[2]) + encode_fields(fs, 3, vs));
    assert(encode_fields(fs, 1, vs) == encode_value(fs[1], vs[1]) + encode_fields(fs, 2, vs));
    assert(encode_fields(fs, 0, vs) == encode_value(fs[0], vs[0]) + encode_fields(fs, 1, vs));
    assert(encode_value(Partitions::schema(), v) =~= enc);
    assert(s.subrange(0, enc.len() as int) =~= enc);
    assert(crate::wire::framed(Partitions::schema())) by {
        assert forall|k: int| 0 <= k < fs.len() implies crate::wire::framed(#[trigger] fs[k]) by {
            if k == 0 {} else if k == 1 {} else {}
        }
    }
    assert(crate::wire::wf_value(Partitions::schema(), v)) by {
        assert(crate::wire::fits_signed(partition as int, 4));
        assert(crate::wire::fits_signed(low_watermark as int, 8));
        assert(crate::wire::fits_signed(error_code as int, 2));
        assert forall|k: int| 0 <= k < vs.len() implies crate::wire::wf_value(fs[k], #[trigger] vs[k]) by {
            if k == 0 {} else if k == 1 {} else {}
        }
    }
    lemma_parse_encode(Partitions::schema(), v, s, 0);
}

impl<'i> Decode<'i> for Partitions {
    open spec fn parse_schema() -> Schema {
        Self::schema()
    }

    #[verifier::spinoff_prover]
    #[verifier::rlimit(60)]
    fn parse_at(input: &'i [u8], pos: usize) -> (r: Result<(Self, usize), bool>) {
        let ghost s = input@;
        let ghost fs = Self::fields();
        let p0 = pos;
        let (f0, p1): (i32, usize) = match be_i32(input, p0) {
            Ok(x) => x,
            Err(c) => {
                proof {
                    assert(parse_fields(fs, 0, s, p0 as int) == Parsed::Failed(c));
                }
                return Err(c);
            },
        };
        let (f1, p2): (i64, usize) = match be_i64(input, p1) {
            Ok(x) => x,
            Err(c) => {
                proof {
                    assert(parse_fields(fs, 1, s, p1 as int) == Parsed::Failed(c));
                    assert(parse_fields(fs, 0, s, p0 as int) == Parsed::Failed(c || p1 > p0));
                }
                return Err(c || p1 > p0);
            },
        };
        let (f2, p3): (i16, usize) = match be_i16(input, p2) {
            Ok(x) => x,
            Err(c) => {
                proof {
                    assert(parse_fields(fs, 2, s, p2 as int) == Parsed::Failed(c));
                    assert(parse_fields(fs, 1, s, p1 as int) == Parsed::Failed(c || p2 > p1));
                    assert(parse_fields(fs, 0, s, p0 as int) == Parsed::Failed(c || p2 > p0));
                }
                return Err(c || p2 > p0);
            },
        };
        proof {
            assert(parse_fields(fs, 3, s, p3 as int) == Parsed::Done(Value::Fields(Seq::empty()), p3 as int));
            assert(seq![f2.value()] + Seq::<Value>::empty() =~= seq![f2.value()]);
            assert(parse_fields(fs, 2, s, p2 as int) == Parsed::Done(Value::Fields(seq![f2.value()]), p3 as int));
            assert(seq![f1.value()] + seq![f2.value()] =~= seq![f1.value(), f2.value()]);
            assert(parse_fields(fs, 1, s, p1 as int) == Parsed::Done(Value::Fields(seq![f1.value(), f2.value()]), p3 as int));
            assert(seq![f0.value()] + seq![f1.value(), f2.value()] =~= seq![f0.value(), f1.value(), f2.value()]);
            assert(parse_fields(fs, 0, s, p0 as int) == Parsed::Done(Value::Fields(seq![f0.value(), f1.value(), f2.value()]), p3 as int));
        }
        Ok((Partitions { partition: f0, low_watermark: f1, error_code: f2 }, p3))
    }
}

#[derive(Clone, Debug, PartialEq)]
pub struct Topics<'i> {
    pub topic: &'i str,
    pub partitions: Option<Partitions>,
}

impl<'i> Wire for Topics<'i> {
    open spec fn value(&self) -> Value {
        Value::Fields(seq![self.topic.value(), self.partitions.value()])
    }
}

impl<'i> Topics<'i> {
    /// The wire format, field by field.
    pub open spec fn fields() -> Seq<Schema> {
        seq![Schema::Str, Schema::Optional(Box::new(Partitions::schema()))]
    }

    pub open spec fn schema() -> Schema {
        Schema::Struct(Self::fields())
    }

    /// The fields are read as their types are written: the topic as a string, then an optional partition.
    pub proof fn lemma_field_types()
        ensures
            Self::fields() == seq![<&'i str as Encode>::encode_schema(), Schema::Optional(Box::new(Partitions::schema()))],
    {
        assert(Self::fields() =~= seq![<&'i str as Encode>::encode_schema(), Schema::Optional(Box::new(Partitions::schema()))]);
    }
}

impl<'i> Decode<'i> for Topics<'i> {
    open spec fn parse_schema() -> Schema {
        Self::schema()
    }

    #[verifier::spinoff_prover]
    #[verifier::rlimit(60)]
    fn parse_at(input: &'i [u8], pos: usize) -> (r: Result<(Self, usize), bool>) {
        let ghost s = input@;
        let ghost fs = Self::fields();
        let p0 = pos;
        let (f0, p1): (&'i str, usize) = match string(input, p0) {
            Ok(x) => x,
            Err(c) => {
                proof {
                    assert(parse_fields(fs, 0, s, p0 as int) == Parsed::Failed(c));
                }
                return Err(c);
            },
        };
        let (f1, p2): (Option<Partitions>, usize) = match optional::<Partitions>(input, p1) {
            Ok(x) => x,
            Err(c) => {
                proof {
                    assert(parse_fields(fs, 1, s, p1 as int) == Parsed::Failed(c));
                    assert(parse_fields(fs, 0, s, p0 as int) == Parsed::Failed(c || p1 > p0));
                }
                return Err(c || p1 > p0);
            },
        };
        proof {
            assert(parse_fields(fs, 2, s, p2 as int) == Parsed::Done(Value::Fields(Seq::empty()), p2 as int));
            assert(seq![f1.value()] + Seq::<Value>::empty() =~= seq![f1.value()]);
            assert(parse_fields(fs, 1, s, p1 as int) == Parsed::Done(Value::Fields(seq![f1.value()]), p2 as int));
            assert(seq![f0.value()] + seq![f1.value()] =~= seq![f0.value(), f1.value()]);
            assert(parse_fields(fs, 0, s, p0 as int) == Parsed::Done(Value::Fields(seq![f0.value(), f1.value()]), p2 as int));
        }
        Ok((Topics { topic: f0, partitions: f1 }, p2))
    }
}

#[derive(Clone, Debug, PartialEq)]
pub struct DeleteRecordsResponse<'i> {
    pub throttle_time_ms: i32,
    pub topics: Option<Topics<'i>>,
}

impl<'i> Wire for DeleteRecordsResponse<'i> {
    open spec fn value(&self) -> Value {
        Value::Fields(seq![self.throttle_time_ms.value(), self.topics.value()])
    }
}

impl<'i> DeleteRecordsResponse<'i> {
    /// The wire format, field by field.
    pub open spec fn fields() -> Seq<Schema> {
        seq![Schema::I32, Schema::Optional(Box::new(Topics::<'i>::schema()))]
    }

    pub open spec fn schema() -> Schema {
        Schema::Struct(Self::fields())
    }

    /// The fields are read as their types are written: the throttle time as an `i32`, then an optional topic.
    pub proof fn lemma_field_types()
        ensures
            Self::fields() == seq![<i32 as Encode>::encode_schema(), Schema::Optional(Box::new(Topics::<'i>::schema()))],
    {
        assert(Self::fields() =~= seq![<i32 as Encode>::encode_schema(), Schema::Optional(Box::new(Topics::<'i>::schema()))]);
    }
}

impl<'i> Decode<'i> for DeleteRecordsResponse<'i> {
    open spec fn parse_schema() -> Schema {
        Self::schema()
    }

    #[verifier::spinoff_prover]
    #[verifier::rlimit(60)]
    fn parse_at(input: &'i [u8], pos: usize) -> (r: Result<(Self, usize), bool>) {
        let ghost s = input@;
        let ghost fs = Self::fields();
        let p0 = pos;
        let (f0, p1): (i32, usize) = match be_i32(input, p0) {
            Ok(x) => x,
            Err(c) => {
                proof {
                    assert(parse_fields(fs, 0, s, p0 as int) == Parsed::Failed(c));
                }
                return Err(c);
            },
        };
        let (f1, p2): (Option<Topics<'i>>, usize) = match optional::<Topics<'i>>(input, p1) {
            Ok(x) => x,
            Err(c) => {
                proof {
                    assert(parse_fields(fs, 1, s, p1 as int) == Parsed::Failed(c));
                    assert(parse_fields(fs, 0, s, p0 as int) == Parsed::Failed(c || p1 > p0));
                }
                return Err(c || p1 > p0);
            },
        };
        proof {
            assert(parse_fields(fs, 2, s, p2 as int) == Parsed::Done(Value::Fields(Seq::empty()), p2 as int));
            assert(seq![f1.value()] + Seq::<Value>::empty() =~= seq![f1.value()]);
            assert(parse_fields(fs, 1, s, p1 as int) == Parsed::Done(Value::Fields(seq![f1.value()]), p2 as int));
            assert(seq![f0.value()] + seq![f1.value()] =~= seq![f0.value(), f1.value()]);
            assert(parse_fields(fs, 0, s, p0 as int) == Parsed::Done(Value::Fields(seq![f0.value(), f1.value()]), p2 as int));
        }
        Ok((DeleteRecordsResponse { throttle_time_ms: f0, topics: f1 }, p2))
    }
}

} // verus!
