//! The Record Set message.
use vstd::prelude::*;
use crate::wire::{Parsed, Schema, Value, parse_fields, parse_value};
use crate::codec::{Decode, Wire, agrees, array, be_i16, be_i32, be_i64, be_i8, parse_prefix, parsed_prefix, vararray, varbytes, varint, varstring};

verus! {

/// Parses a `RecordSet` at the start of `input`; gives it with the input that
/// follows it, or `None` when the input does not start with one.
pub fn record_set<'i>(input: &'i [u8]) -> (r: Option<(RecordSet<'i>, &'i [u8])>)
    ensures
        parsed_prefix(r, RecordSet::<'i>::schema(), input@),
{
    parse_prefix(input)
}

#[derive(Clone, Debug, PartialEq)]
pub struct Header<'i> {
    pub header_key: &'i str,
    pub value: &'i [u8],
}

impl<'i> Wire for Header<'i> {
    open spec fn value(&self) -> Value {
        Value::Fields(seq![self.header_key.value(), self.value.value()])
    }
}

impl<'i> Header<'i> {
    /// The wire format, field by field.
    pub open spec fn fields() -> Seq<Schema> {
        seq![Schema::VarStr, Schema::VarBytes]
    }

    pub open spec fn schema() -> Schema {
        Schema::Struct(Self::fields())
    }
}

impl<'i> Decode<'i> for Header<'i> {
    open spec fn parse_schema() -> Schema {
        Self::schema()
    }

    #[verifier::spinoff_prover]
    #[verifier::rlimit(60)]
    fn parse_at(input: &'i [u8], pos: usize) -> (r: Result<(Self, usize), bool>) {
        let ghost s = input@;
        let ghost fs = Self::fields();
        let p0 = pos;
        let (f0, p1): (&'i str, usize) = match varstring(input, p0) {
            Ok(x) => x,
            Err(c) => {
                proof {
                    assert(parse_fields(fs, 0, s, p0 as int) == Parsed::Failed(c));
                }
                return Err(c);
            },
        };
        let (f1, p2): (&'i [u8], usize) = match varbytes(input, p1) {
            Ok(x) => x,
            Err(c) => {
                proof {
                    assert(parse_fields(fs, 1, s, p1 as int) == Parsed::Failed(c));
                    assert(parse_fields(fs, 0, s, p0 as int) == Parsed::Failed(c || p1 > p0));
                }
                return Err(c || p1 > p0);
            },
        };
        proof {
            assert(parse_fields(fs, 2, s, p2 as int) == Parsed::Done(Value::Fields(Seq::empty()), p2 as int));
            assert(seq![f1.value()] + Seq::<Value>::empty() =~= seq![f1.value()]);
            assert(parse_fields(fs, 1, s, p1 as int) == Parsed::Done(Value::Fields(seq![f1.value()]), p2 as int));
            assert(seq![f0.value()] + seq![f1.value()] =~= seq![f0.value(), f1.value()]);
            assert(parse_fields(fs, 0, s, p0 as int) == Parsed::Done(Value::Fields(seq![f0.value(), f1.value()]), p2 as int));
        }
        Ok((Header { header_key: f0, value: f1 }, p2))
    }
}

#[derive(Clone, Debug, PartialEq)]
pub struct Record<'i> {
    pub length: i32,
    pub attributes: i8,
    pub timestamp_delta: i32,
    pub offset_delta: i32,
    pub key: &'i [u8],
    pub value: &'i [u8],
    pub headers: Vec<Header<'i>>,
}

impl<'i> Wire for Record<'i> {
    open spec fn value(&self) -> Value {
        Value::Fields(seq![self.length.value(), self.attributes.value(), self.timestamp_delta.value(), self.offset_delta.value(), self.key.value(), self.value.value(), self.headers.value()])
    }
}

impl<'i> Record<'i> {
    /// The wire format, field by field.
    pub open spec fn fields() -> Seq<Schema> {
        seq![Schema::VarInt, Schema::I8, Schema::VarInt, Schema::VarInt, Schema::VarBytes, Schema::VarBytes, Schema::VarArray(Box::new(Header::<'i>::schema()))]
    }

    pub open spec fn schema() -> Schema {
        Schema::Struct(Self::fields())
    }
}

impl<'i> Decode<'i> for Record<'i> {
    open spec fn parse_schema() -> Schema {
        Self::schema()
    }

    #[verifier::spinoff_prover]
    #[verifier::rlimit(100)]
    fn parse_at(input: &'i [u8], pos: usize) -> (r: Result<(Self, usize), bool>) {
        let ghost s = input@;
        let ghost fs = Self::fields();
        let p0 = pos;
        let (f0, p1): (i32, usize) = match varint(input, p0) {
            Ok(x) => x,
            Err(c) => {
                proof {
                    assert(parse_fields(fs, 0, s, p0 as int) == Parsed::Failed(c));
                }
                return Err(c);
            },
        };
        let (f1, p2): (i8, usize) = match be_i8(input, p1) {
            Ok(x) => x,
            Err(c) => {
                proof {
                    assert(parse_fields(fs, 1, s, p1 as int) == Parsed::Failed(c));
                    assert(parse_fields(fs, 0, s, p0 as int) == Parsed::Failed(c || p1 > p0));
                }
                return Err(c || p1 > p0);
            },
        };
        let (f2, p3): (i32, usize) = match varint(input, p2) {
            Ok(x) => x,
            Err(c) => {
                proof {
                    assert(parse_fields(fs, 2, s, p2 as int) == Parsed::Failed(c));
                    assert(parse_fields(fs, 1, s, p1 as int) == Parsed::Failed(c || p2 > p1));
                    assert(parse_fields(fs, 0, s, p0 as int) == Parsed::Failed(c || p2 > p0));
                }
                return Err(c || p2 > p0);
            },
        };
        let (f3, p4): (i32, usize) = match varint(input, p3) {
            Ok(x) => x,
            Err(c) => {
                proof {
                    assert(parse_fields(fs, 3, s, p3 as int) == Parsed::Failed(c));
                    assert(parse_fields(fs, 2, s, p2 as int) == Parsed::Failed(c || p3 > p2));
                    assert(parse_fields(fs, 1, s, p1 as int) == Parsed::Failed(c || p3 > p1));
                    assert(parse_fields(fs, 0, s, p0 as int) == Parsed::Failed(c || p3 > p0));
                }
                return Err(c || p3 > p0);
            },
        };
        let (f4, p5): (&'i [u8], usize) = match varbytes(input, p4) {
            Ok(x) => x,
            Err(c) => {
                proof {
                    assert(parse_fields(fs, 4, s, p4 as int) == Parsed::Failed(c));
                    assert(parse_fields(fs, 3, s, p3 as int) == Parsed::Failed(c || p4 > p3));
                    assert(parse_fields(fs, 2, s, p2 as int) == Parsed::Failed(c || p4 > p2));
                    assert(parse_fields(fs, 1, s, p1 as int) == Parsed::Failed(c || p4 > p1));
                    assert(parse_fields(fs, 0, s, p0 as int) == Parsed::Failed(c || p4 > p0));
                }
                return Err(c || p4 > p0);
            },
        };
        let (f5, p6): (&'i [u8], usize) = match varbytes(input, p5) {
            Ok(x) => x,
            Err(c) => {
                proof {
                    assert(parse_fields(fs, 5, s, p5 as int) == Parsed::Failed(c));
                    assert(parse_fields(fs, 4, s, p4 as int) == Parsed::Failed(c || p5 > p4));
                    assert(parse_fields(fs, 3, s, p3 as int) == Parsed::Failed(c || p5 > p3));
                    assert(parse_fields(fs, 2, s, p2 as int) == Parsed::Failed(c || p5 > p2));
                    assert(parse_fields(fs, 1, s, p1 as int) == Parsed::Failed(c || p5 > p1));
                    assert(parse_fields(fs, 0, s, p0 as int) == Parsed::Failed(c || p5 > p0));
                }
                return Err(c || p5 > p0);
            },
        };
        let (f6, p7): (Vec<Header<'i>>, usize) = match vararray::<Header<'i>>(input, p6) {
            Ok(x) => x,
            Err(c) => {
                proof {
                    assert(parse_fields(fs, 6, s, p6 as int) == Parsed::Failed(c));
                    assert(parse_fields(fs, 5, s, p5 as int) == Parsed::Failed(c || p6 > p5));
                    assert(parse_fields(fs, 4, s, p4 as int) == Parsed::Failed(c || p6 > p4));
                    assert(parse_fields(fs, 3, s, p3 as int) == Parsed::Failed(c || p6 > p3));
                    assert(parse_fields(fs, 2, s, p2 as int) == Parsed::Failed(c || p6 > p2));
                    assert(parse_fields(fs, 1, s, p1 as int) == Parsed::Failed(c || p6 > p1));
                    assert(parse_fields(fs, 0, s, p0 as int) == Parsed::Failed(c || p6 > p0));
                }
                return Err(c || p6 > p0);
            },
        };
        proof {
            assert(parse_fields(fs, 7, s, p7 as int) == Parsed::Done(Value::Fields(Seq::empty()), p7 as int));
            assert(seq![f6.value()] + Seq::<Value>::empty() =~= seq![f6.value()]);
            assert(parse_fields(fs, 6, s, p6 as int) == Parsed::Done(Value::Fields(seq![f6.value()]), p7 as int));
            assert(seq![f5.value()] + seq![f6.value()] =~= seq![f5.value(), f6.value()]);
            assert(parse_fields(fs, 5, s, p5 as int) == Parsed::Done(Value::Fields(seq![f5.value(), f6.value()]), p7 as int));
            assert(seq![f4.value()] + seq![f5.value(), f6.value()] =~= seq![f4.value(), f5.value(), f6.value()]);
            assert(parse_fields(fs, 4, s, p4 as int) == Parsed::Done(Value::Fields(seq![f4.value(), f5.value(), f6.value()]), p7 as int));
            assert(seq![f3.value()] + seq![f4.value(), f5.value(), f6.value()] =~= seq![f3.value(), f4.value(), f5.value(), f6.value()]);
            assert(parse_fields(fs, 3, s, p3 as int) == Parsed::Done(Value::Fields(seq![f3.value(), f4.value(), f5.value(), f6.value()]), p7 as int));
            assert(seq![f2.value()] + seq![f3.value(), f4.value(), f5.value(), f6.value()] =~= seq![f2.value(), f3.value(), f4.value(), f5.value(), f6.value()]);
            assert(parse_fields(fs, 2, s, p2 as int) == Parsed::Done(Value::Fields(seq![f2.value(), f3.value(), f4.value(), f5.value(), f6.value()]), p7 as int));
            assert(seq![f1.value()] + seq![f2.value(), f3.value(), f4.value(), f5.value(), f6.value()] =~= seq![f1.value(), f2.value(), f3.value(), f4.value(), f5.value(), f6.value()]);
            assert(parse_fields(fs, 1, s, p1 as int) == Parsed::Done(Value::Fields(seq![f1.value(), f2.value(), f3.value(), f4.value(), f5.value(), f6.value()]), p7 as int));
            assert(seq![f0.value()] + seq![f1.value(), f2.value(), f3.value(), f4.value(), f5.value(), f6.value()] =~= seq![f0.value(), f1.value(), f2.value(), f3.value(), f4.value(), f5.value(), f6.value()]);
            assert(parse_fields(fs, 0, s, p0 as int) == Parsed::Done(Value::Fields(seq![f0.value(), f1.value(), f2.value(), f3.value(), f4.value(), f5.value(), f6.value()]), p7 as int));
        }
        Ok((Record { length: f0, attributes: f1, timestamp_delta: f2, offset_delta: f3, key: f4, value: f5, headers: f6 }, p7))
    }
}

#[derive(Clone, Debug, PartialEq)]
pub struct RecordSet<'i> {
    pub base_offset: i64,
    pub batch_length: i32,
    pub partition_leader_epoch: i32,
    pub magic: i8,
    pub crc: i32,
    pub attributes: i16,
    pub last_offset_delta: i32,
    pub first_timestamp: i64,
    pub max_timestamp: i64,
    pub producer_id: i64,
    pub producer_epoch: i16,
    pub base_sequence: i32,
    pub records: Vec<Record<'i>>,
}

impl<'i> Wire for RecordSet<'i> {
    open spec fn value(&self) -> Value {
        Value::Fields(seq![self.base_offset.value(), self.batch_length.value(), self.partition_leader_epoch.value(), self.magic.value(), self.crc.value(), self.attributes.value(), self.last_offset_delta.value(), self.first_timestamp.value(), self.max_timestamp.value(), self.producer_id.value(), self.producer_epoch.value(), self.base_sequence.value(), self.records.value()])
    }
}

impl<'i> RecordSet<'i> {
    /// The wire format, field by field.
    pub open spec fn fields() -> Seq<Schema> {
        seq![Schema::I64, Schema::I32, Schema::I32, Schema::I8, Schema::I32, Schema::I16, Schema::I32, Schema::I64, Schema::I64, Schema::I64, Schema::I16, Schema::I32, Schema::Array(Box::new(Record::<'i>::schema()))]
    }

    pub open spec fn schema() -> Schema {
        Schema::Struct(Self::fields())
    }
}

impl<'i> Decode<'i> for RecordSet<'i> {
    open spec fn parse_schema() -> Schema {
        Self::schema()
    }

    #[verifier::spinoff_prover]
    #[verifier::rlimit(100)]
    fn parse_at(input: &'i [u8], pos: usize) -> (r: Result<(Self, usize), bool>) {
        let ghost s = input@;
        let ghost fs = Self::fields();
        let p0 = pos;
        let (f0, p1): (i64, usize) = match be_i64(input, p0) {
            Ok(x) => x,
            Err(c) => {
                proof {
                    assert(parse_fields(fs, 0, s, p0 as int) == Parsed::Failed(c));
                }
                return Err(c);
            },
        };
        let (f1, p2): (i32, usize) = match be_i32(input, p1) {
            Ok(x) => x,
            Err(c) => {
                proof {
                    assert(parse_fields(fs, 1, s, p1 as int) == Parsed::Failed(c));
                    assert(parse_fields(fs, 0, s, p0 as int) == Parsed::Failed(c || p1 > p0));
                }
                return Err(c || p1 > p0);
            },
        };
        let (f2, p3): (i32, usize) = match be_i32(input, p2) {
            Ok(x) => x,
            Err(c) => {
                proof {
                    assert(parse_fields(fs, 2, s, p2 as int) == Parsed::Failed(c));
                    assert(parse_fields(fs, 1, s, p1 as int) == Parsed::Failed(c || p2 > p1));
                    assert(parse_fields(fs, 0, s, p0 as int) == Parsed::Failed(c || p2 > p0));
                }
                return Err(c || p2 > p0);
            },
        };
        let (f3, p4): (i8, usize) = match be_i8(input, p3) {
            Ok(x) => x,
            Err(c) => {
                proof {
                    assert(parse_fields(fs, 3, s, p3 as int) == Parsed::Failed(c));
                    assert(parse_fields(fs, 2, s, p2 as int) == Parsed::Failed(c || p3 > p2));
                    assert(parse_fields(fs, 1, s, p1 as int) == Parsed::Failed(c || p3 > p1));
                    assert(parse_fields(fs, 0, s, p0 as int) == Parsed::Failed(c || p3 > p0));
                }
                return Err(c || p3 > p0);
            },
        };
        let (f4, p5): (i32, usize) = match be_i32(input, p4) {
            Ok(x) => x,
            Err(c) => {
                proof {
                    assert(parse_fields(fs, 4, s, p4 as int) == Parsed::Failed(c));
                    assert(parse_fields(fs, 3, s, p3 as int) == Parsed::Failed(c || p4 > p3));
                    assert(parse_fields(fs, 2, s, p2 as int) == Parsed::Failed(c || p4 > p2));
                    assert(parse_fields(fs, 1, s, p1 as int) == Parsed::Failed(c || p4 > p1));
                    assert(parse_fields(fs, 0, s, p0 as int) == Parsed::Failed(c || p4 > p0));
                }
                return Err(c || p4 > p0);
            },
        };
        let (f5, p6): (i16, usize) = match be_i16(input, p5) {
            Ok(x) => x,
            Err(c) => {
                proof {
                    assert(parse_fields(fs, 5, s, p5 as int) == Parsed::Failed(c));
                    assert(parse_fields(fs, 4, s, p4 as int) == Parsed::Failed(c || p5 > p4));
                    assert(parse_fields(fs, 3, s, p3 as int) == Parsed::Failed(c || p5 > p3));
                    assert(parse_fields(fs, 2, s, p2 as int) == Parsed::Failed(c || p5 > p2));
                    assert(parse_fields(fs, 1, s, p1 as int) == Parsed::Failed(c || p5 > p1));
                    assert(parse_fields(fs, 0, s, p0 as int) == Parsed::Failed(c || p5 > p0));
                }
                return Err(c || p5 > p0);
            },
        };
        let (f6, p7): (i32, usize) = match be_i32(input, p6) {
            Ok(x) => x,
            Err(c) => {
                proof {
                    assert(parse_fields(fs, 6, s, p6 as int) == Parsed::Failed(c));
                    assert(parse_fields(fs, 5, s, p5 as int) == Parsed::Failed(c || p6 > p5));
                    assert(parse_fields(fs, 4, s, p4 as int) == Parsed::Failed(c || p6 > p4));
                    assert(parse_fields(fs, 3, s, p3 as int) == Parsed::Failed(c || p6 > p3));
                    assert(parse_fields(fs, 2, s, p2 as int) == Parsed::Failed(c || p6 > p2));
                    assert(parse_fields(fs, 1, s, p1 as int) == Parsed::Failed(c || p6 > p1));
                    assert(parse_fields(fs, 0, s, p0 as int) == Parsed::Failed(c || p6 > p0));
                }
                return Err(c || p6 > p0);
            },
        };
        let (f7, p8): (i64, usize) = match be_i64(input, p7) {
            Ok(x) => x,
            Err(c) => {
                proof {
                    assert(parse_fields(fs, 7, s, p7 as int) == Parsed::Failed(c));
                    assert(parse_fields(fs, 6, s, p6 as int) == Parsed::Failed(c || p7 > p6));
                    assert(parse_fields(fs, 5, s, p5 as int) == Parsed::Failed(c || p7 > p5));
                    assert(parse_fields(fs, 4, s, p4 as int) == Parsed::Failed(c || p7 > p4));
                    assert(parse_fields(fs, 3, s, p3 as int) == Parsed::Failed(c || p7 > p3));
                    assert(parse_fields(fs, 2, s, p2 as int) == Parsed::Failed(c || p7 > p2));
                    assert(parse_fields(fs, 1, s, p1 as int) == Parsed::Failed(c || p7 > p1));
                    assert(parse_fields(fs, 0, s, p0 as int) == Parsed::Failed(c || p7 > p0));
                }
                return Err(c || p7 > p0);
            },
        };
        let (f8, p9): (i64, usize) = match be_i64(input, p8) {
            Ok(x) => x,
            Err(c) => {
                proof {
                    assert(parse_fields(fs, 8, s, p8 as int) == Parsed::Failed(c));
                    assert(parse_fields(fs, 7, s, p7 as int) == Parsed::Failed(c || p8 > p7));
                    assert(parse_fields(fs, 6, s, p6 as int) == Parsed::Failed(c || p8 > p6));
                    assert(parse_fields(fs, 5, s, p5 as int) == Parsed::Failed(c || p8 > p5));
                    assert(parse_fields(fs, 4, s, p4 as int) == Parsed::Failed(c || p8 > p4));
                    assert(parse_fields(fs, 3, s, p3 as int) == Parsed::Failed(c || p8 > p3));
                    assert(parse_fields(fs, 2, s, p2 as int) == Parsed::Failed(c || p8 > p2));
                    assert(parse_fields(fs, 1, s, p1 as int) == Parsed::Failed(c || p8 > p1));
                    assert(parse_fields(fs, 0, s, p0 as int) == Parsed::Failed(c || p8 > p0));
                }
                return Err(c || p8 > p0);
            },
        };
        let (f9, p10): (i64, usize) = match be_i64(input, p9) {
            Ok(x) => x,
            Err(c) => {
                proof {
                    assert(parse_fields(fs, 9, s, p9 as int) == Parsed::Failed(c));
                    assert(parse_fields(fs, 8, s, p8 as int) == Parsed::Failed(c || p9 > p8));
                    assert(parse_fields(fs, 7, s, p7 as int) == Parsed::Failed(c || p9 > p7));
                    assert(parse_fields(fs, 6, s, p6 as int) == Parsed::Failed(c || p9 > p6));
                    assert(parse_fields(fs, 5, s, p5 as int) == Parsed::Failed(c || p9 > p5));
                    assert(parse_fields(fs, 4, s, p4 as int) == Parsed::Failed(c || p9 > p4));
                    assert(parse_fields(fs, 3, s, p3 as int) == Parsed::Failed(c || p9 > p3));
                    assert(parse_fields(fs, 2, s, p2 as int) == Parsed::Failed(c || p9 > p2));
                    assert(parse_fields(fs, 1, s, p1 as int) == Parsed::Failed(c || p9 > p1));
                    assert(parse_fields(fs, 0, s, p0 as int) == Parsed::Failed(c || p9 > p0));
                }
                return Err(c || p9 > p0);
            },
        };
        let (f10, p11): (i16, usize) = match be_i16(input, p10) {
            Ok(x) => x,
            Err(c) => {
                proof {
                    assert(parse_fields(fs, 10, s, p10 as int) == Parsed::Failed(c));
                    assert(parse_fields(fs, 9, s, p9 as int) == Parsed::Failed(c || p10 > p9));
                    assert(parse_fields(fs, 8, s, p8 as int) == Parsed::Failed(c || p10 > p8));
                    assert(parse_fields(fs, 7, s, p7 as int) == Parsed::Failed(c || p10 > p7));
                    assert(parse_fields(fs, 6, s, p6 as int) == Parsed::Failed(c || p10 > p6));
                    assert(parse_fields(fs, 5, s, p5 as int) == Parsed::Failed(c || p10 > p5));
                    assert(parse_fields(fs, 4, s, p4 as int) == Parsed::Failed(c || p10 > p4));
                    assert(parse_fields(fs, 3, s, p3 as int) == Parsed::Failed(c || p10 > p3));
                    assert(parse_fields(fs, 2, s, p2 as int) == Parsed::Failed(c || p10 > p2));
                    assert(parse_fields(fs, 1, s, p1 as int) == Parsed::Failed(c || p10 > p1));
                    assert(parse_fields(fs, 0, s, p0 as int) == Parsed::Failed(c || p10 > p0));
                }
                return Err(c || p10 > p0);
            },
        };
        let (f11, p12): (i32, usize) = match be_i32(input, p11) {
            Ok(x) => x,
            Err(c) => {
                proof {
                    assert(parse_fields(fs, 11, s, p11 as int) == Parsed::Failed(c));
                    assert(parse_fields(fs, 10, s, p10 as int) == Parsed::Failed(c || p11 > p10));
                    assert(parse_fields(fs, 9, s, p9 as int) == Parsed::Failed(c || p11 > p9));
                    assert(parse_fields(fs, 8, s, p8 as int) == Parsed::Failed(c || p11 > p8));
                    assert(parse_fields(fs, 7, s, p7 as int) == Parsed::Failed(c || p11 > p7));
                    assert(parse_fields(fs, 6, s, p6 as int) == Parsed::Failed(c || p11 > p6));
                    assert(parse_fields(fs, 5, s, p5 as int) == Parsed::Failed(c || p11 > p5));
                    assert(parse_fields(fs, 4, s, p4 as int) == Parsed::Failed(c || p11 > p4));
                    assert(parse_fields(fs, 3, s, p3 as int) == Parsed::Failed(c || p11 > p3));
                    assert(parse_fields(fs, 2, s, p2 as int) == Parsed::Failed(c || p11 > p2));
                    assert(parse_fields(fs, 1, s, p1 as int) == Parsed::Failed(c || p11 > p1));
                    assert(parse_fields(fs, 0, s, p0 as int) == Parsed::Failed(c || p11 > p0));
                }
                return Err(c || p11 > p0);
            },
        };
        let (f12, p13): (Vec<Record<'i>>, usize) = match array::<Record<'i>>(input, p12) {
            Ok(x) => x,
            Err(c) => {
                proof {
                    assert(parse_fields(fs, 12, s, p12 as int) == Parsed::Failed(c));
                    assert(parse_fields(fs, 11, s, p11 as int) == Parsed::Failed(c || p12 > p11));
                    assert(parse_fields(fs, 10, s, p10 as int) == Parsed::Failed(c || p12 > p10));
                    assert(parse_fields(fs, 9, s, p9 as int) == Parsed::Failed(c || p12 > p9));
                    assert(parse_fields(fs, 8, s, p8 as int) == Parsed::Failed(c || p12 > p8));
                    assert(parse_fields(fs, 7, s, p7 as int) == Parsed::Failed(c || p12 > p7));
                    assert(parse_fields(fs, 6, s, p6 as int) == Parsed::Failed(c || p12 > p6));
                    assert(parse_fields(fs, 5, s, p5 as int) == Parsed::Failed(c || p12 > p5));
                    assert(parse_fields(fs, 4, s, p4 as int) == Parsed::Failed(c || p12 > p4));
                    assert(parse_fields(fs, 3, s, p3 as int) == Parsed::Failed(c || p12 > p3));
                    assert(parse_fields(fs, 2, s, p2 as int) == Parsed::Failed(c || p12 > p2));
                    assert(parse_fields(fs, 1, s, p1 as int) == Parsed::Failed(c || p12 > p1));
                    assert(parse_fields(fs, 0, s, p0 as int) == Parsed::Failed(c || p12 > p0));
                }
                return Err(c || p12 > p0);
            },
        };
        proof {
            assert(parse_fields(fs, 13, s, p13 as int) == Parsed::Done(Value::Fields(Seq::empty()), p13 as int));
            assert(seq![f12.value()] + Seq::<Value>::empty() =~= seq![f12.value()]);
            assert(parse_fields(fs, 12, s, p12 as int) == Parsed::Done(Value::Fields(seq![f12.value()]), p13 as int));
            assert(seq![f11.value()] + seq![f12.value()] =~= seq![f11.value(), f12.value()]);
            assert(parse_fields(fs, 11, s, p11 as int) == Parsed::Done(Value::Fields(seq![f11.value(), f12.value()]), p13 as int));
            assert(seq![f10.value()] + seq![f11.value(), f12.value()] =~= seq![f10.value(), f11.value(), f12.value()]);
            assert(parse_fields(fs, 10, s, p10 as int) == Parsed::Done(Value::Fields(seq![f10.value(), f11.value(), f12.value()]), p13 as int));
            assert(seq![f9.value()] + seq![f10.value(), f11.value(), f12.value()] =~= seq![f9.value(), f10.value(), f11.value(), f12.value()]);
            assert(parse_fields(fs, 9, s, p9 as int) == Parsed::Done(Value::Fields(seq![f9.value(), f10.value(), f11.value(), f12.value()]), p13 as int));
            assert(seq![f8.value()] + seq![f9.value(), f10.value(), f11.value(), f12.value()] =~= seq![f8.value(), f9.value(), f10.value(), f11.value(), f12.value()]);
            assert(parse_fields(fs, 8, s, p8 as int) == Parsed::Done(Value::Fields(seq![f8.value(), f9.value(), f10.value(), f11.value(), f12.value()]), p13 as int));
            assert(seq![f7.value()] + seq![f8.value(), f9.value(), f10.value(), f11.value(), f12.value()] =~= seq![f7.value(), f8.value(), f9.value(), f10.value(), f11.value(), f12.value()]);
            assert(parse_fields(fs, 7, s, p7 as int) == Parsed::Done(Value::Fields(seq![f7.value(), f8.value(), f9.value(), f10.value(), f11.value(), f12.value()]), p13 as int));
            assert(seq![f6.value()] + seq![f7.value(), f8.value(), f9.value(), f10.value(), f11.value(), f12.value()] =~= seq![f6.value(), f7.value(), f8.value(), f9.value(), f10.value(), f11.value(), f12.value()]);
            assert(parse_fields(fs, 6, s, p6 as int) == Parsed::Done(Value::Fields(seq![f6.value(), f7.value(), f8.value(), f9.value(), f10.value(), f11.value(), f12.value()]), p13 as int));
            assert(seq![f5.value()] + seq![f6.value(), f7.value(), f8.value(), f9.value(), f10.value(), f11.value(), f12.value()] =~= seq![f5.value(), f6.value(), f7.value(), f8.value(), f9.value(), f10.value(), f11.value(), f12.value()]);
            assert(parse_fields(fs, 5, s, p5 as int) == Parsed::Done(Value::Fields(seq![f5.value(), f6.value(), f7.value(), f8.value(), f9.value(), f10.value(), f11.value(), f12.value()]), p13 as int));
            assert(seq![f4.value()] + seq![f5.value(), f6.value(), f7.value(), f8.value(), f9.value(), f10.value(), f11.value(), f12.value()] =~= seq![f4.value(), f5.value(), f6.value(), f7.value(), f8.value(), f9.value(), f10.value(), f11.value(), f12.value()]);
            assert(parse_fields(fs, 4, s, p4 as int) == Parsed::Done(Value::Fields(seq![f4.value(), f5.value(), f6.value(), f7.value(), f8.value(), f9.value(), f10.value(), f11.value(), f12.value()]), p13 as int));
            assert(seq![f3.value()] + seq![f4.value(), f5.value(), f6.value(), f7.value(), f8.value(), f9.value(), f10.value(), f11.value(), f12.value()] =~= seq![f3.value(), f4.value(), f5.value(), f6.value(), f7.value(), f8.value(), f9.value(), f10.value(), f11.value(), f12.value()]);
            assert(parse_fields(fs, 3, s, p3 as int) == Parsed::Done(Value::Fields(seq![f3.value(), f4.value(), f5.value(), f6.value(), f7.value(), f8.value(), f9.value(), f10.value(), f11.value(), f12.value()]), p13 as int));
            assert(seq![f2.value()] + seq![f3.value(), f4.value(), f5.value(), f6.value(), f7.value(), f8.value(), f9.value(), f10.value(), f11.value(), f12.value()] =~= seq![f2.value(), f3.value(), f4.value(), f5.value(), f6.value(), f7.value(), f8.value(), f9.value(), f10.value(), f11.value(), f12.value()]);
            assert(parse_fields(fs, 2, s, p2 as int) == Parsed::Done(Value::Fields(seq![f2.value(), f3.value(), f4.value(), f5.value(), f6.value(), f7.value(), f8.value(), f9.value(), f10.value(), f11.value(), f12.value()]), p13 as int));
            assert(seq![f1.value()] + seq![f2.value(), f3.value(), f4.value(), f5.value(), f6.value(), f7.value(), f8.value(), f9.value(), f10.value(), f11.value(), f12.value()] =~= seq![f1.value(), f2.value(), f3.value(), f4.value(), f5.value(), f6.value(), f7.value(), f8.value(), f9.value(), f10.value(), f11.value(), f12.value()]);
            assert(parse_fields(fs, 1, s, p1 as int) == Parsed::Done(Value::Fields(seq![f1.value(), f2.value(), f3.value(), f4.value(), f5.value(), f6.value(), f7.value(), f8.value(), f9.value(), f10.value(), f11.value(), f12.value()]), p13 as int));
            assert(seq![f0.value()] + seq![f1.value(), f2.value(), f3.value(), f4.value(), f5.value(), f6.value(), f7.value(), f8.value(), f9.value(), f10.value(), f11.value(), f12.value()] =~= seq![f0.value(), f1.value(), f2.value(), f3.value(), f4.value(), f5.value(), f6.value(), f7.value(), f8.value(), f9.value(), f10.value(), f11.value(), f12.value()]);
            assert(parse_fields(fs, 0, s, p0 as int) == Parsed::Done(Value::Fields(seq![f0.value(), f1.value(), f2.value(), f3.value(), f4.value(), f5.value(), f6.value(), f7.value(), f8.value(), f9.value(), f10.value(), f11.value(), f12.value()]), p13 as int));
        }
        Ok((RecordSet { base_offset: f0, batch_length: f1, partition_leader_epoch: f2, magic: f3, crc: f4, attributes: f5, last_offset_delta: f6, first_timestamp: f7, max_timestamp: f8, producer_id: f9, producer_epoch: f10, base_sequence: f11, records: f12 }, p13))
    }
}

} // verus!
