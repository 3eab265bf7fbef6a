//! The Create Delegation Token Response message.
use vstd::prelude::*;
use crate::wire::{Parsed, Schema, Value, parse_fields, parse_value};
use crate::codec::{Decode, Encode, Wire, agrees, be_i16, be_i32, be_i64, bytes, parse_prefix, parsed_prefix, string};

verus! {

/// Parses a `CreateDelegationTokenResponse` at the start of `input`; gives it with the input that
/// follows it, or `None` when the input does not start with one.
pub fn create_delegation_token_response<'i>(input: &'i [u8]) -> (r: Option<(CreateDelegationTokenResponse<'i>, &'i [u8])>)
    ensures
        parsed_prefix(r, CreateDelegationTokenResponse::<'i>::schema(), input@),
{
    parse_prefix(input)
}

#[derive(Clone, Debug, PartialEq)]
pub struct Owner<'i> {
    pub principal_type: &'i str,
    pub name: &'i str,
}

impl<'i> Wire for Owner<'i> {
    open spec fn value(&self) -> Value {
        Value::Fields(seq![self.principal_type.value(), self.name.value()])
    }
}

impl<'i> Owner<'i> {
    /// The wire format, field by field.
    pub open spec fn fields() -> Seq<Schema> {
        seq![Schema::Str, Schema::Str]
    }

    pub open spec fn schema() -> Schema {
        Schema::Struct(Self::fields())
    }

    /// The fields are read as their types are written: the principal type and the name as strings.
    pub proof fn lemma_field_types()
        ensures
            Self::fields() == seq![<&'i str as Encode>::encode_schema(), <&'i str as Encode>::encode_schema()],
    {
        assert(Self::fields() =~= seq![<&'i str as Encode>::encode_schema(), <&'i str as Encode>::encode_schema()]);
    }
}

impl<'i> Decode<'i> for Owner<'i> {
    open spec fn parse_schema() -> Schema {
        Self::schema()
    }

    #[verifier::spinoff_prover]
    #[verifier::rlimit(60)]
    fn parse_at(input: &'i [u8], pos: usize) -> (r: Result<(Self, usize), bool>) {
        let ghost s = input@;
        let ghost fs = Self::fields();
        let p0 = pos;
        let (f0, p1): (&'i str, usize) = match string(input, p0) {
            Ok(x) => x,
            Err(c) => {
                proof {
                    assert(parse_fields(fs, 0, s, p0 as int) == Parsed::Failed(c));
                }
                return Err(c);
            },
        };
        let (f1, p2): (&'i str, usize) = match string(input, p1) {
            Ok(x) => x,
            Err(c) => {
                proof {
                    assert(parse_fields(fs, 1, s, p1 as int) == Parsed::Failed(c));
                    assert(parse_fields(fs, 0, s, p0 as int) == Parsed::Failed(c || p1 > p0));
                }
                return Err(c || p1 > p0);
            },
        };
        proof {
            assert(parse_fields(fs, 2, s, p2 as int) == Parsed::Done(Value::Fields(Seq::empty()), p2 as int));
            assert(seq![f1.value()] + Seq::<Value>::empty() =~= seq![f1.value()]);
            assert(parse_fields(fs, 1, s, p1 as int) == Parsed::Done(Value::Fields(seq![f1.value()]), p2 as int));
            assert(seq![f0.value()] + seq![f1.value()] =~= seq![f0.value(), f1.value()]);
            assert(parse_fields(fs, 0, s, p0 as int) == Parsed::Done(Value::Fields(seq![f0.value(), f1.value()]), p2 as int));
        }
        Ok((Owner { principal_type: f0, name: f1 }, p2))
    }
}

#[derive(Clone, Debug, PartialEq)]
pub struct CreateDelegationTokenResponse<'i> {
    pub error_code: i16,
    pub owner: Owner<'i>,
    pub issue_timestamp: i64,
    pub expiry_timestamp: i64,
    pub max_timestamp: i64,
    pub token_id: &'i str,
    pub hmac: &'i [u8],
    pub throttle_time_ms: i32,
}

impl<'i> Wire for CreateDelegationTokenResponse<'i> {
    open spec fn value(&self) -> Value {
        Value::Fields(seq![self.error_code.value(), self.owner.value(), self.issue_timestamp.value(), self.expiry_timestamp.value(), self.max_timestamp.value(), self.token_id.value(), self.hmac.value(), self.throttle_time_ms.value()])
    }
}

impl<'i> CreateDelegationTokenResponse<'i> {
    /// The wire format, field by field.
    pub open spec fn fields() -> Seq<Schema> {
        seq![Schema::I16, Owner::<'i>::schema(), Schema::I64, Schema::I64, Schema::I64, Schema::Str, Schema::Bytes, Schema::I32]
    }

    pub open spec fn schema() -> Schema {
        Schema::Struct(Self::fields())
    }

    /// The fields are read as their types are written: the error code as an `i16`, the owner, the three timestamps as `i64`s, the token id as a string, the HMAC as bytes and the throttle time as an `i32`.
    pub proof fn lemma_field_types()
        ensures
            Self::fields() == seq![<i16 as Encode>::encode_schema(), Owner::<'i>::schema(), <i64 as Encode>::encode_schema(), <i64 as Encode>::encode_schema(), <i64 as Encode>::encode_schema(), <&'i str as Encode>::encode_schema(), <&'i [u8] as Encode>::encode_schema(), <i32 as Encode>::encode_schema()],
    {
        assert(Self::fields() =~= seq![<i16 as Encode>::encode_schema(), Owner::<'i>::schema(), <i64 as Encode>::encode_schema(), <i64 as Encode>::encode_schema(), <i64 as Encode>::encode_schema(), <&'i str as Encode>::encode_schema(), <&'i [u8] as Encode>::encode_schema(), <i32 as Encode>::encode_schema()]);
    }
}

impl<'i> Decode<'i> for CreateDelegationTokenResponse<'i> {
    open spec fn parse_schema() -> Schema {
        Self::schema()
    }

    #[verifier::spinoff_prover]
    #[verifier::rlimit(100)]
    fn parse_at(input: &'i [u8], pos: usize) -> (r: Result<(Self, usize), bool>) {
        let ghost s = input@;
        let ghost fs = Self::fields();
        let p0 = pos;
        let (f0, p1): (i16, usize) = match be_i16(input, p0) {
            Ok(x) => x,
            Err(c) => {
                proof {
                    assert(parse_fields(fs, 0, s, p0 as int) == Parsed::Failed(c));
                }
                return Err(c);
            },
        };
        let (f1, p2): (Owner<'i>, usize) = match Owner::parse_at(input, p1) {
            Ok(x) => x,
            Err(c) => {
                proof {
                    assert(parse_fields(fs, 1, s, p1 as int) == Parsed::Failed(c));
                    assert(parse_fields(fs, 0, s, p0 as int) == Parsed::Failed(c || p1 > p0));
                }
                return Err(c || p1 > p0);
            },
        };
        let (f2, p3): (i64, usize) = match be_i64(input, p2) {
            Ok(x) => x,
            Err(c) => {
                proof {
                    assert(parse_fields(fs, 2, s, p2 as int) == Parsed::Failed(c));
                    assert(parse_fields(fs, 1, s, p1 as int) == Parsed::Failed(c || p2 > p1));
                    assert(parse_fields(fs, 0, s, p0 as int) == Parsed::Failed(c || p2 > p0));
                }
                return Err(c || p2 > p0);
            },
        };
        let (f3, p4): (i64, usize) = match be_i64(input, p3) {
            Ok(x) => x,
            Err(c) => {
                proof {
                    assert(parse_fields(fs, 3, s, p3 as int) == Parsed::Failed(c));
                    assert(parse_fields(fs, 2, s, p2 as int) == Parsed::Failed(c || p3 > p2));
                    assert(parse_fields(fs, 1, s, p1 as int) == Parsed::Failed(c || p3 > p1));
                    assert(parse_fields(fs, 0, s, p0 as int) == Parsed::Failed(c || p3 > p0));
                }
                return Err(c || p3 > p0);
            },
        };
        let (f4, p5): (i64, usize) = match be_i64(input, p4) {
            Ok(x) => x,
            Err(c) => {
                proof {
                    assert(parse_fields(fs, 4, s, p4 as int) == Parsed::Failed(c));
                    assert(parse_fields(fs, 3, s, p3 as int) == Parsed::Failed(c || p4 > p3));
                    assert(parse_fields(fs, 2, s, p2 as int) == Parsed::Failed(c || p4 > p2));
                    assert(parse_fields(fs, 1, s, p1 as int) == Parsed::Failed(c || p4 > p1));
                    assert(parse_fields(fs, 0, s, p0 as int) == Parsed::Failed(c || p4 > p0));
                }
                return Err(c || p4 > p0);
            },
        };
        let (f5, p6): (&'i str, usize) = match string(input, p5) {
            Ok(x) => x,
            Err(c) => {
                proof {
                    assert(parse_fields(fs, 5, s, p5 as int) == Parsed::Failed(c));
                    assert(parse_fields(fs, 4, s, p4 as int) == Parsed::Failed(c || p5 > p4));
                    assert(parse_fields(fs, 3, s, p3 as int) == Parsed::Failed(c || p5 > p3));
                    assert(parse_fields(fs, 2, s, p2 as int) == Parsed::Failed(c || p5 > p2));
                    assert(parse_fields(fs, 1, s, p1 as int) == Parsed::Failed(c || p5 > p1));
                    assert(parse_fields(fs, 0, s, p0 as int) == Parsed::Failed(c || p5 > p0));
                }
                return Err(c || p5 > p0);
            },
        };
        let (f6, p7): (&'i [u8], usize) = match bytes(input, p6) {
            Ok(x) => x,
            Err(c) => {
                proof {
                    assert(parse_fields(fs, 6, s, p6 as int) == Parsed::Failed(c));
                    assert(parse_fields(fs, 5, s, p5 as int) == Parsed::Failed(c || p6 > p5));
                    assert(parse_fields(fs, 4, s, p4 as int) == Parsed::Failed(c || p6 > p4));
                    assert(parse_fields(fs, 3, s, p3 as int) == Parsed::Failed(c || p6 > p3));
                    assert(parse_fields(fs, 2, s, p2 as int) == Parsed::Failed(c || p6 > p2));
                    assert(parse_fields(fs, 1, s, p1 as int) == Parsed::Failed(c || p6 > p1));
                    assert(parse_fields(fs, 0, s, p0 as int) == Parsed::Failed(c || p6 > p0));
                }
                return Err(c || p6 > p0);
            },
        };
        let (f7, p8): (i32, usize) = match be_i32(input, p7) {
            Ok(x) => x,
            Err(c) => {
                proof {
                    assert(parse_fields(fs, 7, s, p7 as int) == Parsed::Failed(c));
                    assert(parse_fields(fs, 6, s, p6 as int) == Parsed::Failed(c || p7 > p6));
                    assert(parse_fields(fs, 5, s, p5 as int) == Parsed::Failed(c || p7 > p5));
                    assert(parse_fields(fs, 4, s, p4 as int) == Parsed::Failed(c || p7 > p4));
                    assert(parse_fields(fs, 3, s, p3 as int) == Parsed::Failed(c || p7 > p3));
                    assert(parse_fields(fs, 2, s, p2 as int) == Parsed::Failed(c || p7 > p2));
                    assert(parse_fields(fs, 1, s, p1 as int) == Parsed::Failed(c || p7 > p1));
                    assert(parse_fields(fs, 0, s, p0 as int) == Parsed::Failed(c || p7 > p0));
                }
                return Err(c || p7 > p0);
            },
        };
        proof {
            assert(parse_fields(fs, 8, s, p8 as int) == Parsed::Done(Value::Fields(Seq::empty()), p8 as int));
            assert(seq![f7.value()] + Seq::<Value>::empty() =~= seq![f7.value()]);
            assert(parse_fields(fs, 7, s, p7 as int) == Parsed::Done(Value::Fields(seq![f7.value()]), p8 as int));
            assert(seq![f6.value()] + seq![f7.value()] =~= seq![f6.value(), f7.value()]);
            assert(parse_fields(fs, 6, s, p6 as int) == Parsed::Done(Value::Fields(seq![f6.value(), f7.value()]), p8 as int));
            assert(seq![f5.value()] + seq![f6.value(), f7.value()] =~= seq![f5.value(), f6.value(), f7.value()]);
            assert(parse_fields(fs, 5, s, p5 as int) == Parsed::Done(Value::Fields(seq![f5.value(), f6.value(), f7.value()]), p8 as int));
            assert(seq![f4.value()] + seq![f5.value(), f6.value(), f7.value()] =~= seq![f4.value(), f5.value(), f6.value(), f7.value()]);
            assert(parse_fields(fs, 4, s, p4 as int) == Parsed::Done(Value::Fields(seq![f4.value(), f5.value(), f6.value(), f7.value()]), p8 as int));
            assert(seq![f3.value()] + seq![f4.value(), f5.value(), f6.value(), f7.value()] =~= seq![f3.value(), f4.value(), f5.value(), f6.value(), f7.value()]);
            assert(parse_fields(fs, 3, s, p3 as int) == Parsed::Done(Value::Fields(seq![f3.value(), f4.value(), f5.value(), f6.value(), f7.value()]), p8 as int));
            assert(seq![f2.value()] + seq![f3.value(), f4.value(), f5.value(), f6.value(), f7.value()] =~= seq![f2.value(), f3.value(), f4.value(), f5.value(), f6.value(), f7.value()]);
            assert(parse_fields(fs, 2, s, p2 as int) == Parsed::Done(Value::Fields(seq![f2.value(), f3.value(), f4.value(), f5.value(), f6.value(), f7.value()]), p8 as int));
            assert(seq![f1.value()] + seq![f2.value(), f3.value(), f4.value(), f5.value(), f6.value(), f7.value()] =~= seq![f1.value(), f2.value(), f3.value(), f4.value(), f5.value(), f6.value(), f7.value()]);
            assert(parse_fields(fs, 1, s, p1 as int) == Parsed::Done(Value::Fields(seq![f1.value(), f2.value(), f3.value(), f4.value(), f5.value(), f6.value(), f7.value()]), p8 as int));
            assert(seq![f0.value()] + seq![f1.value(), f2.value(), f3.value(), f4.value(), f5.value(), f6.value(), f7.value()] =~= seq![f0.value(), f1.value(), f2.value(), f3.value(), f4.value(), f5.value(), f6.value(), f7.value()]);
            assert(parse_fields(fs, 0, s, p0 as int) == Parsed::Done(Value::Fields(seq![f0.value(), f1.value(), f2.value(), f3.value(), f4.value(), f5.value(), f6.value(), f7.value()]), p8 as int));
        }
        Ok((CreateDelegationTokenResponse { error_code: f0, owner: f1, issue_timestamp: f2, expiry_timestamp: f3, max_timestamp: f4, token_id: f5, hmac: f6, throttle_time_ms: f7 }, p8))
    }
}

} // verus!
