//! The Alter Configs Response message (version 1).
use vstd::prelude::*;
use crate::wire::{Parsed, Schema, Value, encode_fields, encode_value, framed, parse_fields, parse_value, reported_fields, reported_len, wf_value};
use crate::codec::{Decode, Encode, Wire, agrees, array, be_i32, be_i8, nullable_string, parse_prefix, parsed_prefix, string};
use crate::error::{ErrorCode, error_code};

verus! {

/// Parses a `AlterConfigsResponse` at the start of `input`; gives it with the input that
/// follows it, or `None` when the input does not start with one.
pub fn alter_configs_response<'i>(input: &'i [u8]) -> (r: Option<(AlterConfigsResponse<'i>, &'i [u8])>)
    ensures
        parsed_prefix(r, AlterConfigsResponse::<'i>::schema(), input@),
{
    parse_prefix(input)
}

pub const VERSION: i16 = 1;

#[derive(Clone, Debug, PartialEq)]
pub struct Resources<'i> {
    pub error_code: ErrorCode,
    pub error_message: Option<&'i str>,
    pub resource_type: i8,
    pub resource_name: &'i str,
}

impl<'i> Wire for Resources<'i> {
    open spec fn value(&self) -> Value {
        Value::Fields(seq![self.error_code.value(), self.error_message.value(), self.resource_type.value(), self.resource_name.value()])
    }
}

impl<'i> Resources<'i> {
    /// The wire format, field by field.
    pub open spec fn fields() -> Seq<Schema> {
        seq![Schema::ErrorCode, Schema::NullableStr, Schema::I8, Schema::Str]
    }

    pub open spec fn schema() -> Schema {
        Schema::Struct(Self::fields())
    }

    /// The schemas with which the fields are written.
    pub open spec fn encoded_fields() -> Seq<Schema> {
        seq![<ErrorCode as Encode>::encode_schema(), <Option<&'i str> as Encode>::encode_schema(), <i8 as Encode>::encode_schema(), <&'i str as Encode>::encode_schema()]
    }

    /// The encoding of the whole is the encodings of the fields in order.
    pub proof fn lemma_encoding(&self)
        ensures
            encode_value(<Self as Encode>::encode_schema(), self.value()) == encode_value(<ErrorCode as Encode>::encode_schema(), self.error_code.value()) + encode_value(<Option<&'i str> as Encode>::encode_schema(), self.error_message.value()) + encode_value(<i8 as Encode>::encode_schema(), self.resource_type.value()) + encode_value(<&'i str as Encode>::encode_schema(), self.resource_name.value()),
            reported_len(<Self as Encode>::encode_schema(), self.value()) == reported_len(<ErrorCode as Encode>::encode_schema(), self.error_code.value()) + reported_len(<Option<&'i str> as Encode>::encode_schema(), self.error_message.value()) + reported_len(<i8 as Encode>::encode_schema(), self.resource_type.value()) + reported_len(<&'i str as Encode>::encode_schema(), self.resource_name.value()),
            wf_value(<Self as Encode>::encode_schema(), self.value()) ==> wf_value(<ErrorCode as Encode>::encode_schema(), self.error_code.value()),
            wf_value(<Self as Encode>::encode_schema(), self.value()) ==> wf_value(<Option<&'i str> as Encode>::encode_schema(), self.error_message.value()),
            wf_value(<Self as Encode>::encode_schema(), self.value()) ==> wf_value(<i8 as Encode>::encode_schema(), self.resource_type.value()),
            wf_value(<Self as Encode>::encode_schema(), self.value()) ==> wf_value(<&'i str as Encode>::encode_schema(), self.resource_name.value()),
    {
        let fs = Self::encoded_fields();
        let vs = seq![self.error_code.value(), self.error_message.value(), self.resource_type.value(), self.resource_name.value()];
        assert(self.value() == Value::Fields(vs));
        assert(encode_fields(fs, 4, vs) == Seq::<u8>::empty());
        assert(encode_fields(fs, 3, vs) == encode_value(fs[3], vs[3]) + encode_fields(fs, 4, vs));
        assert(encode_fields(fs, 2, vs) == encode_value(fs[2], vs[2]) + encode_fields(fs, 3, vs));
        assert(encode_fields(fs, 1, vs) == encode_value(fs[1], vs[1]) + encode_fields(fs, 2, vs));
        assert(encode_fields(fs, 0, vs) == encode_value(fs[0], vs[0]) + encode_fields(fs, 1, vs));
        assert(encode_fields(fs, 0, vs) =~= encode_value(fs[0], vs[0]) + encode_value(fs[1], vs[1]) + encode_value(fs[2], vs[2]) + encode_value(fs[3], vs[3]));
        assert(reported_fields(fs, 4, vs) == 0);
        assert(reported_fields(fs, 3, vs) == reported_len(fs[3], vs[3]) + reported_fields(fs, 4, vs));
        assert(reported_fields(fs, 2, vs) == reported_len(fs[2], vs[2]) + reported_fields(fs, 3, vs));
        assert(reported_fields(fs, 1, vs) == reported_len(fs[1], vs[1]) + reported_fields(fs, 2, vs));
        assert(reported_fields(fs, 0, vs) == reported_len(fs[0], vs[0]) + reported_fields(fs, 1, vs));
        if wf_value(<Self as Encode>::encode_schema(), self.value()) {
            assert(wf_value(fs[0], vs[0]));
            assert(wf_value(fs[1], vs[1]));
            assert(wf_value(fs[2], vs[2]));
            assert(wf_value(fs[3], vs[3]));
        }
    }

    /// The type reads as it writes, and counts all of its lists.
    pub proof fn lemma_wire_format()
        ensures
            Self::schema() == <Self as Encode>::encode_schema(),
            framed(Self::schema()),
    {
        assert(Self::fields() =~= Self::encoded_fields());
        assert forall|k: int| 0 <= k < Self::fields().len() implies framed(#[trigger] Self::fields()[k]) by {
            reveal_with_fuel(framed, 3);
            if k == 0 {} else if k == 1 {} else if k == 2 {} else if k == 3 {}
        }
    }
}

impl<'i> Decode<'i> for Resources<'i> {
    open spec fn parse_schema() -> Schema {
        Self::schema()
    }

    #[verifier::spinoff_prover]
    #[verifier::rlimit(60)]
    fn parse_at(input: &'i [u8], pos: usize) -> (r: Result<(Self, usize), bool>) {
        let ghost s = input@;
        let ghost fs = Self::fields();
        let p0 = pos;
        let (f0, p1): (ErrorCode, usize) = match error_code(input, p0) {
            Ok(x) => x,
            Err(c) => {
                proof {
                    assert(parse_fields(fs, 0, s, p0 as int) == Parsed::Failed(c));
                }
                return Err(c);
            },
        };
        let (f1, p2): (Option<&'i str>, usize) = match nullable_string(input, p1) {
            Ok(x) => x,
            Err(c) => {
                proof {
                    assert(parse_fields(fs, 1, s, p1 as int) == Parsed::Failed(c));
                    assert(parse_fields(fs, 0, s, p0 as int) == Parsed::Failed(c || p1 > p0));
                }
                return Err(c || p1 > p0);
            },
        };
        let (f2, p3): (i8, usize) = match be_i8(input, p2) {
            Ok(x) => x,
            Err(c) => {
                proof {
                    assert(parse_fields(fs, 2, s, p2 as int) == Parsed::Failed(c));
                    assert(parse_fields(fs, 1, s, p1 as int) == Parsed::Failed(c || p2 > p1));
                    assert(parse_fields(fs, 0, s, p0 as int) == Parsed::Failed(c || p2 > p0));
                }
                return Err(c || p2 > p0);
            },
        };
        let (f3, p4): (&'i str, usize) = match string(input, p3) {
            Ok(x) => x,
            Err(c) => {
                proof {
                    assert(parse_fields(fs, 3, s, p3 as int) == Parsed::Failed(c));
                    assert(parse_fields(fs, 2, s, p2 as int) == Parsed::Failed(c || p3 > p2));
                    assert(parse_fields(fs, 1, s, p1 as int) == Parsed::Failed(c || p3 > p1));
                    assert(parse_fields(fs, 0, s, p0 as int) == Parsed::Failed(c || p3 > p0));
                }
                return Err(c || p3 > p0);
            },
        };
        proof {
            assert(parse_fields(fs, 4, s, p4 as int) == Parsed::Done(Value::Fields(Seq::empty()), p4 as int));
            assert(seq![f3.value()] + Seq::<Value>::empty() =~= seq![f3.value()]);
            assert(parse_fields(fs, 3, s, p3 as int) == Parsed::Done(Value::Fields(seq![f3.value()]), p4 as int));
            assert(seq![f2.value()] + seq![f3.value()] =~= seq![f2.value(), f3.value()]);
            assert(parse_fields(fs, 2, s, p2 as int) == Parsed::Done(Value::Fields(seq![f2.value(), f3.value()]), p4 as int));
            assert(seq![f1.value()] + seq![f2.value(), f3.value()] =~= seq![f1.value(), f2.value(), f3.value()]);
            assert(parse_fields(fs, 1, s, p1 as int) == Parsed::Done(Value::Fields(seq![f1.value(), f2.value(), f3.value()]), p4 as int));
            assert(seq![f0.value()] + seq![f1.value(), f2.value(), f3.value()] =~= seq![f0.value(), f1.value(), f2.value(), f3.value()]);
            assert(parse_fields(fs, 0, s, p0 as int) == Parsed::Done(Value::Fields(seq![f0.value(), f1.value(), f2.value(), f3.value()]), p4 as int));
        }
        Ok((Resources { error_code: f0, error_message: f1, resource_type: f2, resource_name: f3 }, p4))
    }
}

impl<'i> Encode for Resources<'i> {
    open spec fn encode_schema() -> Schema {
        Schema::Struct(Self::encoded_fields())
    }

    fn encode_len(&self) -> (n: usize) {
        proof { self.lemma_encoding(); }
        self.error_code.encode_len() + self.error_message.encode_len() + self.resource_type.encode_len() + self.resource_name.encode_len()
    }

    #[verifier::spinoff_prover]
    fn encodable(&self) -> (b: bool) {
        let b = self.error_code.encodable() && self.error_message.encodable() && self.resource_type.encodable() && self.resource_name.encodable();
        proof {
            self.lemma_encoding();
            let fs = Self::encoded_fields();
            let vs = seq![self.error_code.value(), self.error_message.value(), self.resource_type.value(), self.resource_name.value()];
            assert(self.value() == Value::Fields(vs));
            if b {
                assert forall|k: int| 0 <= k < vs.len() implies wf_value(fs[k], #[trigger] vs[k]) by {
                    if k == 0 {} else if k == 1 {} else if k == 2 {} else if k == 3 {}
                }
            }
        }
        b
    }

    fn encode(&self, writer: &mut Vec<u8>) {
        proof { self.lemma_encoding(); }
        self.error_code.encode(writer);
        self.error_message.encode(writer);
        self.resource_type.encode(writer);
        self.resource_name.encode(writer);
        assert(writer@ =~= old(writer)@ + encode_value(Self::encode_schema(), self.value()));
    }
}

#[derive(Clone, Debug, PartialEq)]
pub struct AlterConfigsResponse<'i> {
    pub throttle_time_ms: i32,
    pub resources: Vec<Resources<'i>>,
}

impl<'i> Wire for AlterConfigsResponse<'i> {
    open spec fn value(&self) -> Value {
        Value::Fields(seq![self.throttle_time_ms.value(), self.resources.value()])
    }
}

impl<'i> AlterConfigsResponse<'i> {
    /// The wire format, field by field.
    pub open spec fn fields() -> Seq<Schema> {
        seq![Schema::I32, Schema::Array(Box::new(Resources::<'i>::schema()))]
    }

    pub open spec fn schema() -> Schema {
        Schema::Struct(Self::fields())
    }

    /// The schemas with which the fields are written.
    pub open spec fn encoded_fields() -> Seq<Schema> {
        seq![<i32 as Encode>::encode_schema(), <Vec<Resources<'i>> as Encode>::encode_schema()]
    }

    /// The encoding of the whole is the encodings of the fields in order.
    pub proof fn lemma_encoding(&self)
        ensures
            encode_value(<Self as Encode>::encode_schema(), self.value()) == encode_value(<i32 as Encode>::encode_schema(), self.throttle_time_ms.value()) + encode_value(<Vec<Resources<'i>> as Encode>::encode_schema(), self.resources.value()),
            reported_len(<Self as Encode>::encode_schema(), self.value()) == reported_len(<i32 as Encode>::encode_schema(), self.throttle_time_ms.value()) + reported_len(<Vec<Resources<'i>> as Encode>::encode_schema(), self.resources.value()),
            wf_value(<Self as Encode>::encode_schema(), self.value()) ==> wf_value(<i32 as Encode>::encode_schema(), self.throttle_time_ms.value()),
            wf_value(<Self as Encode>::encode_schema(), self.value()) ==> wf_value(<Vec<Resources<'i>> as Encode>::encode_schema(), self.resources.value()),
    {
        let fs = Self::encoded_fields();
        let vs = seq![self.throttle_time_ms.value(), self.resources.value()];
        assert(self.value() == Value::Fields(vs));
        assert(encode_fields(fs, 2, vs) == Seq::<u8>::empty());
        assert(encode_fields(fs, 1, vs) == encode_value(fs[1], vs[1]) + encode_fields(fs, 2, vs));
        assert(encode_fields(fs, 0, vs) == encode_value(fs[0], vs[0]) + encode_fields(fs, 1, vs));
        assert(encode_fields(fs, 0, vs) =~= encode_value(fs[0], vs[0]) + encode_value(fs[1], vs[1]));
        assert(reported_fields(fs, 2, vs) == 0);
        assert(reported_fields(fs, 1, vs) == reported_len(fs[1], vs[1]) + reported_fields(fs, 2, vs));
        assert(reported_fields(fs, 0, vs) == reported_len(fs[0], vs[0]) + reported_fields(fs, 1, vs));
        if wf_value(<Self as Encode>::encode_schema(), self.value()) {
            assert(wf_value(fs[0], vs[0]));
            assert(wf_value(fs[1], vs[1]));
        }
    }

    /// The type reads as it writes, and counts all of its lists.
    pub proof fn lemma_wire_format()
        ensures
            Self::schema() == <Self as Encode>::encode_schema(),
            framed(Self::schema()),
    {
        Resources::<'i>::lemma_wire_format();
        assert(Self::fields() =~= Self::encoded_fields());
        assert forall|k: int| 0 <= k < Self::fields().len() implies framed(#[trigger] Self::fields()[k]) by {
            reveal_with_fuel(framed, 3);
            if k == 0 {} else if k == 1 {}
        }
    }
}

impl<'i> Decode<'i> for AlterConfigsResponse<'i> {
    open spec fn parse_schema() -> Schema {
        Self::schema()
    }

    #[verifier::spinoff_prover]
    #[verifier::rlimit(60)]
    fn parse_at(input: &'i [u8], pos: usize) -> (r: Result<(Self, usize), bool>) {
        let ghost s = input@;
        let ghost fs = Self::fields();
        let p0 = pos;
        let (f0, p1): (i32, usize) = match be_i32(input, p0) {
            Ok(x) => x,
            Err(c) => {
                proof {
                    assert(parse_fields(fs, 0, s, p0 as int) == Parsed::Failed(c));
                }
                return Err(c);
            },
        };
        let (f1, p2): (Vec<Resources<'i>>, usize) = match array::<Resources<'i>>(input, p1) {
            Ok(x) => x,
            Err(c) => {
                proof {
                    assert(parse_fields(fs, 1, s, p1 as int) == Parsed::Failed(c));
                    assert(parse_fields(fs, 0, s, p0 as int) == Parsed::Failed(c || p1 > p0));
                }
                return Err(c || p1 > p0);
            },
        };
        proof {
            assert(parse_fields(fs, 2, s, p2 as int) == Parsed::Done(Value::Fields(Seq::empty()), p2 as int));
            assert(seq![f1.value()] + Seq::<Value>::empty() =~= seq![f1.value()]);
            assert(parse_fields(fs, 1, s, p1 as int) == Parsed::Done(Value::Fields(seq![f1.value()]), p2 as int));
            assert(seq![f0.value()] + seq![f1.value()] =~= seq![f0.value(), f1.value()]);
            assert(parse_fields(fs, 0, s, p0 as int) == Parsed::Done(Value::Fields(seq![f0.value(), f1.value()]), p2 as int));
        }
        Ok((AlterConfigsResponse { throttle_time_ms: f0, resources: f1 }, p2))
    }
}

impl<'i> Encode for AlterConfigsResponse<'i> {
    open spec fn encode_schema() -> Schema {
        Schema::Struct(Self::encoded_fields())
    }

    fn encode_len(&self) -> (n: usize) {
        proof { self.lemma_encoding(); }
        self.throttle_time_ms.encode_len() + self.resources.encode_len()
    }

    #[verifier::spinoff_prover]
    fn encodable(&self) -> (b: bool) {
        let b = self.throttle_time_ms.encodable() && self.resources.encodable();
        proof {
            self.lemma_encoding();
            let fs = Self::encoded_fields();
            let vs = seq![self.throttle_time_ms.value(), self.resources.value()];
            assert(self.value() == Value::Fields(vs));
            if b {
                assert forall|k: int| 0 <= k < vs.len() implies wf_value(fs[k], #[trigger] vs[k]) by {
                    if k == 0 {} else if k == 1 {}
                }
            }
        }
        b
    }

    fn encode(&self, writer: &mut Vec<u8>) {
        proof { self.lemma_encoding(); }
        self.throttle_time_ms.encode(writer);
        self.resources.encode(writer);
        assert(writer@ =~= old(writer)@ + encode_value(Self::encode_schema(), self.value()));
    }
}

} // verus!
