//! The Api Versions Response message (version 2).
use vstd::prelude::*;
use crate::wire::{Parsed, Schema, Value, encode_fields, encode_value, framed, parse_fields, parse_value, reported_fields, reported_len, wf_value};
use crate::codec::{Decode, Encode, Wire, agrees, array, be_i16, be_i32, parse_prefix, parsed_prefix};

verus! {

/// Parses a `ApiVersionsResponse` at the start of `input`; gives it with the input that
/// follows it, or `None` when the input does not start with one.
pub fn api_versions_response<'i>(input: &'i [u8]) -> (r: Option<(ApiVersionsResponse, &'i [u8])>)
    ensures
        parsed_prefix(r, ApiVersionsResponse::schema(), input@),
{
    parse_prefix(input)
}

pub const VERSION: i16 = 2;

#[derive(Clone, Debug, PartialEq)]
pub struct ApiVersions {
    pub api_key: i16,
    pub min_version: i16,
    pub max_version: i16,
}

impl Wire for ApiVersions {
    open spec fn value(&self) -> Value {
        Value::Fields(seq![self.api_key.value(), self.min_version.value(), self.max_version.value()])
    }
}

impl ApiVersions {
    /// The wire format, field by field.
    pub open spec fn fields() -> Seq<Schema> {
        seq![Schema::I16, Schema::I16, Schema::I16]
    }

    pub open spec fn schema() -> Schema {
        Schema::Struct(Self::fields())
    }

    /// The schemas with which the fields are written.
    pub open spec fn encoded_fields() -> Seq<Schema> {
        seq![<i16 as Encode>::encode_schema(), <i16 as Encode>::encode_schema(), <i16 as Encode>::encode_schema()]
    }

    /// The encoding of the whole is the encodings of the fields in order.
    pub proof fn lemma_encoding(&self)
        ensures
            encode_value(<Self as Encode>::encode_schema(), self.value()) == encode_value(<i16 as Encode>::encode_schema(), self.api_key.value()) + encode_value(<i16 as Encode>::encode_schema(), self.min_version.value()) + encode_value(<i16 as Encode>::encode_schema(), self.max_version.value()),
            reported_len(<Self as Encode>::encode_schema(), self.value()) == reported_len(<i16 as Encode>::encode_schema(), self.api_key.value()) + reported_len(<i16 as Encode>::encode_schema(), self.min_version.value()) + reported_len(<i16 as Encode>::encode_schema(), self.max_version.value()),
            wf_value(<Self as Encode>::encode_schema(), self.value()) ==> wf_value(<i16 as Encode>::encode_schema(), self.api_key.value()),
            wf_value(<Self as Encode>::encode_schema(), self.value()) ==> wf_value(<i16 as Encode>::encode_schema(), self.min_version.value()),
            wf_value(<Self as Encode>::encode_schema(), self.value()) ==> wf_value(<i16 as Encode>::encode_schema(), self.max_version.value()),
    {
        let fs = Self::encoded_fields();
        let vs = seq![self.api_key.value(), self.min_version.value(), self.max_version.value()];
        assert(self.value() == Value::Fields(vs));
        assert(encode_fields(fs, 3, vs) == Seq::<u8>::empty());
        assert(encode_fields(fs, 2, vs) == encode_value(fs[2], vs[2]) + encode_fields(fs, 3, vs));
        assert(encode_fields(fs, 1, vs) == encode_value(fs[1], vs[1]) + encode_fields(fs, 2, vs));
        assert(encode_fields(fs, 0, vs) == encode_value(fs[0], vs[0]) + encode_fields(fs, 1, vs));
        assert(encode_fields(fs, 0, vs) =~= encode_value(fs[0], vs[0]) + encode_value(fs[1], vs[1]) + encode_value(fs[2], vs[2]));
        assert(reported_fields(fs, 3, vs) == 0);
        assert(reported_fields(fs, 2, vs) == reported_len(fs[2], vs[2]) + reported_fields(fs, 3, vs));
        assert(reported_fields(fs, 1, vs) == reported_len(fs[1], vs[1]) + reported_fields(fs, 2, vs));
        assert(reported_fields(fs, 0, vs) == reported_len(fs[0], vs[0]) + reported_fields(fs, 1, vs));
        if wf_value(<Self as Encode>::encode_schema(), self.value()) {
            assert(wf_value(fs[0], vs[0]));
            assert(wf_value(fs[1], vs[1]));
            assert(wf_value(fs[2], vs[2]));
        }
    }

    /// The type reads as it writes, and counts all of its lists.
    pub proof fn lemma_wire_format()
        ensures
            Self::schema() == <Self as Encode>::encode_schema(),
            framed(Self::schema()),
    {
        assert(Self::fields() =~= Self::encoded_fields());
        assert forall|k: int| 0 <= k < Self::fields().len() implies framed(#[trigger] Self::fields()[k]) by {
            reveal_with_fuel(framed, 3);
            if k == 0 {} else if k == 1 {} else if k == 2 {}
        }
    }
}

impl<'i> Decode<'i> for ApiVersions {
    open spec fn parse_schema() -> Schema {
        Self::schema()
    }

    #[verifier::spinoff_prover]
    #[verifier::rlimit(60)]
    fn parse_at(input: &'i [u8], pos: usize) -> (r: Result<(Self, usize), bool>) {
        let ghost s = input@;
        let ghost fs = Self::fields();
        let p0 = pos;
        let (f0, p1): (i16, usize) = match be_i16(input, p0) {
            Ok(x) => x,
            Err(c) => {
                proof {
                    assert(parse_fields(fs, 0, s, p0 as int) == Parsed::Failed(c));
                }
                return Err(c);
            },
        };
        let (f1, p2): (i16, usize) = match be_i16(input, p1) {
            Ok(x) => x,
            Err(c) => {
                proof {
                    assert(parse_fields(fs, 1, s, p1 as int) == Parsed::Failed(c));
                    assert(parse_fields(fs, 0, s, p0 as int) == Parsed::Failed(c || p1 > p0));
                }
                return Err(c || p1 > p0);
            },
        };
        let (f2, p3): (i16, usize) = match be_i16(input, p2) {
            Ok(x) => x,
            Err(c) => {
                proof {
                    assert(parse_fields(fs, 2, s, p2 as int) == Parsed::Failed(c));
                    assert(parse_fields(fs, 1, s, p1 as int) == Parsed::Failed(c || p2 > p1));
                    assert(parse_fields(fs, 0, s, p0 as int) == Parsed::Failed(c || p2 > p0));
                }
                return Err(c || p2 > p0);
            },
        };
        proof {
            assert(parse_fields(fs, 3, s, p3 as int) == Parsed::Done(Value::Fields(Seq::empty()), p3 as int));
            assert(seq![f2.value()] + Seq::<Value>::empty() =~= seq![f2.value()]);
            assert(parse_fields(fs, 2, s, p2 as int) == Parsed::Done(Value::Fields(seq![f2.value()]), p3 as int));
            assert(seq![f1.value()] + seq![f2.value()] =~= seq![f1.value(), f2.value()]);
            assert(parse_fields(fs, 1, s, p1 as int) == Parsed::Done(Value::Fields(seq![f1.value(), f2.value()]), p3 as int));
            assert(seq![f0.value()] + seq![f1.value(), f2.value()] =~= seq![f0.value(), f1.value(), f2.value()]);
            assert(parse_fields(fs, 0, s, p0 as int) == Parsed::Done(Value::Fields(seq![f0.value(), f1.value(), f2.value()]), p3 as int));
        }
        Ok((ApiVersions { api_key: f0, min_version: f1, max_version: f2 }, p3))
    }
}

impl Encode for ApiVersions {
    open spec fn encode_schema() -> Schema {
        Schema::Struct(Self::encoded_fields())
    }

    fn encode_len(&self) -> (n: usize) {
        proof { self.lemma_encoding(); }
        self.api_key.encode_len() + self.min_version.encode_len() + self.max_version.encode_len()
    }

    #[verifier::spinoff_prover]
    fn encodable(&self) -> (b: bool) {
        let b = self.api_key.encodable() && self.min_version.encodable() && self.max_version.encodable();
        proof {
            self.lemma_encoding();
            let fs = Self::encoded_fields();
            let vs = seq![self.api_key.value(), self.min_version.value(), self.max_version.value()];
            assert(self.value() == Value::Fields(vs));
            if b {
                assert forall|k: int| 0 <= k < vs.len() implies wf_value(fs[k], #[trigger] vs[k]) by {
                    if k == 0 {} else if k == 1 {} else if k == 2 {}
                }
            }
        }
        b
    }

    fn encode(&self, writer: &mut Vec<u8>) {
        proof { self.lemma_encoding(); }
        self.api_key.encode(writer);
        self.min_version.encode(writer);
        self.max_version.encode(writer);
        assert(writer@ =~= old(writer)@ + encode_value(Self::encode_schema(), self.value()));
    }
}

#[derive(Clone, Debug, PartialEq)]
pub struct ApiVersionsResponse {
    pub error_code: i16,
    pub api_versions: Vec<ApiVersions>,
    pub throttle_time_ms: i32,
}

impl Wire for ApiVersionsResponse {
    open spec fn value(&self) -> Value {
        Value::Fields(seq![self.error_code.value(), self.api_versions.value(), self.throttle_time_ms.value()])
    }
}

impl ApiVersionsResponse {
    /// The wire format, field by field.
    pub open spec fn fields() -> Seq<Schema> {
        seq![Schema::I16, Schema::Array(Box::new(ApiVersions::schema())), Schema::I32]
    }

    pub open spec fn schema() -> Schema {
        Schema::Struct(Self::fields())
    }

    /// The schemas with which the fields are written.
    pub open spec fn encoded_fields() -> Seq<Schema> {
        seq![<i16 as Encode>::encode_schema(), <Vec<ApiVersions> as Encode>::encode_schema(), <i32 as Encode>::encode_schema()]
    }

    /// The encoding of the whole is the encodings of the fields in order.
    pub proof fn lemma_encoding(&self)
        ensures
            encode_value(<Self as Encode>::encode_schema(), self.value()) == encode_value(<i16 as Encode>::encode_schema(), self.error_code.value()) + encode_value(<Vec<ApiVersions> as Encode>::encode_schema(), self.api_versions.value()) + encode_value(<i32 as Encode>::encode_schema(), self.throttle_time_ms.value()),
            reported_len(<Self as Encode>::encode_schema(), self.value()) == reported_len(<i16 as Encode>::encode_schema(), self.error_code.value()) + reported_len(<Vec<ApiVersions> as Encode>::encode_schema(), self.api_versions.value()) + reported_len(<i32 as Encode>::encode_schema(), self.throttle_time_ms.value()),
            wf_value(<Self as Encode>::encode_schema(), self.value()) ==> wf_value(<i16 as Encode>::encode_schema(), self.error_code.value()),
            wf_value(<Self as Encode>::encode_schema(), self.value()) ==> wf_value(<Vec<ApiVersions> as Encode>::encode_schema(), self.api_versions.value()),
            wf_value(<Self as Encode>::encode_schema(), self.value()) ==> wf_value(<i32 as Encode>::encode_schema(), self.throttle_time_ms.value()),
    {
        let fs = Self::encoded_fields();
        let vs = seq![self.error_code.value(), self.api_versions.value(), self.throttle_time_ms.value()];
        assert(self.value() == Value::Fields(vs));
        assert(encode_fields(fs, 3, vs) == Seq::<u8>::empty());
        assert(encode_fields(fs, 2, vs) == encode_value(fs[2], vs[2]) + encode_fields(fs, 3, vs));
        assert(encode_fields(fs, 1, vs) == encode_value(fs[1], vs[1]) + encode_fields(fs, 2, vs));
        assert(encode_fields(fs, 0, vs) == encode_value(fs[0], vs[0]) + encode_fields(fs, 1, vs));
        assert(encode_fields(fs, 0, vs) =~= encode_value(fs[0], vs[0]) + encode_value(fs[1], vs[1]) + encode_value(fs[2], vs[2]));
        assert(reported_fields(fs, 3, vs) == 0);
        assert(reported_fields(fs, 2, vs) == reported_len(fs[2], vs[2]) + reported_fields(fs, 3, vs));
        assert(reported_fields(fs, 1, vs) == reported_len(fs[1], vs[1]) + reported_fields(fs, 2, vs));
        assert(reported_fields(fs, 0, vs) == reported_len(fs[0], vs[0]) + reported_fields(fs, 1, vs));
        if wf_value(<Self as Encode>::encode_schema(), self.value()) {
            assert(wf_value(fs[0], vs[0]));
            assert(wf_value(fs[1], vs[1]));
            assert(wf_value(fs[2], vs[2]));
        }
    }

    /// The type reads as it writes, and counts all of its lists.
    pub proof fn lemma_wire_format()
        ensures
            Self::schema() == <Self as Encode>::encode_schema(),
            framed(Self::schema()),
    {
        ApiVersions::lemma_wire_format();
        assert(Self::fields() =~= Self::encoded_fields());
        assert forall|k: int| 0 <= k < Self::fields().len() implies framed(#[trigger] Self::fields()[k]) by {
            reveal_with_fuel(framed, 3);
            if k == 0 {} else if k == 1 {} else if k == 2 {}
        }
    }
}

impl<'i> Decode<'i> for ApiVersionsResponse {
    open spec fn parse_schema() -> Schema {
        Self::schema()
    }

    #[verifier::spinoff_prover]
    #[verifier::rlimit(60)]
    fn parse_at(input: &'i [u8], pos: usize) -> (r: Result<(Self, usize), bool>) {
        let ghost s = input@;
        let ghost fs = Self::fields();
        let p0 = pos;
        let (f0, p1): (i16, usize) = match be_i16(input, p0) {
            Ok(x) => x,
            Err(c) => {
                proof {
                    assert(parse_fields(fs, 0, s, p0 as int) == Parsed::Failed(c));
                }
                return Err(c);
            },
        };
        let (f1, p2): (Vec<ApiVersions>, usize) = match array::<ApiVersions>(input, p1) {
            Ok(x) => x,
            Err(c) => {
                proof {
                    assert(parse_fields(fs, 1, s, p1 as int) == Parsed::Failed(c));
                    assert(parse_fields(fs, 0, s, p0 as int) == Parsed::Failed(c || p1 > p0));
                }
                return Err(c || p1 > p0);
            },
        };
        let (f2, p3): (i32, usize) = match be_i32(input, p2) {
            Ok(x) => x,
            Err(c) => {
                proof {
                    assert(parse_fields(fs, 2, s, p2 as int) == Parsed::Failed(c));
                    assert(parse_fields(fs, 1, s, p1 as int) == Parsed::Failed(c || p2 > p1));
                    assert(parse_fields(fs, 0, s, p0 as int) == Parsed::Failed(c || p2 > p0));
                }
                return Err(c || p2 > p0);
            },
        };
        proof {
            assert(parse_fields(fs, 3, s, p3 as int) == Parsed::Done(Value::Fields(Seq::empty()), p3 as int));
            assert(seq![f2.value()] + Seq::<Value>::empty() =~= seq![f2.value()]);
            assert(parse_fields(fs, 2, s, p2 as int) == Parsed::Done(Value::Fields(seq![f2.value()]), p3 as int));
            assert(seq![f1.value()] + seq![f2.value()] =~= seq![f1.value(), f2.value()]);
            assert(parse_fields(fs, 1, s, p1 as int) == Parsed::Done(Value::Fields(seq![f1.value(), f2.value()]), p3 as int));
            assert(seq![f0.value()] + seq![f1.value(), f2.value()] =~= seq![f0.value(), f1.value(), f2.value()]);
            assert(parse_fields(fs, 0, s, p0 as int) == Parsed::Done(Value::Fields(seq![f0.value(), f1.value(), f2.value()]), p3 as int));
        }
        Ok((ApiVersionsResponse { error_code: f0, api_versions: f1, throttle_time_ms: f2 }, p3))
    }
}

impl Encode for ApiVersionsResponse {
    open spec fn encode_schema() -> Schema {
        Schema::Struct(Self::encoded_fields())
    }

    fn encode_len(&self) -> (n: usize) {
        proof { self.lemma_encoding(); }
        self.error_code.encode_len() + self.api_versions.encode_len() + self.throttle_time_ms.encode_len()
    }

    #[verifier::spinoff_prover]
    fn encodable(&self) -> (b: bool) {
        let b = self.error_code.encodable() && self.api_versions.encodable() && self.throttle_time_ms.encodable();
        proof {
            self.lemma_encoding();
            let fs = Self::encoded_fields();
            let vs = seq![self.error_code.value(), self.api_versions.value(), self.throttle_time_ms.value()];
            assert(self.value() == Value::Fields(vs));
            if b {
                assert forall|k: int| 0 <= k < vs.len() implies wf_value(fs[k], #[trigger] vs[k]) by {
                    if k == 0 {} else if k == 1 {} else if k == 2 {}
                }
            }
        }
        b
    }

    fn encode(&self, writer: &mut Vec<u8>) {
        proof { self.lemma_encoding(); }
        self.error_code.encode(writer);
        self.api_versions.encode(writer);
        self.throttle_time_ms.encode(writer);
        assert(writer@ =~= old(writer)@ + encode_value(Self::encode_schema(), self.value()));
    }
}

} // verus!
