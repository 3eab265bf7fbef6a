//! The Api Versions Request message (version 2).
use vstd::prelude::*;
use crate::wire::{Parsed, Schema, Value, encode_fields, encode_value, framed, parse_fields, parse_value, reported_fields, reported_len, wf_value};
use crate::codec::{Decode, Encode, Wire, agrees, parse_prefix, parsed_prefix};

verus! {

/// Parses a `ApiVersionsRequest` at the start of `input`; gives it with the input that
/// follows it, or `None` when the input does not start with one.
pub fn api_versions_request<'i>(input: &'i [u8]) -> (r: Option<(ApiVersionsRequest, &'i [u8])>)
    ensures
        parsed_prefix(r, ApiVersionsRequest::schema(), input@),
{
    parse_prefix(input)
}

pub const VERSION: i16 = 2;

#[derive(Clone, Debug, PartialEq)]
pub struct ApiVersionsRequest {
}

impl Wire for ApiVersionsRequest {
    open spec fn value(&self) -> Value {
        Value::Fields(seq![])
    }
}

impl ApiVersionsRequest {
    /// The wire format, field by field.
    pub open spec fn fields() -> Seq<Schema> {
        seq![]
    }

    pub open spec fn schema() -> Schema {
        Schema::Struct(Self::fields())
    }

    /// The schemas with which the fields are written.
    pub open spec fn encoded_fields() -> Seq<Schema> {
        seq![]
    }

    /// The encoding of the whole is the encodings of the fields in order.
    pub proof fn lemma_encoding(&self)
        ensures
            encode_value(<Self as Encode>::encode_schema(), self.value()) == Seq::<u8>::empty(),
            reported_len(<Self as Encode>::encode_schema(), self.value()) == 0,
    {
        let fs = Self::encoded_fields();
        let vs = seq![];
        assert(self.value() == Value::Fields(vs));
        assert(encode_fields(fs, 0, vs) == Seq::<u8>::empty());
        assert(reported_fields(fs, 0, vs) == 0);
        if wf_value(<Self as Encode>::encode_schema(), self.value()) {
        }
    }

    /// The type reads as it writes, and counts all of its lists.
    pub proof fn lemma_wire_format()
        ensures
            Self::schema() == <Self as Encode>::encode_schema(),
            framed(Self::schema()),
    {
        assert(Self::fields() =~= Self::encoded_fields());
    }
}

impl<'i> Decode<'i> for ApiVersionsRequest {
    open spec fn parse_schema() -> Schema {
        Self::schema()
    }

    fn parse_at(input: &'i [u8], pos: usize) -> (r: Result<(Self, usize), bool>) {
        let ghost s = input@;
        let ghost fs = Self::fields();
        let p0 = pos;
        proof {
            assert(parse_fields(fs, 0, s, p0 as int) == Parsed::Done(Value::Fields(Seq::empty()), p0 as int));
        }
        Ok((ApiVersionsRequest {  }, p0))
    }
}

impl Encode for ApiVersionsRequest {
    open spec fn encode_schema() -> Schema {
        Schema::Struct(Self::encoded_fields())
    }

    fn encode_len(&self) -> (n: usize) {
        proof { self.lemma_encoding(); }
        0
    }

    fn encodable(&self) -> (b: bool) {
        let b = true;
        proof {
            self.lemma_encoding();
            let fs = Self::encoded_fields();
            let vs = seq![];
            assert(self.value() == Value::Fields(vs));
        }
        b
    }

    fn encode(&self, writer: &mut Vec<u8>) {
        proof { self.lemma_encoding(); }
        assert(writer@ =~= old(writer)@ + encode_value(Self::encode_schema(), self.value()));
    }
}

} // verus!
