//! The Delete Groups Request message (version 1).
use vstd::prelude::*;
use crate::wire::{Parsed, Schema, Value, encode_fields, encode_value, framed, parse_fields, parse_value, reported_fields, reported_len, wf_value};
use crate::codec::{Decode, Encode, Wire, agrees, array, parse_prefix, parsed_prefix};

verus! {

/// Parses a `DeleteGroupsRequest` at the start of `input`; gives it with the input that
/// follows it, or `None` when the input does not start with one.
pub fn delete_groups_request<'i>(input: &'i [u8]) -> (r: Option<(DeleteGroupsRequest<'i>, &'i [u8])>)
    ensures
        parsed_prefix(r, DeleteGroupsRequest::<'i>::schema(), input@),
{
    parse_prefix(input)
}

pub const VERSION: i16 = 1;

#[derive(Clone, Debug, PartialEq)]
pub struct DeleteGroupsRequest<'i> {
    pub groups: Vec<&'i str>,
}

impl<'i> Wire for DeleteGroupsRequest<'i> {
    open spec fn value(&self) -> Value {
        Value::Fields(seq![self.groups.value()])
    }
}

impl<'i> DeleteGroupsRequest<'i> {
    /// The wire format, field by field.
    pub open spec fn fields() -> Seq<Schema> {
        seq![Schema::Array(Box::new(Schema::Str))]
    }

    pub open spec fn schema() -> Schema {
        Schema::Struct(Self::fields())
    }

    /// The schemas with which the fields are written.
    pub open spec fn encoded_fields() -> Seq<Schema> {
        seq![<Vec<&'i str> as Encode>::encode_schema()]
    }

    /// The encoding of the whole is the encodings of the fields in order.
    pub proof fn lemma_encoding(&self)
        ensures
            encode_value(<Self as Encode>::encode_schema(), self.value()) == encode_value(<Vec<&'i str> as Encode>::encode_schema(), self.groups.value()),
            reported_len(<Self as Encode>::encode_schema(), self.value()) == reported_len(<Vec<&'i str> as Encode>::encode_schema(), self.groups.value()),
            wf_value(<Self as Encode>::encode_schema(), self.value()) ==> wf_value(<Vec<&'i str> as Encode>::encode_schema(), self.groups.value()),
    {
        let fs = Self::encoded_fields();
        let vs = seq![self.groups.value()];
        assert(self.value() == Value::Fields(vs));
        assert(encode_fields(fs, 1, vs) == Seq::<u8>::empty());
        assert(encode_fields(fs, 0, vs) == encode_value(fs[0], vs[0]) + encode_fields(fs, 1, vs));
        assert(encode_fields(fs, 0, vs) =~= encode_value(fs[0], vs[0]));
        assert(reported_fields(fs, 1, vs) == 0);
        assert(reported_fields(fs, 0, vs) == reported_len(fs[0], vs[0]) + reported_fields(fs, 1, vs));
        if wf_value(<Self as Encode>::encode_schema(), self.value()) {
            assert(wf_value(fs[0], vs[0]));
        }
    }

    /// The type reads as it writes, and counts all of its lists.
    pub proof fn lemma_wire_format()
        ensures
            Self::schema() == <Self as Encode>::encode_schema(),
            framed(Self::schema()),
    {
        assert(Self::fields() =~= Self::encoded_fields());
        assert forall|k: int| 0 <= k < Self::fields().len() implies framed(#[trigger] Self::fields()[k]) by {
            reveal_with_fuel(framed, 3);
            if k == 0 {}
        }
    }
}

impl<'i> Decode<'i> for DeleteGroupsRequest<'i> {
    open spec fn parse_schema() -> Schema {
        Self::schema()
    }

    fn parse_at(input: &'i [u8], pos: usize) -> (r: Result<(Self, usize), bool>) {
        let ghost s = input@;
        let ghost fs = Self::fields();
        let p0 = pos;
        let (f0, p1): (Vec<&'i str>, usize) = match array::<&'i str>(input, p0) {
            Ok(x) => x,
            Err(c) => {
                proof {
                    assert(parse_fields(fs, 0, s, p0 as int) == Parsed::Failed(c));
                }
                return Err(c);
            },
        };
        proof {
            assert(parse_fields(fs, 1, s, p1 as int) == Parsed::Done(Value::Fields(Seq::empty()), p1 as int));
            assert(seq![f0.value()] + Seq::<Value>::empty() =~= seq![f0.value()]);
            assert(parse_fields(fs, 0, s, p0 as int) == Parsed::Done(Value::Fields(seq![f0.value()]), p1 as int));
        }
        Ok((DeleteGroupsRequest { groups: f0 }, p1))
    }
}

impl<'i> Encode for DeleteGroupsRequest<'i> {
    open spec fn encode_schema() -> Schema {
        Schema::Struct(Self::encoded_fields())
    }

    fn encode_len(&self) -> (n: usize) {
        proof { self.lemma_encoding(); }
        self.groups.encode_len()
    }

    fn encodable(&self) -> (b: bool) {
        let b = self.groups.encodable();
        proof {
            self.lemma_encoding();
            let fs = Self::encoded_fields();
            let vs = seq![self.groups.value()];
            assert(self.value() == Value::Fields(vs));
            if b {
                assert forall|k: int| 0 <= k < vs.len() implies wf_value(fs[k], #[trigger] vs[k]) by {
                    if k == 0 {}
                }
            }
        }
        b
    }

    fn encode(&self, writer: &mut Vec<u8>) {
        proof { self.lemma_encoding(); }
        self.groups.encode(writer);
        assert(writer@ =~= old(writer)@ + encode_value(Self::encode_schema(), self.value()));
    }
}

} // verus!
