//! The Describe Groups Request message.
use vstd::prelude::*;
use crate::wire::{Parsed, Schema, Value, encode_fields, encode_value, parse_fields, parse_value, reported_fields, reported_len, wf_value};
use crate::codec::{Decode, Encode, Wire, agrees, boolean, many, parse_prefix, parsed_prefix};

verus! {

/// Parses a `DescribeGroupsRequest` at the start of `input`; gives it with the input that
/// follows it, or `None` when the input does not start with one.
pub fn describe_groups_request<'i>(input: &'i [u8]) -> (r: Option<(DescribeGroupsRequest<'i>, &'i [u8])>)
    ensures
        parsed_prefix(r, DescribeGroupsRequest::<'i>::schema(), input@),
{
    parse_prefix(input)
}

#[derive(Clone, Debug, PartialEq)]
pub struct DescribeGroupsRequest<'i> {
    pub groups: Vec<&'i str>,
    pub include_authorized_operations: bool,
}

impl<'i> Wire for DescribeGroupsRequest<'i> {
    open spec fn value(&self) -> Value {
        Value::Fields(seq![self.groups.value(), self.include_authorized_operations.value()])
    }
}

impl<'i> DescribeGroupsRequest<'i> {
    /// The wire format, field by field.
    pub open spec fn fields() -> Seq<Schema> {
        seq![Schema::Many(Box::new(Schema::Str)), Schema::Bool]
    }

    pub open spec fn schema() -> Schema {
        Schema::Struct(Self::fields())
    }

    /// The schemas with which the fields are written.
    pub open spec fn encoded_fields() -> Seq<Schema> {
        seq![<Vec<&'i str> as Encode>::encode_schema(), <bool as Encode>::encode_schema()]
    }

    /// The encoding of the whole is the encodings of the fields in order.
    pub proof fn lemma_encoding(&self)
        ensures
            encode_value(<Self as Encode>::encode_schema(), self.value()) == encode_value(<Vec<&'i str> as Encode>::encode_schema(), self.groups.value()) + encode_value(<bool as Encode>::encode_schema(), self.include_authorized_operations.value()),
            reported_len(<Self as Encode>::encode_schema(), self.value()) == reported_len(<Vec<&'i str> as Encode>::encode_schema(), self.groups.value()) + reported_len(<bool as Encode>::encode_schema(), self.include_authorized_operations.value()),
            wf_value(<Self as Encode>::encode_schema(), self.value()) ==> wf_value(<Vec<&'i str> as Encode>::encode_schema(), self.groups.value()),
            wf_value(<Self as Encode>::encode_schema(), self.value()) ==> wf_value(<bool as Encode>::encode_schema(), self.include_authorized_operations.value()),
    {
        let fs = Self::encoded_fields();
        let vs = seq![self.groups.value(), self.include_authorized_operations.value()];
        assert(self.value() == Value::Fields(vs));
        assert(encode_fields(fs, 2, vs) == Seq::<u8>::empty());
        assert(encode_fields(fs, 1, vs) == encode_value(fs[1], vs[1]) + encode_fields(fs, 2, vs));
        assert(encode_fields(fs, 0, vs) == encode_value(fs[0], vs[0]) + encode_fields(fs, 1, vs));
        assert(encode_fields(fs, 0, vs) =~= encode_value(fs[0], vs[0]) + encode_value(fs[1], vs[1]));
        assert(reported_fields(fs, 2, vs) == 0);
        assert(reported_fields(fs, 1, vs) == reported_len(fs[1], vs[1]) + reported_fields(fs, 2, vs));
        assert(reported_fields(fs, 0, vs) == reported_len(fs[0], vs[0]) + reported_fields(fs, 1, vs));
        if wf_value(<Self as Encode>::encode_schema(), self.value()) {
            assert(wf_value(fs[0], vs[0]));
            assert(wf_value(fs[1], vs[1]));
        }
    }
}

impl<'i> Decode<'i> for DescribeGroupsRequest<'i> {
    open spec fn parse_schema() -> Schema {
        Self::schema()
    }

    #[verifier::spinoff_prover]
    #[verifier::rlimit(60)]
    fn parse_at(input: &'i [u8], pos: usize) -> (r: Result<(Self, usize), bool>) {
        let ghost s = input@;
        let ghost fs = Self::fields();
        let p0 = pos;
        let (f0, p1): (Vec<&'i str>, usize) = match many::<&'i str>(input, p0) {
            Ok(x) => x,
            Err(c) => {
                proof {
                    assert(parse_fields(fs, 0, s, p0 as int) == Parsed::Failed(c));
                }
                return Err(c);
            },
        };
        let (f1, p2): (bool, usize) = match boolean(input, p1) {
            Ok(x) => x,
            Err(c) => {
                proof {
                    assert(parse_fields(fs, 1, s, p1 as int) == Parsed::Failed(c));
                    assert(parse_fields(fs, 0, s, p0 as int) == Parsed::Failed(c || p1 > p0));
                }
                return Err(c || p1 > p0);
            },
        };
        proof {
            assert(parse_fields(fs, 2, s, p2 as int) == Parsed::Done(Value::Fields(Seq::empty()), p2 as int));
            assert(seq![f1.value()] + Seq::<Value>::empty() =~= seq![f1.value()]);
            assert(parse_fields(fs, 1, s, p1 as int) == Parsed::Done(Value::Fields(seq![f1.value()]), p2 as int));
            assert(seq![f0.value()] + seq![f1.value()] =~= seq![f0.value(), f1.value()]);
            assert(parse_fields(fs, 0, s, p0 as int) == Parsed::Done(Value::Fields(seq![f0.value(), f1.value()]), p2 as int));
        }
        Ok((DescribeGroupsRequest { groups: f0, include_authorized_operations: f1 }, p2))
    }
}

impl<'i> Encode for DescribeGroupsRequest<'i> {
    open spec fn encode_schema() -> Schema {
        Schema::Struct(Self::encoded_fields())
    }

    fn encode_len(&self) -> (n: usize) {
        proof { self.lemma_encoding(); }
        self.groups.encode_len() + self.include_authorized_operations.encode_len()
    }

    #[verifier::spinoff_prover]
    fn encodable(&self) -> (b: bool) {
        let b = self.groups.encodable() && self.include_authorized_operations.encodable();
        proof {
            self.lemma_encoding();
            let fs = Self::encoded_fields();
            let vs = seq![self.groups.value(), self.include_authorized_operations.value()];
            assert(self.value() == Value::Fields(vs));
            if b {
                assert forall|k: int| 0 <= k < vs.len() implies wf_value(fs[k], #[trigger] vs[k]) by {
                    if k == 0 {} else if k == 1 {}
                }
            }
        }
        b
    }

    fn encode(&self, writer: &mut Vec<u8>) {
        proof { self.lemma_encoding(); }
        self.groups.encode(writer);
        self.include_authorized_operations.encode(writer);
        assert(writer@ =~= old(writer)@ + encode_value(Self::encode_schema(), self.value()));
    }
}

} // verus!
