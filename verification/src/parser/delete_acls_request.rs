//! The Delete Acls Request message (version 1).
use vstd::prelude::*;
use crate::wire::{Parsed, Schema, Value, encode_fields, encode_value, framed, parse_fields, parse_value, reported_fields, reported_len, wf_value};
use crate::codec::{Decode, Encode, Wire, agrees, array, be_i8, nullable_string, parse_prefix, parsed_prefix};

verus! {

/// Parses a `DeleteAclsRequest` at the start of `input`; gives it with the input that
/// follows it, or `None` when the input does not start with one.
pub fn delete_acls_request<'i>(input: &'i [u8]) -> (r: Option<(DeleteAclsRequest<'i>, &'i [u8])>)
    ensures
        parsed_prefix(r, DeleteAclsRequest::<'i>::schema(), input@),
{
    parse_prefix(input)
}

pub const VERSION: i16 = 1;

#[derive(Clone, Debug, PartialEq)]
pub struct Filters<'i> {
    pub resource_type: i8,
    pub resource_name: Option<&'i str>,
    pub resource_pattern_type_filter: i8,
    pub principal: Option<&'i str>,
    pub host: Option<&'i str>,
    pub operation: i8,
    pub permission_type: i8,
}

impl<'i> Wire for Filters<'i> {
    open spec fn value(&self) -> Value {
        Value::Fields(seq![self.resource_type.value(), self.resource_name.value(), self.resource_pattern_type_filter.value(), self.principal.value(), self.host.value(), self.operation.value(), self.permission_type.value()])
    }
}

impl<'i> Filters<'i> {
    /// The wire format, field by field.
    pub open spec fn fields() -> Seq<Schema> {
        seq![Schema::I8, Schema::NullableStr, Schema::I8, Schema::NullableStr, Schema::NullableStr, Schema::I8, Schema::I8]
    }

    pub open spec fn schema() -> Schema {
        Schema::Struct(Self::fields())
    }

    /// The schemas with which the fields are written.
    pub open spec fn encoded_fields() -> Seq<Schema> {
        seq![<i8 as Encode>::encode_schema(), <Option<&'i str> as Encode>::encode_schema(), <i8 as Encode>::encode_schema(), <Option<&'i str> as Encode>::encode_schema(), <Option<&'i str> as Encode>::encode_schema(), <i8 as Encode>::encode_schema(), <i8 as Encode>::encode_schema()]
    }

    /// The encoding of the whole is the encodings of the fields in order.
    pub proof fn lemma_encoding(&self)
        ensures
            encode_value(<Self as Encode>::encode_schema(), self.value()) == encode_value(<i8 as Encode>::encode_schema(), self.resource_type.value()) + encode_value(<Option<&'i str> as Encode>::encode_schema(), self.resource_name.value()) + encode_value(<i8 as Encode>::encode_schema(), self.resource_pattern_type_filter.value()) + encode_value(<Option<&'i str> as Encode>::encode_schema(), self.principal.value()) + encode_value(<Option<&'i str> as Encode>::encode_schema(), self.host.value()) + encode_value(<i8 as Encode>::encode_schema(), self.operation.value()) + encode_value(<i8 as Encode>::encode_schema(), self.permission_type.value()),
            reported_len(<Self as Encode>::encode_schema(), self.value()) == reported_len(<i8 as Encode>::encode_schema(), self.resource_type.value()) + reported_len(<Option<&'i str> as Encode>::encode_schema(), self.resource_name.value()) + reported_len(<i8 as Encode>::encode_schema(), self.resource_pattern_type_filter.value()) + reported_len(<Option<&'i str> as Encode>::encode_schema(), self.principal.value()) + reported_len(<Option<&'i str> as Encode>::encode_schema(), self.host.value()) + reported_len(<i8 as Encode>::encode_schema(), self.operation.value()) + reported_len(<i8 as Encode>::encode_schema(), self.permission_type.value()),
            wf_value(<Self as Encode>::encode_schema(), self.value()) ==> wf_value(<i8 as Encode>::encode_schema(), self.resource_type.value()),
            wf_value(<Self as Encode>::encode_schema(), self.value()) ==> wf_value(<Option<&'i str> as Encode>::encode_schema(), self.resource_name.value()),
            wf_value(<Self as Encode>::encode_schema(), self.value()) ==> wf_value(<i8 as Encode>::encode_schema(), self.resource_pattern_type_filter.value()),
            wf_value(<Self as Encode>::encode_schema(), self.value()) ==> wf_value(<Option<&'i str> as Encode>::encode_schema(), self.principal.value()),
            wf_value(<Self as Encode>::encode_schema(), self.value()) ==> wf_value(<Option<&'i str> as Encode>::encode_schema(), self.host.value()),
            wf_value(<Self as Encode>::encode_schema(), self.value()) ==> wf_value(<i8 as Encode>::encode_schema(), self.operation.value()),
            wf_value(<Self as Encode>::encode_schema(), self.value()) ==> wf_value(<i8 as Encode>::encode_schema(), self.permission_type.value()),
    {
        let fs = Self::encoded_fields();
        let vs = seq![self.resource_type.value(), self.resource_name.value(), self.resource_pattern_type_filter.value(), self.principal.value(), self.host.value(), self.operation.value(), self.permission_type.value()];
        assert(self.value() == Value::Fields(vs));
        assert(encode_fields(fs, 7, vs) == Seq::<u8>::empty());
        assert(encode_fields(fs, 6, vs) == encode_value(fs[6], vs[6]) + encode_fields(fs, 7, vs));
        assert(encode_fields(fs, 5, vs) == encode_value(fs[5], vs[5]) + encode_fields(fs, 6, vs));
        assert(encode_fields(fs, 4, vs) == encode_value(fs[4], vs[4]) + encode_fields(fs, 5, vs));
        assert(encode_fields(fs, 3, vs) == encode_value(fs[3], vs[3]) + encode_fields(fs, 4, vs));
        assert(encode_fields(fs, 2, vs) == encode_value(fs[2], vs[2]) + encode_fields(fs, 3, vs));
        assert(encode_fields(fs, 1, vs) == encode_value(fs[1], vs[1]) + encode_fields(fs, 2, vs));
        assert(encode_fields(fs, 0, vs) == encode_value(fs[0], vs[0]) + encode_fields(fs, 1, vs));
        assert(encode_fields(fs, 0, vs) =~= encode_value(fs[0], vs[0]) + encode_value(fs[1], vs[1]) + encode_value(fs[2], vs[2]) + encode_value(fs[3], vs[3]) + encode_value(fs[4], vs[4]) + encode_value(fs[5], vs[5]) + encode_value(fs[6], vs[6]));
        assert(reported_fields(fs, 7, vs) == 0);
        assert(reported_fields(fs, 6, vs) == reported_len(fs[6], vs[6]) + reported_fields(fs, 7, vs));
        assert(reported_fields(fs, 5, vs) == reported_len(fs[5], vs[5]) + reported_fields(fs, 6, vs));
        assert(reported_fields(fs, 4, vs) == reported_len(fs[4], vs[4]) + reported_fields(fs, 5, vs));
        assert(reported_fields(fs, 3, vs) == reported_len(fs[3], vs[3]) + reported_fields(fs, 4, vs));
        assert(reported_fields(fs, 2, vs) == reported_len(fs[2], vs[2]) + reported_fields(fs, 3, vs));
        assert(reported_fields(fs, 1, vs) == reported_len(fs[1], vs[1]) + reported_fields(fs, 2, vs));
        assert(reported_fields(fs, 0, vs) == reported_len(fs[0], vs[0]) + reported_fields(fs, 1, vs));
        if wf_value(<Self as Encode>::encode_schema(), self.value()) {
            assert(wf_value(fs[0], vs[0]));
            assert(wf_value(fs[1], vs[1]));
            assert(wf_value(fs[2], vs[2]));
            assert(wf_value(fs[3], vs[3]));
            assert(wf_value(fs[4], vs[4]));
            assert(wf_value(fs[5], vs[5]));
            assert(wf_value(fs[6], vs[6]));
        }
    }

    /// The type reads as it writes, and counts all of its lists.
    pub proof fn lemma_wire_format()
        ensures
            Self::schema() == <Self as Encode>::encode_schema(),
            framed(Self::schema()),
    {
        assert(Self::fields() =~= Self::encoded_fields());
        assert forall|k: int| 0 <= k < Self::fields().len() implies framed(#[trigger] Self::fields()[k]) by {
            reveal_with_fuel(framed, 3);
            if k == 0 {} else if k == 1 {} else if k == 2 {} else if k == 3 {} else if k == 4 {} else if k == 5 {} else if k == 6 {}
        }
    }
}

impl<'i> Decode<'i> for Filters<'i> {
    open spec fn parse_schema() -> Schema {
        Self::schema()
    }

    #[verifier::spinoff_prover]
    #[verifier::rlimit(100)]
    fn parse_at(input: &'i [u8], pos: usize) -> (r: Result<(Self, usize), bool>) {
        let ghost s = input@;
        let ghost fs = Self::fields();
        let p0 = pos;
        let (f0, p1): (i8, usize) = match be_i8(input, p0) {
            Ok(x) => x,
            Err(c) => {
                proof {
                    assert(parse_fields(fs, 0, s, p0 as int) == Parsed::Failed(c));
                }
                return Err(c);
            },
        };
        let (f1, p2): (Option<&'i str>, usize) = match nullable_string(input, p1) {
            Ok(x) => x,
            Err(c) => {
                proof {
                    assert(parse_fields(fs, 1, s, p1 as int) == Parsed::Failed(c));
                    assert(parse_fields(fs, 0, s, p0 as int) == Parsed::Failed(c || p1 > p0));
                }
                return Err(c || p1 > p0);
            },
        };
        let (f2, p3): (i8, usize) = match be_i8(input, p2) {
            Ok(x) => x,
            Err(c) => {
                proof {
                    assert(parse_fields(fs, 2, s, p2 as int) == Parsed::Failed(c));
                    assert(parse_fields(fs, 1, s, p1 as int) == Parsed::Failed(c || p2 > p1));
                    assert(parse_fields(fs, 0, s, p0 as int) == Parsed::Failed(c || p2 > p0));
                }
                return Err(c || p2 > p0);
            },
        };
        let (f3, p4): (Option<&'i str>, usize) = match nullable_string(input, p3) {
            Ok(x) => x,
            Err(c) => {
                proof {
                    assert(parse_fields(fs, 3, s, p3 as int) == Parsed::Failed(c));
                    assert(parse_fields(fs, 2, s, p2 as int) == Parsed::Failed(c || p3 > p2));
                    assert(parse_fields(fs, 1, s, p1 as int) == Parsed::Failed(c || p3 > p1));
                    assert(parse_fields(fs, 0, s, p0 as int) == Parsed::Failed(c || p3 > p0));
                }
                return Err(c || p3 > p0);
            },
        };
        let (f4, p5): (Option<&'i str>, usize) = match nullable_string(input, p4) {
            Ok(x) => x,
            Err(c) => {
                proof {
                    assert(parse_fields(fs, 4, s, p4 as int) == Parsed::Failed(c));
                    assert(parse_fields(fs, 3, s, p3 as int) == Parsed::Failed(c || p4 > p3));
                    assert(parse_fields(fs, 2, s, p2 as int) == Parsed::Failed(c || p4 > p2));
                    assert(parse_fields(fs, 1, s, p1 as int) == Parsed::Failed(c || p4 > p1));
                    assert(parse_fields(fs, 0, s, p0 as int) == Parsed::Failed(c || p4 > p0));
                }
                return Err(c || p4 > p0);
            },
        };
        let (f5, p6): (i8, usize) = match be_i8(input, p5) {
            Ok(x) => x,
            Err(c) => {
                proof {
                    assert(parse_fields(fs, 5, s, p5 as int) == Parsed::Failed(c));
                    assert(parse_fields(fs, 4, s, p4 as int) == Parsed::Failed(c || p5 > p4));
                    assert(parse_fields(fs, 3, s, p3 as int) == Parsed::Failed(c || p5 > p3));
                    assert(parse_fields(fs, 2, s, p2 as int) == Parsed::Failed(c || p5 > p2));
                    assert(parse_fields(fs, 1, s, p1 as int) == Parsed::Failed(c || p5 > p1));
                    assert(parse_fields(fs, 0, s, p0 as int) == Parsed::Failed(c || p5 > p0));
                }
                return Err(c || p5 > p0);
            },
        };
        let (f6, p7): (i8, usize) = match be_i8(input, p6) {
            Ok(x) => x,
            Err(c) => {
                proof {
                    assert(parse_fields(fs, 6, s, p6 as int) == Parsed::Failed(c));
                    assert(parse_fields(fs, 5, s, p5 as int) == Parsed::Failed(c || p6 > p5));
                    assert(parse_fields(fs, 4, s, p4 as int) == Parsed::Failed(c || p6 > p4));
                    assert(parse_fields(fs, 3, s, p3 as int) == Parsed::Failed(c || p6 > p3));
                    assert(parse_fields(fs, 2, s, p2 as int) == Parsed::Failed(c || p6 > p2));
                    assert(parse_fields(fs, 1, s, p1 as int) == Parsed::Failed(c || p6 > p1));
                    assert(parse_fields(fs, 0, s, p0 as int) == Parsed::Failed(c || p6 > p0));
                }
                return Err(c || p6 > p0);
            },
        };
        proof {
            assert(parse_fields(fs, 7, s, p7 as int) == Parsed::Done(Value::Fields(Seq::empty()), p7 as int));
            assert(seq![f6.value()] + Seq::<Value>::empty() =~= seq![f6.value()]);
            assert(parse_fields(fs, 6, s, p6 as int) == Parsed::Done(Value::Fields(seq![f6.value()]), p7 as int));
            assert(seq![f5.value()] + seq![f6.value()] =~= seq![f5.value(), f6.value()]);
            assert(parse_fields(fs, 5, s, p5 as int) == Parsed::Done(Value::Fields(seq![f5.value(), f6.value()]), p7 as int));
            assert(seq![f4.value()] + seq![f5.value(), f6.value()] =~= seq![f4.value(), f5.value(), f6.value()]);
            assert(parse_fields(fs, 4, s, p4 as int) == Parsed::Done(Value::Fields(seq![f4.value(), f5.value(), f6.value()]), p7 as int));
            assert(seq![f3.value()] + seq![f4.value(), f5.value(), f6.value()] =~= seq![f3.value(), f4.value(), f5.value(), f6.value()]);
            assert(parse_fields(fs, 3, s, p3 as int) == Parsed::Done(Value::Fields(seq![f3.value(), f4.value(), f5.value(), f6.value()]), p7 as int));
            assert(seq![f2.value()] + seq![f3.value(), f4.value(), f5.value(), f6.value()] =~= seq![f2.value(), f3.value(), f4.value(), f5.value(), f6.value()]);
            assert(parse_fields(fs, 2, s, p2 as int) == Parsed::Done(Value::Fields(seq![f2.value(), f3.value(), f4.value(), f5.value(), f6.value()]), p7 as int));
            assert(seq![f1.value()] + seq![f2.value(), f3.value(), f4.value(), f5.value(), f6.value()] =~= seq![f1.value(), f2.value(), f3.value(), f4.value(), f5.value(), f6.value()]);
            assert(parse_fields(fs, 1, s, p1 as int) == Parsed::Done(Value::Fields(seq![f1.value(), f2.value(), f3.value(), f4.value(), f5.value(), f6.value()]), p7 as int));
            assert(seq![f0.value()] + seq![f1.value(), f2.value(), f3.value(), f4.value(), f5.value(), f6.value()] =~= seq![f0.value(), f1.value(), f2.value(), f3.value(), f4.value(), f5.value(), f6.value()]);
            assert(parse_fields(fs, 0, s, p0 as int) == Parsed::Done(Value::Fields(seq![f0.value(), f1.value(), f2.value(), f3.value(), f4.value(), f5.value(), f6.value()]), p7 as int));
        }
        Ok((Filters { resource_type: f0, resource_name: f1, resource_pattern_type_filter: f2, principal: f3, host: f4, operation: f5, permission_type: f6 }, p7))
    }
}

impl<'i> Encode for Filters<'i> {
    open spec fn encode_schema() -> Schema {
        Schema::Struct(Self::encoded_fields())
    }

    fn encode_len(&self) -> (n: usize) {
        proof { self.lemma_encoding(); }
        self.resource_type.encode_len() + self.resource_name.encode_len() + self.resource_pattern_type_filter.encode_len() + self.principal.encode_len() + self.host.encode_len() + self.operation.encode_len() + self.permission_type.encode_len()
    }

    #[verifier::spinoff_prover]
    fn encodable(&self) -> (b: bool) {
        let b = self.resource_type.encodable() && self.resource_name.encodable() && self.resource_pattern_type_filter.encodable() && self.principal.encodable() && self.host.encodable() && self.operation.encodable() && self.permission_type.encodable();
        proof {
            self.lemma_encoding();
            let fs = Self::encoded_fields();
            let vs = seq![self.resource_type.value(), self.resource_name.value(), self.resource_pattern_type_filter.value(), self.principal.value(), self.host.value(), self.operation.value(), self.permission_type.value()];
            assert(self.value() == Value::Fields(vs));
            if b {
                assert forall|k: int| 0 <= k < vs.len() implies wf_value(fs[k], #[trigger] vs[k]) by {
                    if k == 0 {} else if k == 1 {} else if k == 2 {} else if k == 3 {} else if k == 4 {} else if k == 5 {} else if k == 6 {}
                }
            }
        }
        b
    }

    fn encode(&self, writer: &mut Vec<u8>) {
        proof { self.lemma_encoding(); }
        self.resource_type.encode(writer);
        self.resource_name.encode(writer);
        self.resource_pattern_type_filter.encode(writer);
        self.principal.encode(writer);
        self.host.encode(writer);
        self.operation.encode(writer);
        self.permission_type.encode(writer);
        assert(writer@ =~= old(writer)@ + encode_value(Self::encode_schema(), self.value()));
    }
}

#[derive(Clone, Debug, PartialEq)]
pub struct DeleteAclsRequest<'i> {
    pub filters: Vec<Filters<'i>>,
}

impl<'i> Wire for DeleteAclsRequest<'i> {
    open spec fn value(&self) -> Value {
        Value::Fields(seq![self.filters.value()])
    }
}

impl<'i> DeleteAclsRequest<'i> {
    /// The wire format, field by field.
    pub open spec fn fields() -> Seq<Schema> {
        seq![Schema::Array(Box::new(Filters::<'i>::schema()))]
    }

    pub open spec fn schema() -> Schema {
        Schema::Struct(Self::fields())
    }

    /// The schemas with which the fields are written.
    pub open spec fn encoded_fields() -> Seq<Schema> {
        seq![<Vec<Filters<'i>> as Encode>::encode_schema()]
    }

    /// The encoding of the whole is the encodings of the fields in order.
    pub proof fn lemma_encoding(&self)
        ensures
            encode_value(<Self as Encode>::encode_schema(), self.value()) == encode_value(<Vec<Filters<'i>> as Encode>::encode_schema(), self.filters.value()),
            reported_len(<Self as Encode>::encode_schema(), self.value()) == reported_len(<Vec<Filters<'i>> as Encode>::encode_schema(), self.filters.value()),
            wf_value(<Self as Encode>::encode_schema(), self.value()) ==> wf_value(<Vec<Filters<'i>> as Encode>::encode_schema(), self.filters.value()),
    {
        let fs = Self::encoded_fields();
        let vs = seq![self.filters.value()];
        assert(self.value() == Value::Fields(vs));
        assert(encode_fields(fs, 1, vs) == Seq::<u8>::empty());
        assert(encode_fields(fs, 0, vs) == encode_value(fs[0], vs[0]) + encode_fields(fs, 1, vs));
        assert(encode_fields(fs, 0, vs) =~= encode_value(fs[0], vs[0]));
        assert(reported_fields(fs, 1, vs) == 0);
        assert(reported_fields(fs, 0, vs) == reported_len(fs[0], vs[0]) + reported_fields(fs, 1, vs));
        if wf_value(<Self as Encode>::encode_schema(), self.value()) {
            assert(wf_value(fs[0], vs[0]));
        }
    }

    /// The type reads as it writes, and counts all of its lists.
    pub proof fn lemma_wire_format()
        ensures
            Self::schema() == <Self as Encode>::encode_schema(),
            framed(Self::schema()),
    {
        Filters::<'i>::lemma_wire_format();
        assert(Self::fields() =~= Self::encoded_fields());
        assert forall|k: int| 0 <= k < Self::fields().len() implies framed(#[trigger] Self::fields()[k]) by {
            reveal_with_fuel(framed, 3);
            if k == 0 {}
        }
    }
}

impl<'i> Decode<'i> for DeleteAclsRequest<'i> {
    open spec fn parse_schema() -> Schema {
        Self::schema()
    }

    fn parse_at(input: &'i [u8], pos: usize) -> (r: Result<(Self, usize), bool>) {
        let ghost s = input@;
        let ghost fs = Self::fields();
        let p0 = pos;
        let (f0, p1): (Vec<Filters<'i>>, usize) = match array::<Filters<'i>>(input, p0) {
            Ok(x) => x,
            Err(c) => {
                proof {
                    assert(parse_fields(fs, 0, s, p0 as int) == Parsed::Failed(c));
                }
                return Err(c);
            },
        };
        proof {
            assert(parse_fields(fs, 1, s, p1 as int) == Parsed::Done(Value::Fields(Seq::empty()), p1 as int));
            assert(seq![f0.value()] + Seq::<Value>::empty() =~= seq![f0.value()]);
            assert(parse_fields(fs, 0, s, p0 as int) == Parsed::Done(Value::Fields(seq![f0.value()]), p1 as int));
        }
        Ok((DeleteAclsRequest { filters: f0 }, p1))
    }
}

impl<'i> Encode for DeleteAclsRequest<'i> {
    open spec fn encode_schema() -> Schema {
        Schema::Struct(Self::encoded_fields())
    }

    fn encode_len(&self) -> (n: usize) {
        proof { self.lemma_encoding(); }
        self.filters.encode_len()
    }

    fn encodable(&self) -> (b: bool) {
        let b = self.filters.encodable();
        proof {
            self.lemma_encoding();
            let fs = Self::encoded_fields();
            let vs = seq![self.filters.value()];
            assert(self.value() == Value::Fields(vs));
            if b {
                assert forall|k: int| 0 <= k < vs.len() implies wf_value(fs[k], #[trigger] vs[k]) by {
                    if k == 0 {}
                }
            }
        }
        b
    }

    fn encode(&self, writer: &mut Vec<u8>) {
        proof { self.lemma_encoding(); }
        self.filters.encode(writer);
        assert(writer@ =~= old(writer)@ + encode_value(Self::encode_schema(), self.value()));
    }
}

} // verus!
