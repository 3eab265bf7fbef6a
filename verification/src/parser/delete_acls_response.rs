//! The Delete Acls Response message.
use vstd::prelude::*;
use crate::wire::{Parsed, Schema, Value, encode_fields, encode_value, framed, parse_fields, parse_value, reported_fields, reported_len, wf_value};
use crate::codec::{Decode, Encode, Wire, agrees, be_i16, be_i32, be_i8, many, nullable_string, parse_prefix, parsed_prefix, string};

verus! {

/// Parses a `DeleteAclsResponse` at the start of `input`; gives it with the input that
/// follows it, or `None` when the input does not start with one.
pub fn delete_acls_response<'i>(input: &'i [u8]) -> (r: Option<(DeleteAclsResponse<'i>, &'i [u8])>)
    ensures
        parsed_prefix(r, DeleteAclsResponse::<'i>::schema(), input@),
{
    parse_prefix(input)
}

#[derive(Clone, Debug, PartialEq)]
pub struct MatchingAcls<'i> {
    pub error_code: i16,
    pub error_message: Option<&'i str>,
    pub resource_type: i8,
    pub resource_name: &'i str,
    pub resource_pattern_type: i8,
    pub principal: &'i str,
    pub host: &'i str,
    pub operation: i8,
    pub permission_type: i8,
}

impl<'i> Wire for MatchingAcls<'i> {
    open spec fn value(&self) -> Value {
        Value::Fields(seq![self.error_code.value(), self.error_message.value(), self.resource_type.value(), self.resource_name.value(), self.resource_pattern_type.value(), self.principal.value(), self.host.value(), self.operation.value(), self.permission_type.value()])
    }
}

impl<'i> MatchingAcls<'i> {
    /// The wire format, field by field.
    pub open spec fn fields() -> Seq<Schema> {
        seq![Schema::I16, Schema::NullableStr, Schema::I8, Schema::Str, Schema::I8, Schema::Str, Schema::Str, Schema::I8, Schema::I8]
    }

    pub open spec fn schema() -> Schema {
        Schema::Struct(Self::fields())
    }

    /// The schemas with which the fields are written.
    pub open spec fn encoded_fields() -> Seq<Schema> {
        seq![<i16 as Encode>::encode_schema(), <Option<&'i str> as Encode>::encode_schema(), <i8 as Encode>::encode_schema(), <&'i str as Encode>::encode_schema(), <i8 as Encode>::encode_schema(), <&'i str as Encode>::encode_schema(), <&'i str as Encode>::encode_schema(), <i8 as Encode>::encode_schema(), <i8 as Encode>::encode_schema()]
    }

    /// The encoding of the whole is the encodings of the fields in order.
    pub proof fn lemma_encoding(&self)
        ensures
            encode_value(<Self as Encode>::encode_schema(), self.value()) == encode_value(<i16 as Encode>::encode_schema(), self.error_code.value()) + encode_value(<Option<&'i str> as Encode>::encode_schema(), self.error_message.value()) + encode_value(<i8 as Encode>::encode_schema(), self.resource_type.value()) + encode_value(<&'i str as Encode>::encode_schema(), self.resource_name.value()) + encode_value(<i8 as Encode>::encode_schema(), self.resource_pattern_type.value()) + encode_value(<&'i str as Encode>::encode_schema(), self.principal.value()) + encode_value(<&'i str as Encode>::encode_schema(), self.host.value()) + encode_value(<i8 as Encode>::encode_schema(), self.operation.value()) + encode_value(<i8 as Encode>::encode_schema(), self.permission_type.value()),
            reported_len(<Self as Encode>::encode_schema(), self.value()) == reported_len(<i16 as Encode>::encode_schema(), self.error_code.value()) + reported_len(<Option<&'i str> as Encode>::encode_schema(), self.error_message.value()) + reported_len(<i8 as Encode>::encode_schema(), self.resource_type.value()) + reported_len(<&'i str as Encode>::encode_schema(), self.resource_name.value()) + reported_len(<i8 as Encode>::encode_schema(), self.resource_pattern_type.value()) + reported_len(<&'i str as Encode>::encode_schema(), self.principal.value()) + reported_len(<&'i str as Encode>::encode_schema(), self.host.value()) + reported_len(<i8 as Encode>::encode_schema(), self.operation.value()) + reported_len(<i8 as Encode>::encode_schema(), self.permission_type.value()),
            wf_value(<Self as Encode>::encode_schema(), self.value()) ==> wf_value(<i16 as Encode>::encode_schema(), self.error_code.value()),
            wf_value(<Self as Encode>::encode_schema(), self.value()) ==> wf_value(<Option<&'i str> as Encode>::encode_schema(), self.error_message.value()),
            wf_value(<Self as Encode>::encode_schema(), self.value()) ==> wf_value(<i8 as Encode>::encode_schema(), self.resource_type.value()),
            wf_value(<Self as Encode>::encode_schema(), self.value()) ==> wf_value(<&'i str as Encode>::encode_schema(), self.resource_name.value()),
            wf_value(<Self as Encode>::encode_schema(), self.value()) ==> wf_value(<i8 as Encode>::encode_schema(), self.resource_pattern_type.value()),
            wf_value(<Self as Encode>::encode_schema(), self.value()) ==> wf_value(<&'i str as Encode>::encode_schema(), self.principal.value()),
            wf_value(<Self as Encode>::encode_schema(), self.value()) ==> wf_value(<&'i str as Encode>::encode_schema(), self.host.value()),
            wf_value(<Self as Encode>::encode_schema(), self.value()) ==> wf_value(<i8 as Encode>::encode_schema(), self.operation.value()),
            wf_value(<Self as Encode>::encode_schema(), self.value()) ==> wf_value(<i8 as Encode>::encode_schema(), self.permission_type.value()),
    {
        let fs = Self::encoded_fields();
        let vs = seq![self.error_code.value(), self.error_message.value(), self.resource_type.value(), self.resource_name.value(), self.resource_pattern_type.value(), self.principal.value(), self.host.value(), self.operation.value(), self.permission_type.value()];
        assert(self.value() == Value::Fields(vs));
        assert(encode_fields(fs, 9, vs) == Seq::<u8>::empty());
        assert(encode_fields(fs, 8, vs) == encode_value(fs[8], vs[8]) + encode_fields(fs, 9, vs));
        assert(encode_fields(fs, 7, vs) == encode_value(fs[7], vs[7]) + encode_fields(fs, 8, vs));
        assert(encode_fields(fs, 6, vs) == encode_value(fs[6], vs[6]) + encode_fields(fs, 7, vs));
        assert(encode_fields(fs, 5, vs) == encode_value(fs[5], vs[5]) + encode_fields(fs, 6, vs));
        assert(encode_fields(fs, 4, vs) == encode_value(fs[4], vs[4]) + encode_fields(fs, 5, vs));
        assert(encode_fields(fs, 3, vs) == encode_value(fs[3], vs[3]) + encode_fields(fs, 4, vs));
        assert(encode_fields(fs, 2, vs) == encode_value(fs[2], vs[2]) + encode_fields(fs, 3, vs));
        assert(encode_fields(fs, 1, vs) == encode_value(fs[1], vs[1]) + encode_fields(fs, 2, vs));
        assert(encode_fields(fs, 0, vs) == encode_value(fs[0], vs[0]) + encode_fields(fs, 1, vs));
        assert(encode_fields(fs, 0, vs) =~= encode_value(fs[0], vs[0]) + encode_value(fs[1], vs[1]) + encode_value(fs[2], vs[2]) + encode_value(fs[3], vs[3]) + encode_value(fs[4], vs[4]) + encode_value(fs[5], vs[5]) + encode_value(fs[6], vs[6]) + encode_value(fs[7], vs[7]) + encode_value(fs[8], vs[8]));
        assert(reported_fields(fs, 9, vs) == 0);
        assert(reported_fields(fs, 8, vs) == reported_len(fs[8], vs[8]) + reported_fields(fs, 9, vs));
        assert(reported_fields(fs, 7, vs) == reported_len(fs[7], vs[7]) + reported_fields(fs, 8, vs));
        assert(reported_fields(fs, 6, vs) == reported_len(fs[6], vs[6]) + reported_fields(fs, 7, vs));
        assert(reported_fields(fs, 5, vs) == reported_len(fs[5], vs[5]) + reported_fields(fs, 6, vs));
        assert(reported_fields(fs, 4, vs) == reported_len(fs[4], vs[4]) + reported_fields(fs, 5, vs));
        assert(reported_fields(fs, 3, vs) == reported_len(fs[3], vs[3]) + reported_fields(fs, 4, vs));
        assert(reported_fields(fs, 2, vs) == reported_len(fs[2], vs[2]) + reported_fields(fs, 3, vs));
        assert(reported_fields(fs, 1, vs) == reported_len(fs[1], vs[1]) + reported_fields(fs, 2, vs));
        assert(reported_fields(fs, 0, vs) == reported_len(fs[0], vs[0]) + reported_fields(fs, 1, vs));
        if wf_value(<Self as Encode>::encode_schema(), self.value()) {
            assert(wf_value(fs[0], vs[0]));
            assert(wf_value(fs[1], vs[1]));
            assert(wf_value(fs[2], vs[2]));
            assert(wf_value(fs[3], vs[3]));
            assert(wf_value(fs[4], vs[4]));
            assert(wf_value(fs[5], vs[5]));
            assert(wf_value(fs[6], vs[6]));
            assert(wf_value(fs[7], vs[7]));
            assert(wf_value(fs[8], vs[8]));
        }
    }

    /// The type reads as it writes, and counts all of its lists.
    pub proof fn lemma_wire_format()
        ensures
            Self::schema() == <Self as Encode>::encode_schema(),
            framed(Self::schema()),
    {
        assert(Self::fields() =~= Self::encoded_fields());
        assert forall|k: int| 0 <= k < Self::fields().len() implies framed(#[trigger] Self::fields()[k]) by {
            reveal_with_fuel(framed, 3);
            if k == 0 {} else if k == 1 {} else if k == 2 {} else if k == 3 {} else if k == 4 {} else if k == 5 {} else if k == 6 {} else if k == 7 {} else if k == 8 {}
        }
    }
}

impl<'i> Decode<'i> for MatchingAcls<'i> {
    open spec fn parse_schema() -> Schema {
        Self::schema()
    }

    #[verifier::spinoff_prover]
    #[verifier::rlimit(100)]
    fn parse_at(input: &'i [u8], pos: usize) -> (r: Result<(Self, usize), bool>) {
        let ghost s = input@;
        let ghost fs = Self::fields();
        let p0 = pos;
        let (f0, p1): (i16, usize) = match be_i16(input, p0) {
            Ok(x) => x,
            Err(c) => {
                proof {
                    assert(parse_fields(fs, 0, s, p0 as int) == Parsed::Failed(c));
                }
                return Err(c);
            },
        };
        let (f1, p2): (Option<&'i str>, usize) = match nullable_string(input, p1) {
            Ok(x) => x,
            Err(c) => {
                proof {
                    assert(parse_fields(fs, 1, s, p1 as int) == Parsed::Failed(c));
                    assert(parse_fields(fs, 0, s, p0 as int) == Parsed::Failed(c || p1 > p0));
                }
                return Err(c || p1 > p0);
            },
        };
        let (f2, p3): (i8, usize) = match be_i8(input, p2) {
            Ok(x) => x,
            Err(c) => {
                proof {
                    assert(parse_fields(fs, 2, s, p2 as int) == Parsed::Failed(c));
                    assert(parse_fields(fs, 1, s, p1 as int) == Parsed::Failed(c || p2 > p1));
                    assert(parse_fields(fs, 0, s, p0 as int) == Parsed::Failed(c || p2 > p0));
                }
                return Err(c || p2 > p0);
            },
        };
        let (f3, p4): (&'i str, usize) = match string(input, p3) {
            Ok(x) => x,
            Err(c) => {
                proof {
                    assert(parse_fields(fs, 3, s, p3 as int) == Parsed::Failed(c));
                    assert(parse_fields(fs, 2, s, p2 as int) == Parsed::Failed(c || p3 > p2));
                    assert(parse_fields(fs, 1, s, p1 as int) == Parsed::Failed(c || p3 > p1));
                    assert(parse_fields(fs, 0, s, p0 as int) == Parsed::Failed(c || p3 > p0));
                }
                return Err(c || p3 > p0);
            },
        };
        let (f4, p5): (i8, usize) = match be_i8(input, p4) {
            Ok(x) => x,
            Err(c) => {
                proof {
                    assert(parse_fields(fs, 4, s, p4 as int) == Parsed::Failed(c));
                    assert(parse_fields(fs, 3, s, p3 as int) == Parsed::Failed(c || p4 > p3));
                    assert(parse_fields(fs, 2, s, p2 as int) == Parsed::Failed(c || p4 > p2));
                    assert(parse_fields(fs, 1, s, p1 as int) == Parsed::Failed(c || p4 > p1));
                    assert(parse_fields(fs, 0, s, p0 as int) == Parsed::Failed(c || p4 > p0));
                }
                return Err(c || p4 > p0);
            },
        };
        let (f5, p6): (&'i str, usize) = match string(input, p5) {
            Ok(x) => x,
            Err(c) => {
                proof {
                    assert(parse_fields(fs, 5, s, p5 as int) == Parsed::Failed(c));
                    assert(parse_fields(fs, 4, s, p4 as int) == Parsed::Failed(c || p5 > p4));
                    assert(parse_fields(fs, 3, s, p3 as int) == Parsed::Failed(c || p5 > p3));
                    assert(parse_fields(fs, 2, s, p2 as int) == Parsed::Failed(c || p5 > p2));
                    assert(parse_fields(fs, 1, s, p1 as int) == Parsed::Failed(c || p5 > p1));
                    assert(parse_fields(fs, 0, s, p0 as int) == Parsed::Failed(c || p5 > p0));
                }
                return Err(c || p5 > p0);
            },
        };
        let (f6, p7): (&'i str, usize) = match string(input, p6) {
            Ok(x) => x,
            Err(c) => {
                proof {
                    assert(parse_fields(fs, 6, s, p6 as int) == Parsed::Failed(c));
                    assert(parse_fields(fs, 5, s, p5 as int) == Parsed::Failed(c || p6 > p5));
                    assert(parse_fields(fs, 4, s, p4 as int) == Parsed::Failed(c || p6 > p4));
                    assert(parse_fields(fs, 3, s, p3 as int) == Parsed::Failed(c || p6 > p3));
                    assert(parse_fields(fs, 2, s, p2 as int) == Parsed::Failed(c || p6 > p2));
                    assert(parse_fields(fs, 1, s, p1 as int) == Parsed::Failed(c || p6 > p1));
                    assert(parse_fields(fs, 0, s, p0 as int) == Parsed::Failed(c || p6 > p0));
                }
                return Err(c || p6 > p0);
            },
        };
        let (f7, p8): (i8, usize) = match be_i8(input, p7) {
            Ok(x) => x,
            Err(c) => {
                proof {
                    assert(parse_fields(fs, 7, s, p7 as int) == Parsed::Failed(c));
                    assert(parse_fields(fs, 6, s, p6 as int) == Parsed::Failed(c || p7 > p6));
                    assert(parse_fields(fs, 5, s, p5 as int) == Parsed::Failed(c || p7 > p5));
                    assert(parse_fields(fs, 4, s, p4 as int) == Parsed::Failed(c || p7 > p4));
                    assert(parse_fields(fs, 3, s, p3 as int) == Parsed::Failed(c || p7 > p3));
                    assert(parse_fields(fs, 2, s, p2 as int) == Parsed::Failed(c || p7 > p2));
                    assert(parse_fields(fs, 1, s, p1 as int) == Parsed::Failed(c || p7 > p1));
                    assert(parse_fields(fs, 0, s, p0 as int) == Parsed::Failed(c || p7 > p0));
                }
                return Err(c || p7 > p0);
            },
        };
        let (f8, p9): (i8, usize) = match be_i8(input, p8) {
            Ok(x) => x,
            Err(c) => {
                proof {
                    assert(parse_fields(fs, 8, s, p8 as int) == Parsed::Failed(c));
                    assert(parse_fields(fs, 7, s, p7 as int) == Parsed::Failed(c || p8 > p7));
                    assert(parse_fields(fs, 6, s, p6 as int) == Parsed::Failed(c || p8 > p6));
                    assert(parse_fields(fs, 5, s, p5 as int) == Parsed::Failed(c || p8 > p5));
                    assert(parse_fields(fs, 4, s, p4 as int) == Parsed::Failed(c || p8 > p4));
                    assert(parse_fields(fs, 3, s, p3 as int) == Parsed::Failed(c || p8 > p3));
                    assert(parse_fields(fs, 2, s, p2 as int) == Parsed::Failed(c || p8 > p2));
                    assert(parse_fields(fs, 1, s, p1 as int) == Parsed::Failed(c || p8 > p1));
                    assert(parse_fields(fs, 0, s, p0 as int) == Parsed::Failed(c || p8 > p0));
                }
                return Err(c || p8 > p0);
            },
        };
        proof {
            assert(parse_fields(fs, 9, s, p9 as int) == Parsed::Done(Value::Fields(Seq::empty()), p9 as int));
            assert(seq![f8.value()] + Seq::<Value>::empty() =~= seq![f8.value()]);
            assert(parse_fields(fs, 8, s, p8 as int) == Parsed::Done(Value::Fields(seq![f8.value()]), p9 as int));
            assert(seq![f7.value()] + seq![f8.value()] =~= seq![f7.value(), f8.value()]);
            assert(parse_fields(fs, 7, s, p7 as int) == Parsed::Done(Value::Fields(seq![f7.value(), f8.value()]), p9 as int));
            assert(seq![f6.value()] + seq![f7.value(), f8.value()] =~= seq![f6.value(), f7.value(), f8.value()]);
            assert(parse_fields(fs, 6, s, p6 as int) == Parsed::Done(Value::Fields(seq![f6.value(), f7.value(), f8.value()]), p9 as int));
            assert(seq![f5.value()] + seq![f6.value(), f7.value(), f8.value()] =~= seq![f5.value(), f6.value(), f7.value(), f8.value()]);
            assert(parse_fields(fs, 5, s, p5 as int) == Parsed::Done(Value::Fields(seq![f5.value(), f6.value(), f7.value(), f8.value()]), p9 as int));
            assert(seq![f4.value()] + seq![f5.value(), f6.value(), f7.value(), f8.value()] =~= seq![f4.value(), f5.value(), f6.value(), f7.value(), f8.value()]);
            assert(parse_fields(fs, 4, s, p4 as int) == Parsed::Done(Value::Fields(seq![f4.value(), f5.value(), f6.value(), f7.value(), f8.value()]), p9 as int));
            assert(seq![f3.value()] + seq![f4.value(), f5.value(), f6.value(), f7.value(), f8.value()] =~= seq![f3.value(), f4.value(), f5.value(), f6.value(), f7.value(), f8.value()]);
            assert(parse_fields(fs, 3, s, p3 as int) == Parsed::Done(Value::Fields(seq![f3.value(), f4.value(), f5.value(), f6.value(), f7.value(), f8.value()]), p9 as int));
            assert(seq![f2.value()] + seq![f3.value(), f4.value(), f5.value(), f6.value(), f7.value(), f8.value()] =~= seq![f2.value(), f3.value(), f4.value(), f5.value(), f6.value(), f7.value(), f8.value()]);
            assert(parse_fields(fs, 2, s, p2 as int) == Parsed::Done(Value::Fields(seq![f2.value(), f3.value(), f4.value(), f5.value(), f6.value(), f7.value(), f8.value()]), p9 as int));
            assert(seq![f1.value()] + seq![f2.value(), f3.value(), f4.value(), f5.value(), f6.value(), f7.value(), f8.value()] =~= seq![f1.value(), f2.value(), f3.value(), f4.value(), f5.value(), f6.value(), f7.value(), f8.value()]);
            assert(parse_fields(fs, 1, s, p1 as int) == Parsed::Done(Value::Fields(seq![f1.value(), f2.value(), f3.value(), f4.value(), f5.value(), f6.value(), f7.value(), f8.value()]), p9 as int));
            assert(seq![f0.value()] + seq![f1.value(), f2.value(), f3.value(), f4.value(), f5.value(), f6.value(), f7.value(), f8.value()] =~= seq![f0.value(), f1.value(), f2.value(), f3.value(), f4.value(), f5.value(), f6.value(), f7.value(), f8.value()]);
            assert(parse_fields(fs, 0, s, p0 as int) == Parsed::Done(Value::Fields(seq![f0.value(), f1.value(), f2.value(), f3.value(), f4.value(), f5.value(), f6.value(), f7.value(), f8.value()]), p9 as int));
        }
        Ok((MatchingAcls { error_code: f0, error_message: f1, resource_type: f2, resource_name: f3, resource_pattern_type: f4, principal: f5, host: f6, operation: f7, permission_type: f8 }, p9))
    }
}

impl<'i> Encode for MatchingAcls<'i> {
    open spec fn encode_schema() -> Schema {
        Schema::Struct(Self::encoded_fields())
    }

    fn encode_len(&self) -> (n: usize) {
        proof { self.lemma_encoding(); }
        self.error_code.encode_len() + self.error_message.encode_len() + self.resource_type.encode_len() + self.resource_name.encode_len() + self.resource_pattern_type.encode_len() + self.principal.encode_len() + self.host.encode_len() + self.operation.encode_len() + self.permission_type.encode_len()
    }

    #[verifier::spinoff_prover]
    fn encodable(&self) -> (b: bool) {
        let b = self.error_code.encodable() && self.error_message.encodable() && self.resource_type.encodable() && self.resource_name.encodable() && self.resource_pattern_type.encodable() && self.principal.encodable() && self.host.encodable() && self.operation.encodable() && self.permission_type.encodable();
        proof {
            self.lemma_encoding();
            let fs = Self::encoded_fields();
            let vs = seq![self.error_code.value(), self.error_message.value(), self.resource_type.value(), self.resource_name.value(), self.resource_pattern_type.value(), self.principal.value(), self.host.value(), self.operation.value(), self.permission_type.value()];
            assert(self.value() == Value::Fields(vs));
            if b {
                assert forall|k: int| 0 <= k < vs.len() implies wf_value(fs[k], #[trigger] vs[k]) by {
                    if k == 0 {} else if k == 1 {} else if k == 2 {} else if k == 3 {} else if k == 4 {} else if k == 5 {} else if k == 6 {} else if k == 7 {} else if k == 8 {}
                }
            }
        }
        b
    }

    fn encode(&self, writer: &mut Vec<u8>) {
        proof { self.lemma_encoding(); }
        self.error_code.encode(writer);
        self.error_message.encode(writer);
        self.resource_type.encode(writer);
        self.resource_name.encode(writer);
        self.resource_pattern_type.encode(writer);
        self.principal.encode(writer);
        self.host.encode(writer);
        self.operation.encode(writer);
        self.permission_type.encode(writer);
        assert(writer@ =~= old(writer)@ + encode_value(Self::encode_schema(), self.value()));
    }
}

#[derive(Clone, Debug, PartialEq)]
pub struct FilterResponses<'i> {
    pub error_code: i16,
    pub error_message: Option<&'i str>,
    pub matching_acls: Vec<MatchingAcls<'i>>,
}

impl<'i> Wire for FilterResponses<'i> {
    open spec fn value(&self) -> Value {
        Value::Fields(seq![self.error_code.value(), self.error_message.value(), self.matching_acls.value()])
    }
}

impl<'i> FilterResponses<'i> {
    /// The wire format, field by field.
    pub open spec fn fields() -> Seq<Schema> {
        seq![Schema::I16, Schema::NullableStr, Schema::Many(Box::new(MatchingAcls::<'i>::schema()))]
    }

    pub open spec fn schema() -> Schema {
        Schema::Struct(Self::fields())
    }

    /// The schemas with which the fields are written.
    pub open spec fn encoded_fields() -> Seq<Schema> {
        seq![<i16 as Encode>::encode_schema(), <Option<&'i str> as Encode>::encode_schema(), <Vec<MatchingAcls<'i>> as Encode>::encode_schema()]
    }

    /// The encoding of the whole is the encodings of the fields in order.
    pub proof fn lemma_encoding(&self)
        ensures
            encode_value(<Self as Encode>::encode_schema(), self.value()) == encode_value(<i16 as Encode>::encode_schema(), self.error_code.value()) + encode_value(<Option<&'i str> as Encode>::encode_schema(), self.error_message.value()) + encode_value(<Vec<MatchingAcls<'i>> as Encode>::encode_schema(), self.matching_acls.value()),
            reported_len(<Self as Encode>::encode_schema(), self.value()) == reported_len(<i16 as Encode>::encode_schema(), self.error_code.value()) + reported_len(<Option<&'i str> as Encode>::encode_schema(), self.error_message.value()) + reported_len(<Vec<MatchingAcls<'i>> as Encode>::encode_schema(), self.matching_acls.value()),
            wf_value(<Self as Encode>::encode_schema(), self.value()) ==> wf_value(<i16 as Encode>::encode_schema(), self.error_code.value()),
            wf_value(<Self as Encode>::encode_schema(), self.value()) ==> wf_value(<Option<&'i str> as Encode>::encode_schema(), self.error_message.value()),
            wf_value(<Self as Encode>::encode_schema(), self.value()) ==> wf_value(<Vec<MatchingAcls<'i>> as Encode>::encode_schema(), self.matching_acls.value()),
    {
        let fs = Self::encoded_fields();
        let vs = seq![self.error_code.value(), self.error_message.value(), self.matching_acls.value()];
        assert(self.value() == Value::Fields(vs));
        assert(encode_fields(fs, 3, vs) == Seq::<u8>::empty());
        assert(encode_fields(fs, 2, vs) == encode_value(fs[2], vs[2]) + encode_fields(fs, 3, vs));
        assert(encode_fields(fs, 1, vs) == encode_value(fs[1], vs[1]) + encode_fields(fs, 2, vs));
        assert(encode_fields(fs, 0, vs) == encode_value(fs[0], vs[0]) + encode_fields(fs, 1, vs));
        assert(encode_fields(fs, 0, vs) =~= encode_value(fs[0], vs[0]) + encode_value(fs[1], vs[1]) + encode_value(fs[2], vs[2]));
        assert(reported_fields(fs, 3, vs) == 0);
        assert(reported_fields(fs, 2, vs) == reported_len(fs[2], vs[2]) + reported_fields(fs, 3, vs));
        assert(reported_fields(fs, 1, vs) == reported_len(fs[1], vs[1]) + reported_fields(fs, 2, vs));
        assert(reported_fields(fs, 0, vs) == reported_len(fs[0], vs[0]) + reported_fields(fs, 1, vs));
        if wf_value(<Self as Encode>::encode_schema(), self.value()) {
            assert(wf_value(fs[0], vs[0]));
            assert(wf_value(fs[1], vs[1]));
            assert(wf_value(fs[2], vs[2]));
        }
    }
}

impl<'i> Decode<'i> for FilterResponses<'i> {
    open spec fn parse_schema() -> Schema {
        Self::schema()
    }

    #[verifier::spinoff_prover]
    #[verifier::rlimit(60)]
    fn parse_at(input: &'i [u8], pos: usize) -> (r: Result<(Self, usize), bool>) {
        let ghost s = input@;
        let ghost fs = Self::fields();
        let p0 = pos;
        let (f0, p1): (i16, usize) = match be_i16(input, p0) {
            Ok(x) => x,
            Err(c) => {
                proof {
                    assert(parse_fields(fs, 0, s, p0 as int) == Parsed::Failed(c));
                }
                return Err(c);
            },
        };
        let (f1, p2): (Option<&'i str>, usize) = match nullable_string(input, p1) {
            Ok(x) => x,
            Err(c) => {
                proof {
                    assert(parse_fields(fs, 1, s, p1 as int) == Parsed::Failed(c));
                    assert(parse_fields(fs, 0, s, p0 as int) == Parsed::Failed(c || p1 > p0));
                }
                return Err(c || p1 > p0);
            },
        };
        let (f2, p3): (Vec<MatchingAcls<'i>>, usize) = match many::<MatchingAcls<'i>>(input, p2) {
            Ok(x) => x,
            Err(c) => {
                proof {
                    assert(parse_fields(fs, 2, s, p2 as int) == Parsed::Failed(c));
                    assert(parse_fields(fs, 1, s, p1 as int) == Parsed::Failed(c || p2 > p1));
                    assert(parse_fields(fs, 0, s, p0 as int) == Parsed::Failed(c || p2 > p0));
                }
                return Err(c || p2 > p0);
            },
        };
        proof {
            assert(parse_fields(fs, 3, s, p3 as int) == Parsed::Done(Value::Fields(Seq::empty()), p3 as int));
            assert(seq![f2.value()] + Seq::<Value>::empty() =~= seq![f2.value()]);
            assert(parse_fields(fs, 2, s, p2 as int) == Parsed::Done(Value::Fields(seq![f2.value()]), p3 as int));
            assert(seq![f1.value()] + seq![f2.value()] =~= seq![f1.value(), f2.value()]);
            assert(parse_fields(fs, 1, s, p1 as int) == Parsed::Done(Value::Fields(seq![f1.value(), f2.value()]), p3 as int));
            assert(seq![f0.value()] + seq![f1.value(), f2.value()] =~= seq![f0.value(), f1.value(), f2.value()]);
            assert(parse_fields(fs, 0, s, p0 as int) == Parsed::Done(Value::Fields(seq![f0.value(), f1.value(), f2.value()]), p3 as int));
        }
        Ok((FilterResponses { error_code: f0, error_message: f1, matching_acls: f2 }, p3))
    }
}

impl<'i> Encode for FilterResponses<'i> {
    open spec fn encode_schema() -> Schema {
        Schema::Struct(Self::encoded_fields())
    }

    fn encode_len(&self) -> (n: usize) {
        proof { self.lemma_encoding(); }
        self.error_code.encode_len() + self.error_message.encode_len() + self.matching_acls.encode_len()
    }

    #[verifier::spinoff_prover]
    fn encodable(&self) -> (b: bool) {
        let b = self.error_code.encodable() && self.error_message.encodable() && self.matching_acls.encodable();
        proof {
            self.lemma_encoding();
            let fs = Self::encoded_fields();
            let vs = seq![self.error_code.value(), self.error_message.value(), self.matching_acls.value()];
            assert(self.value() == Value::Fields(vs));
            if b {
                assert forall|k: int| 0 <= k < vs.len() implies wf_value(fs[k], #[trigger] vs[k]) by {
                    if k == 0 {} else if k == 1 {} else if k == 2 {}
                }
            }
        }
        b
    }

    fn encode(&self, writer: &mut Vec<u8>) {
        proof { self.lemma_encoding(); }
        self.error_code.encode(writer);
        self.error_message.encode(writer);
        self.matching_acls.encode(writer);
        assert(writer@ =~= old(writer)@ + encode_value(Self::encode_schema(), self.value()));
    }
}

#[derive(Clone, Debug, PartialEq)]
pub struct DeleteAclsResponse<'i> {
    pub throttle_time_ms: i32,
    pub filter_responses: Vec<FilterResponses<'i>>,
}

impl<'i> Wire for DeleteAclsResponse<'i> {
    open spec fn value(&self) -> Value {
        Value::Fields(seq![self.throttle_time_ms.value(), self.filter_responses.value()])
    }
}

impl<'i> DeleteAclsResponse<'i> {
    /// The wire format, field by field.
    pub open spec fn fields() -> Seq<Schema> {
        seq![Schema::I32, Schema::Many(Box::new(FilterResponses::<'i>::schema()))]
    }

    pub open spec fn schema() -> Schema {
        Schema::Struct(Self::fields())
    }

    /// The schemas with which the fields are written.
    pub open spec fn encoded_fields() -> Seq<Schema> {
        seq![<i32 as Encode>::encode_schema(), <Vec<FilterResponses<'i>> as Encode>::encode_schema()]
    }

    /// The encoding of the whole is the encodings of the fields in order.
    pub proof fn lemma_encoding(&self)
        ensures
            encode_value(<Self as Encode>::encode_schema(), self.value()) == encode_value(<i32 as Encode>::encode_schema(), self.throttle_time_ms.value()) + encode_value(<Vec<FilterResponses<'i>> as Encode>::encode_schema(), self.filter_responses.value()),
            reported_len(<Self as Encode>::encode_schema(), self.value()) == reported_len(<i32 as Encode>::encode_schema(), self.throttle_time_ms.value()) + reported_len(<Vec<FilterResponses<'i>> as Encode>::encode_schema(), self.filter_responses.value()),
            wf_value(<Self as Encode>::encode_schema(), self.value()) ==> wf_value(<i32 as Encode>::encode_schema(), self.throttle_time_ms.value()),
            wf_value(<Self as Encode>::encode_schema(), self.value()) ==> wf_value(<Vec<FilterResponses<'i>> as Encode>::encode_schema(), self.filter_responses.value()),
    {
        let fs = Self::encoded_fields();
        let vs = seq![self.throttle_time_ms.value(), self.filter_responses.value()];
        assert(self.value() == Value::Fields(vs));
        assert(encode_fields(fs, 2, vs) == Seq::<u8>::empty());
        assert(encode_fields(fs, 1, vs) == encode_value(fs[1], vs[1]) + encode_fields(fs, 2, vs));
        assert(encode_fields(fs, 0, vs) == encode_value(fs[0], vs[0]) + encode_fields(fs, 1, vs));
        assert(encode_fields(fs, 0, vs) =~= encode_value(fs[0], vs[0]) + encode_value(fs[1], vs[1]));
        assert(reported_fields(fs, 2, vs) == 0);
        assert(reported_fields(fs, 1, vs) == reported_len(fs[1], vs[1]) + reported_fields(fs, 2, vs));
        assert(reported_fields(fs, 0, vs) == reported_len(fs[0], vs[0]) + reported_fields(fs, 1, vs));
        if wf_value(<Self as Encode>::encode_schema(), self.value()) {
            assert(wf_value(fs[0], vs[0]));
            assert(wf_value(fs[1], vs[1]));
        }
    }
}

impl<'i> Decode<'i> for DeleteAclsResponse<'i> {
    open spec fn parse_schema() -> Schema {
        Self::schema()
    }

    #[verifier::spinoff_prover]
    #[verifier::rlimit(60)]
    fn parse_at(input: &'i [u8], pos: usize) -> (r: Result<(Self, usize), bool>) {
        let ghost s = input@;
        let ghost fs = Self::fields();
        let p0 = pos;
        let (f0, p1): (i32, usize) = match be_i32(input, p0) {
            Ok(x) => x,
            Err(c) => {
                proof {
                    assert(parse_fields(fs, 0, s, p0 as int) == Parsed::Failed(c));
                }
                return Err(c);
            },
        };
        let (f1, p2): (Vec<FilterResponses<'i>>, usize) = match many::<FilterResponses<'i>>(input, p1) {
            Ok(x) => x,
            Err(c) => {
                proof {
                    assert(parse_fields(fs, 1, s, p1 as int) == Parsed::Failed(c));
                    assert(parse_fields(fs, 0, s, p0 as int) == Parsed::Failed(c || p1 > p0));
                }
                return Err(c || p1 > p0);
            },
        };
        proof {
            assert(parse_fields(fs, 2, s, p2 as int) == Parsed::Done(Value::Fields(Seq::empty()), p2 as int));
            assert(seq![f1.value()] + Seq::<Value>::empty() =~= seq![f1.value()]);
            assert(parse_fields(fs, 1, s, p1 as int) == Parsed::Done(Value::Fields(seq![f1.value()]), p2 as int));
            assert(seq![f0.value()] + seq![f1.value()] =~= seq![f0.value(), f1.value()]);
            assert(parse_fields(fs, 0, s, p0 as int) == Parsed::Done(Value::Fields(seq![f0.value(), f1.value()]), p2 as int));
        }
        Ok((DeleteAclsResponse { throttle_time_ms: f0, filter_responses: f1 }, p2))
    }
}

impl<'i> Encode for DeleteAclsResponse<'i> {
    open spec fn encode_schema() -> Schema {
        Schema::Struct(Self::encoded_fields())
    }

    fn encode_len(&self) -> (n: usize) {
        proof { self.lemma_encoding(); }
        self.throttle_time_ms.encode_len() + self.filter_responses.encode_len()
    }

    #[verifier::spinoff_prover]
    fn encodable(&self) -> (b: bool) {
        let b = self.throttle_time_ms.encodable() && self.filter_responses.encodable();
        proof {
            self.lemma_encoding();
            let fs = Self::encoded_fields();
            let vs = seq![self.throttle_time_ms.value(), self.filter_responses.value()];
            assert(self.value() == Value::Fields(vs));
            if b {
                assert forall|k: int| 0 <= k < vs.len() implies wf_value(fs[k], #[trigger] vs[k]) by {
                    if k == 0 {} else if k == 1 {}
                }
            }
        }
        b
    }

    fn encode(&self, writer: &mut Vec<u8>) {
        proof { self.lemma_encoding(); }
        self.throttle_time_ms.encode(writer);
        self.filter_responses.encode(writer);
        assert(writer@ =~= old(writer)@ + encode_value(Self::encode_schema(), self.value()));
    }
}

} // verus!
