//! The Add Offsets To Txn Request message (version 1).
use vstd::prelude::*;
use crate::wire::{Parsed, Schema, Value, encode_fields, encode_value, framed, parse_fields, parse_value, reported_fields, reported_len, wf_value};
use crate::codec::{Decode, Encode, Wire, agrees, be_i16, be_i64, parse_prefix, parsed_prefix, string};

verus! {

/// Parses a `AddOffsetsToTxnRequest` at the start of `input`; gives it with the input that
/// follows it, or `None` when the input does not start with one.
pub fn add_offsets_to_txn_request<'i>(input: &'i [u8]) -> (r: Option<(AddOffsetsToTxnRequest<'i>, &'i [u8])>)
    ensures
        parsed_prefix(r, AddOffsetsToTxnRequest::<'i>::schema(), input@),
{
    parse_prefix(input)
}

pub const VERSION: i16 = 1;

#[derive(Clone, Debug, PartialEq)]
pub struct AddOffsetsToTxnRequest<'i> {
    pub transactional_id: &'i str,
    pub producer_id: i64,
    pub producer_epoch: i16,
    pub group_id: &'i str,
}

impl<'i> Wire for AddOffsetsToTxnRequest<'i> {
    open spec fn value(&self) -> Value {
        Value::Fields(seq![self.transactional_id.value(), self.producer_id.value(), self.producer_epoch.value(), self.group_id.value()])
    }
}

impl<'i> AddOffsetsToTxnRequest<'i> {
    /// The wire format, field by field.
    pub open spec fn fields() -> Seq<Schema> {
        seq![Schema::Str, Schema::I64, Schema::I16, Schema::Str]
    }

    pub open spec fn schema() -> Schema {
        Schema::Struct(Self::fields())
    }

    /// The schemas with which the fields are written.
    pub open spec fn encoded_fields() -> Seq<Schema> {
        seq![<&'i str as Encode>::encode_schema(), <i64 as Encode>::encode_schema(), <i16 as Encode>::encode_schema(), <&'i str as Encode>::encode_schema()]
    }

    /// The encoding of the whole is the encodings of the fields in order.
    pub proof fn lemma_encoding(&self)
        ensures
            encode_value(<Self as Encode>::encode_schema(), self.value()) == encode_value(<&'i str as Encode>::encode_schema(), self.transactional_id.value()) + encode_value(<i64 as Encode>::encode_schema(), self.producer_id.value()) + encode_value(<i16 as Encode>::encode_schema(), self.producer_epoch.value()) + encode_value(<&'i str as Encode>::encode_schema(), self.group_id.value()),
            reported_len(<Self as Encode>::encode_schema(), self.value()) == reported_len(<&'i str as Encode>::encode_schema(), self.transactional_id.value()) + reported_len(<i64 as Encode>::encode_schema(), self.producer_id.value()) + reported_len(<i16 as Encode>::encode_schema(), self.producer_epoch.value()) + reported_len(<&'i str as Encode>::encode_schema(), self.group_id.value()),
            wf_value(<Self as Encode>::encode_schema(), self.value()) ==> wf_value(<&'i str as Encode>::encode_schema(), self.transactional_id.value()),
            wf_value(<Self as Encode>::encode_schema(), self.value()) ==> wf_value(<i64 as Encode>::encode_schema(), self.producer_id.value()),
            wf_value(<Self as Encode>::encode_schema(), self.value()) ==> wf_value(<i16 as Encode>::encode_schema(), self.producer_epoch.value()),
            wf_value(<Self as Encode>::encode_schema(), self.value()) ==> wf_value(<&'i str as Encode>::encode_schema(), self.group_id.value()),
    {
        let fs = Self::encoded_fields();
        let vs = seq![self.transactional_id.value(), self.producer_id.value(), self.producer_epoch.value(), self.group_id.value()];
        assert(self.value() == Value::Fields(vs));
        assert(encode_fields(fs, 4, vs) == Seq::<u8>::empty());
        assert(encode_fields(fs, 3, vs) == encode_value(fs[3], vs[3]) + encode_fields(fs, 4, vs));
        assert(encode_fields(fs, 2, vs) == encode_value(fs[2], vs[2]) + encode_fields(fs, 3, vs));
        assert(encode_fields(fs, 1, vs) == encode_value(fs[1], vs[1]) + encode_fields(fs, 2, vs));
        assert(encode_fields(fs, 0, vs) == encode_value(fs[0], vs[0]) + encode_fields(fs, 1, vs));
        assert(encode_fields(fs, 0, vs) =~= encode_value(fs[0], vs[0]) + encode_value(fs[1], vs[1]) + encode_value(fs[2], vs[2]) + encode_value(fs[3], vs[3]));
        assert(reported_fields(fs, 4, vs) == 0);
        assert(reported_fields(fs, 3, vs) == reported_len(fs[3], vs[3]) + reported_fields(fs, 4, vs));
        assert(reported_fields(fs, 2, vs) == reported_len(fs[2], vs[2]) + reported_fields(fs, 3, vs));
        assert(reported_fields(fs, 1, vs) == reported_len(fs[1], vs[1]) + reported_fields(fs, 2, vs));
        assert(reported_fields(fs, 0, vs) == reported_len(fs[0], vs[0]) + reported_fields(fs, 1, vs));
        if wf_value(<Self as Encode>::encode_schema(), self.value()) {
            assert(wf_value(fs[0], vs[0]));
            assert(wf_value(fs[1], vs[1]));
            assert(wf_value(fs[2], vs[2]));
            assert(wf_value(fs[3], vs[3]));
        }
    }

    /// The type reads as it writes, and counts all of its lists.
    pub proof fn lemma_wire_format()
        ensures
            Self::schema() == <Self as Encode>::encode_schema(),
            framed(Self::schema()),
    {
        assert(Self::fields() =~= Self::encoded_fields());
        assert forall|k: int| 0 <= k < Self::fields().len() implies framed(#[trigger] Self::fields()[k]) by {
            reveal_with_fuel(framed, 3);
            if k == 0 {} else if k == 1 {} else if k == 2 {} else if k == 3 {}
        }
    }
}

impl<'i> Decode<'i> for AddOffsetsToTxnRequest<'i> {
    open spec fn parse_schema() -> Schema {
        Self::schema()
    }

    #[verifier::spinoff_prover]
    #[verifier::rlimit(60)]
    fn parse_at(input: &'i [u8], pos: usize) -> (r: Result<(Self, usize), bool>) {
        let ghost s = input@;
        let ghost fs = Self::fields();
        let p0 = pos;
        let (f0, p1): (&'i str, usize) = match string(input, p0) {
            Ok(x) => x,
            Err(c) => {
                proof {
                    assert(parse_fields(fs, 0, s, p0 as int) == Parsed::Failed(c));
                }
                return Err(c);
            },
        };
        let (f1, p2): (i64, usize) = match be_i64(input, p1) {
            Ok(x) => x,
            Err(c) => {
                proof {
                    assert(parse_fields(fs, 1, s, p1 as int) == Parsed::Failed(c));
                    assert(parse_fields(fs, 0, s, p0 as int) == Parsed::Failed(c || p1 > p0));
                }
                return Err(c || p1 > p0);
            },
        };
        let (f2, p3): (i16, usize) = match be_i16(input, p2) {
            Ok(x) => x,
            Err(c) => {
                proof {
                    assert(parse_fields(fs, 2, s, p2 as int) == Parsed::Failed(c));
                    assert(parse_fields(fs, 1, s, p1 as int) == Parsed::Failed(c || p2 > p1));
                    assert(parse_fields(fs, 0, s, p0 as int) == Parsed::Failed(c || p2 > p0));
                }
                return Err(c || p2 > p0);
            },
        };
        let (f3, p4): (&'i str, usize) = match string(input, p3) {
            Ok(x) => x,
            Err(c) => {
                proof {
                    assert(parse_fields(fs, 3, s, p3 as int) == Parsed::Failed(c));
                    assert(parse_fields(fs, 2, s, p2 as int) == Parsed::Failed(c || p3 > p2));
                    assert(parse_fields(fs, 1, s, p1 as int) == Parsed::Failed(c || p3 > p1));
                    assert(parse_fields(fs, 0, s, p0 as int) == Parsed::Failed(c || p3 > p0));
                }
                return Err(c || p3 > p0);
            },
        };
        proof {
            assert(parse_fields(fs, 4, s, p4 as int) == Parsed::Done(Value::Fields(Seq::empty()), p4 as int));
            assert(seq![f3.value()] + Seq::<Value>::empty() =~= seq![f3.value()]);
            assert(parse_fields(fs, 3, s, p3 as int) == Parsed::Done(Value::Fields(seq![f3.value()]), p4 as int));
            assert(seq![f2.value()] + seq![f3.value()] =~= seq![f2.value(), f3.value()]);
            assert(parse_fields(fs, 2, s, p2 as int) == Parsed::Done(Value::Fields(seq![f2.value(), f3.value()]), p4 as int));
            assert(seq![f1.value()] + seq![f2.value(), f3.value()] =~= seq![f1.value(), f2.value(), f3.value()]);
            assert(parse_fields(fs, 1, s, p1 as int) == Parsed::Done(Value::Fields(seq![f1.value(), f2.value(), f3.value()]), p4 as int));
            assert(seq![f0.value()] + seq![f1.value(), f2.value(), f3.value()] =~= seq![f0.value(), f1.value(), f2.value(), f3.value()]);
            assert(parse_fields(fs, 0, s, p0 as int) == Parsed::Done(Value::Fields(seq![f0.value(), f1.value(), f2.value(), f3.value()]), p4 as int));
        }
        Ok((AddOffsetsToTxnRequest { transactional_id: f0, producer_id: f1, producer_epoch: f2, group_id: f3 }, p4))
    }
}

impl<'i> Encode for AddOffsetsToTxnRequest<'i> {
    open spec fn encode_schema() -> Schema {
        Schema::Struct(Self::encoded_fields())
    }

    fn encode_len(&self) -> (n: usize) {
        proof { self.lemma_encoding(); }
        self.transactional_id.encode_len() + self.producer_id.encode_len() + self.producer_epoch.encode_len() + self.group_id.encode_len()
    }

    #[verifier::spinoff_prover]
    fn encodable(&self) -> (b: bool) {
        let b = self.transactional_id.encodable() && self.producer_id.encodable() && self.producer_epoch.encodable() && self.group_id.encodable();
        proof {
            self.lemma_encoding();
            let fs = Self::encoded_fields();
            let vs = seq![self.transactional_id.value(), self.producer_id.value(), self.producer_epoch.value(), self.group_id.value()];
            assert(self.value() == Value::Fields(vs));
            if b {
                assert forall|k: int| 0 <= k < vs.len() implies wf_value(fs[k], #[trigger] vs[k]) by {
                    if k == 0 {} else if k == 1 {} else if k == 2 {} else if k == 3 {}
                }
            }
        }
        b
    }

    fn encode(&self, writer: &mut Vec<u8>) {
        proof { self.lemma_encoding(); }
        self.transactional_id.encode(writer);
        self.producer_id.encode(writer);
        self.producer_epoch.encode(writer);
        self.group_id.encode(writer);
        assert(writer@ =~= old(writer)@ + encode_value(Self::encode_schema(), self.value()));
    }
}

} // verus!
