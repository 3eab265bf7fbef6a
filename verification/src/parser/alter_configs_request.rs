//! The Alter Configs Request message (version 1).
use vstd::prelude::*;
use crate::wire::{Parsed, Schema, Value, encode_fields, encode_value, framed, parse_fields, parse_value, reported_fields, reported_len, wf_value};
use crate::codec::{Decode, Encode, Wire, agrees, array, be_i8, boolean, nullable_string, parse_prefix, parsed_prefix, string};

verus! {

/// Parses a `AlterConfigsRequest` at the start of `input`; gives it with the input that
/// follows it, or `None` when the input does not start with one.
pub fn alter_configs_request<'i>(input: &'i [u8]) -> (r: Option<(AlterConfigsRequest<'i>, &'i [u8])>)
    ensures
        parsed_prefix(r, AlterConfigsRequest::<'i>::schema(), input@),
{
    parse_prefix(input)
}

pub const VERSION: i16 = 1;

#[derive(Clone, Debug, PartialEq)]
pub struct ConfigEntries<'i> {
    pub config_name: &'i str,
    pub config_value: Option<&'i str>,
}

impl<'i> Wire for ConfigEntries<'i> {
    open spec fn value(&self) -> Value {
        Value::Fields(seq![self.config_name.value(), self.config_value.value()])
    }
}

impl<'i> ConfigEntries<'i> {
    /// The wire format, field by field.
    pub open spec fn fields() -> Seq<Schema> {
        seq![Schema::Str, Schema::NullableStr]
    }

    pub open spec fn schema() -> Schema {
        Schema::Struct(Self::fields())
    }

    /// The schemas with which the fields are written.
    pub open spec fn encoded_fields() -> Seq<Schema> {
        seq![<&'i str as Encode>::encode_schema(), <Option<&'i str> as Encode>::encode_schema()]
    }

    /// The encoding of the whole is the encodings of the fields in order.
    pub proof fn lemma_encoding(&self)
        ensures
            encode_value(<Self as Encode>::encode_schema(), self.value()) == encode_value(<&'i str as Encode>::encode_schema(), self.config_name.value()) + encode_value(<Option<&'i str> as Encode>::encode_schema(), self.config_value.value()),
            reported_len(<Self as Encode>::encode_schema(), self.value()) == reported_len(<&'i str as Encode>::encode_schema(), self.config_name.value()) + reported_len(<Option<&'i str> as Encode>::encode_schema(), self.config_value.value()),
            wf_value(<Self as Encode>::encode_schema(), self.value()) ==> wf_value(<&'i str as Encode>::encode_schema(), self.config_name.value()),
            wf_value(<Self as Encode>::encode_schema(), self.value()) ==> wf_value(<Option<&'i str> as Encode>::encode_schema(), self.config_value.value()),
    {
        let fs = Self::encoded_fields();
        let vs = seq![self.config_name.value(), self.config_value.value()];
        assert(self.value() == Value::Fields(vs));
        assert(encode_fields(fs, 2, vs) == Seq::<u8>::empty());
        assert(encode_fields(fs, 1, vs) == encode_value(fs[1], vs[1]) + encode_fields(fs, 2, vs));
        assert(encode_fields(fs, 0, vs) == encode_value(fs[0], vs[0]) + encode_fields(fs, 1, vs));
        assert(encode_fields(fs, 0, vs) =~= encode_value(fs[0], vs[0]) + encode_value(fs[1], vs[1]));
        assert(reported_fields(fs, 2, vs) == 0);
        assert(reported_fields(fs, 1, vs) == reported_len(fs[1], vs[1]) + reported_fields(fs, 2, vs));
        assert(reported_fields(fs, 0, vs) == reported_len(fs[0], vs[0]) + reported_fields(fs, 1, vs));
        if wf_value(<Self as Encode>::encode_schema(), self.value()) {
            assert(wf_value(fs[0], vs[0]));
            assert(wf_value(fs[1], vs[1]));
        }
    }

    /// The type reads as it writes, and counts all of its lists.
    pub proof fn lemma_wire_format()
        ensures
            Self::schema() == <Self as Encode>::encode_schema(),
            framed(Self::schema()),
    {
        assert(Self::fields() =~= Self::encoded_fields());
        assert forall|k: int| 0 <= k < Self::fields().len() implies framed(#[trigger] Self::fields()[k]) by {
            reveal_with_fuel(framed, 3);
            if k == 0 {} else if k == 1 {}
        }
    }
}

impl<'i> Decode<'i> for ConfigEntries<'i> {
    open spec fn parse_schema() -> Schema {
        Self::schema()
    }

    #[verifier::spinoff_prover]
    #[verifier::rlimit(60)]
    fn parse_at(input: &'i [u8], pos: usize) -> (r: Result<(Self, usize), bool>) {
        let ghost s = input@;
        let ghost fs = Self::fields();
        let p0 = pos;
        let (f0, p1): (&'i str, usize) = match string(input, p0) {
            Ok(x) => x,
            Err(c) => {
                proof {
                    assert(parse_fields(fs, 0, s, p0 as int) == Parsed::Failed(c));
                }
                return Err(c);
            },
        };
        let (f1, p2): (Option<&'i str>, usize) = match nullable_string(input, p1) {
            Ok(x) => x,
            Err(c) => {
                proof {
                    assert(parse_fields(fs, 1, s, p1 as int) == Parsed::Failed(c));
                    assert(parse_fields(fs, 0, s, p0 as int) == Parsed::Failed(c || p1 > p0));
                }
                return Err(c || p1 > p0);
            },
        };
        proof {
            assert(parse_fields(fs, 2, s, p2 as int) == Parsed::Done(Value::Fields(Seq::empty()), p2 as int));
            assert(seq![f1.value()] + Seq::<Value>::empty() =~= seq![f1.value()]);
            assert(parse_fields(fs, 1, s, p1 as int) == Parsed::Done(Value::Fields(seq![f1.value()]), p2 as int));
            assert(seq![f0.value()] + seq![f1.value()] =~= seq![f0.value(), f1.value()]);
            assert(parse_fields(fs, 0, s, p0 as int) == Parsed::Done(Value::Fields(seq![f0.value(), f1.value()]), p2 as int));
        }
        Ok((ConfigEntries { config_name: f0, config_value: f1 }, p2))
    }
}

impl<'i> Encode for ConfigEntries<'i> {
    open spec fn encode_schema() -> Schema {
        Schema::Struct(Self::encoded_fields())
    }

    fn encode_len(&self) -> (n: usize) {
        proof { self.lemma_encoding(); }
        self.config_name.encode_len() + self.config_value.encode_len()
    }

    #[verifier::spinoff_prover]
    fn encodable(&self) -> (b: bool) {
        let b = self.config_name.encodable() && self.config_value.encodable();
        proof {
            self.lemma_encoding();
            let fs = Self::encoded_fields();
            let vs = seq![self.config_name.value(), self.config_value.value()];
            assert(self.value() == Value::Fields(vs));
            if b {
                assert forall|k: int| 0 <= k < vs.len() implies wf_value(fs[k], #[trigger] vs[k]) by {
                    if k == 0 {} else if k == 1 {}
                }
            }
        }
        b
    }

    fn encode(&self, writer: &mut Vec<u8>) {
        proof { self.lemma_encoding(); }
        self.config_name.encode(writer);
        self.config_value.encode(writer);
        assert(writer@ =~= old(writer)@ + encode_value(Self::encode_schema(), self.value()));
    }
}

#[derive(Clone, Debug, PartialEq)]
pub struct Resources<'i> {
    pub resource_type: i8,
    pub resource_name: &'i str,
    pub config_entries: Vec<ConfigEntries<'i>>,
}

impl<'i> Wire for Resources<'i> {
    open spec fn value(&self) -> Value {
        Value::Fields(seq![self.resource_type.value(), self.resource_name.value(), self.config_entries.value()])
    }
}

impl<'i> Resources<'i> {
    /// The wire format, field by field.
    pub open spec fn fields() -> Seq<Schema> {
        seq![Schema::I8, Schema::Str, Schema::Array(Box::new(ConfigEntries::<'i>::schema()))]
    }

    pub open spec fn schema() -> Schema {
        Schema::Struct(Self::fields())
    }

    /// The schemas with which the fields are written.
    pub open spec fn encoded_fields() -> Seq<Schema> {
        seq![<i8 as Encode>::encode_schema(), <&'i str as Encode>::encode_schema(), <Vec<ConfigEntries<'i>> as Encode>::encode_schema()]
    }

    /// The encoding of the whole is the encodings of the fields in order.
    pub proof fn lemma_encoding(&self)
        ensures
            encode_value(<Self as Encode>::encode_schema(), self.value()) == encode_value(<i8 as Encode>::encode_schema(), self.resource_type.value()) + encode_value(<&'i str as Encode>::encode_schema(), self.resource_name.value()) + encode_value(<Vec<ConfigEntries<'i>> as Encode>::encode_schema(), self.config_entries.value()),
            reported_len(<Self as Encode>::encode_schema(), self.value()) == reported_len(<i8 as Encode>::encode_schema(), self.resource_type.value()) + reported_len(<&'i str as Encode>::encode_schema(), self.resource_name.value()) + reported_len(<Vec<ConfigEntries<'i>> as Encode>::encode_schema(), self.config_entries.value()),
            wf_value(<Self as Encode>::encode_schema(), self.value()) ==> wf_value(<i8 as Encode>::encode_schema(), self.resource_type.value()),
            wf_value(<Self as Encode>::encode_schema(), self.value()) ==> wf_value(<&'i str as Encode>::encode_schema(), self.resource_name.value()),
            wf_value(<Self as Encode>::encode_schema(), self.value()) ==> wf_value(<Vec<ConfigEntries<'i>> as Encode>::encode_schema(), self.config_entries.value()),
    {
        let fs = Self::encoded_fields();
        let vs = seq![self.resource_type.value(), self.resource_name.value(), self.config_entries.value()];
        assert(self.value() == Value::Fields(vs));
        assert(encode_fields(fs, 3, vs) == Seq::<u8>::empty());
        assert(encode_fields(fs, 2, vs) == encode_value(fs[2], vs[2]) + encode_fields(fs, 3, vs));
        assert(encode_fields(fs, 1, vs) == encode_value(fs[1], vs[1]) + encode_fields(fs, 2, vs));
        assert(encode_fields(fs, 0, vs) == encode_value(fs[0], vs[0]) + encode_fields(fs, 1, vs));
        assert(encode_fields(fs, 0, vs) =~= encode_value(fs[0], vs[0]) + encode_value(fs[1], vs[1]) + encode_value(fs[2], vs[2]));
        assert(reported_fields(fs, 3, vs) == 0);
        assert(reported_fields(fs, 2, vs) == reported_len(fs[2], vs[2]) + reported_fields(fs, 3, vs));
        assert(reported_fields(fs, 1, vs) == reported_len(fs[1], vs[1]) + reported_fields(fs, 2, vs));
        assert(reported_fields(fs, 0, vs) == reported_len(fs[0], vs[0]) + reported_fields(fs, 1, vs));
        if wf_value(<Self as Encode>::encode_schema(), self.value()) {
            assert(wf_value(fs[0], vs[0]));
            assert(wf_value(fs[1], vs[1]));
            assert(wf_value(fs[2], vs[2]));
        }
    }

    /// The type reads as it writes, and counts all of its lists.
    pub proof fn lemma_wire_format()
        ensures
            Self::schema() == <Self as Encode>::encode_schema(),
            framed(Self::schema()),
    {
        ConfigEntries::<'i>::lemma_wire_format();
        assert(Self::fields() =~= Self::encoded_fields());
        assert forall|k: int| 0 <= k < Self::fields().len() implies framed(#[trigger] Self::fields()[k]) by {
            reveal_with_fuel(framed, 3);
            if k == 0 {} else if k == 1 {} else if k == 2 {}
        }
    }
}

impl<'i> Decode<'i> for Resources<'i> {
    open spec fn parse_schema() -> Schema {
        Self::schema()
    }

    #[verifier::spinoff_prover]
    #[verifier::rlimit(60)]
    fn parse_at(input: &'i [u8], pos: usize) -> (r: Result<(Self, usize), bool>) {
        let ghost s = input@;
        let ghost fs = Self::fields();
        let p0 = pos;
        let (f0, p1): (i8, usize) = match be_i8(input, p0) {
            Ok(x) => x,
            Err(c) => {
                proof {
                    assert(parse_fields(fs, 0, s, p0 as int) == Parsed::Failed(c));
                }
                return Err(c);
            },
        };
        let (f1, p2): (&'i str, usize) = match string(input, p1) {
            Ok(x) => x,
            Err(c) => {
                proof {
                    assert(parse_fields(fs, 1, s, p1 as int) == Parsed::Failed(c));
                    assert(parse_fields(fs, 0, s, p0 as int) == Parsed::Failed(c || p1 > p0));
                }
                return Err(c || p1 > p0);
            },
        };
        let (f2, p3): (Vec<ConfigEntries<'i>>, usize) = match array::<ConfigEntries<'i>>(input, p2) {
            Ok(x) => x,
            Err(c) => {
                proof {
                    assert(parse_fields(fs, 2, s, p2 as int) == Parsed::Failed(c));
                    assert(parse_fields(fs, 1, s, p1 as int) == Parsed::Failed(c || p2 > p1));
                    assert(parse_fields(fs, 0, s, p0 as int) == Parsed::Failed(c || p2 > p0));
                }
                return Err(c || p2 > p0);
            },
        };
        proof {
            assert(parse_fields(fs, 3, s, p3 as int) == Parsed::Done(Value::Fields(Seq::empty()), p3 as int));
            assert(seq![f2.value()] + Seq::<Value>::empty() =~= seq![f2.value()]);
            assert(parse_fields(fs, 2, s, p2 as int) == Parsed::Done(Value::Fields(seq![f2.value()]), p3 as int));
            assert(seq![f1.value()] + seq![f2.value()] =~= seq![f1.value(), f2.value()]);
            assert(parse_fields(fs, 1, s, p1 as int) == Parsed::Done(Value::Fields(seq![f1.value(), f2.value()]), p3 as int));
            assert(seq![f0.value()] + seq![f1.value(), f2.value()] =~= seq![f0.value(), f1.value(), f2.value()]);
            assert(parse_fields(fs, 0, s, p0 as int) == Parsed::Done(Value::Fields(seq![f0.value(), f1.value(), f2.value()]), p3 as int));
        }
        Ok((Resources { resource_type: f0, resource_name: f1, config_entries: f2 }, p3))
    }
}

impl<'i> Encode for Resources<'i> {
    open spec fn encode_schema() -> Schema {
        Schema::Struct(Self::encoded_fields())
    }

    fn encode_len(&self) -> (n: usize) {
        proof { self.lemma_encoding(); }
        self.resource_type.encode_len() + self.resource_name.encode_len() + self.config_entries.encode_len()
    }

    #[verifier::spinoff_prover]
    fn encodable(&self) -> (b: bool) {
        let b = self.resource_type.encodable() && self.resource_name.encodable() && self.config_entries.encodable();
        proof {
            self.lemma_encoding();
            let fs = Self::encoded_fields();
            let vs = seq![self.resource_type.value(), self.resource_name.value(), self.config_entries.value()];
            assert(self.value() == Value::Fields(vs));
            if b {
                assert forall|k: int| 0 <= k < vs.len() implies wf_value(fs[k], #[trigger] vs[k]) by {
                    if k == 0 {} else if k == 1 {} else if k == 2 {}
                }
            }
        }
        b
    }

    fn encode(&self, writer: &mut Vec<u8>) {
        proof { self.lemma_encoding(); }
        self.resource_type.encode(writer);
        self.resource_name.encode(writer);
        self.config_entries.encode(writer);
        assert(writer@ =~= old(writer)@ + encode_value(Self::encode_schema(), self.value()));
    }
}

#[derive(Clone, Debug, PartialEq)]
pub struct AlterConfigsRequest<'i> {
    pub resources: Vec<Resources<'i>>,
    pub validate_only: bool,
}

impl<'i> Wire for AlterConfigsRequest<'i> {
    open spec fn value(&self) -> Value {
        Value::Fields(seq![self.resources.value(), self.validate_only.value()])
    }
}

impl<'i> AlterConfigsRequest<'i> {
    /// The wire format, field by field.
    pub open spec fn fields() -> Seq<Schema> {
        seq![Schema::Array(Box::new(Resources::<'i>::schema())), Schema::Bool]
    }

    pub open spec fn schema() -> Schema {
        Schema::Struct(Self::fields())
    }

    /// The schemas with which the fields are written.
    pub open spec fn encoded_fields() -> Seq<Schema> {
        seq![<Vec<Resources<'i>> as Encode>::encode_schema(), <bool as Encode>::encode_schema()]
    }

    /// The encoding of the whole is the encodings of the fields in order.
    pub proof fn lemma_encoding(&self)
        ensures
            encode_value(<Self as Encode>::encode_schema(), self.value()) == encode_value(<Vec<Resources<'i>> as Encode>::encode_schema(), self.resources.value()) + encode_value(<bool as Encode>::encode_schema(), self.validate_only.value()),
            reported_len(<Self as Encode>::encode_schema(), self.value()) == reported_len(<Vec<Resources<'i>> as Encode>::encode_schema(), self.resources.value()) + reported_len(<bool as Encode>::encode_schema(), self.validate_only.value()),
            wf_value(<Self as Encode>::encode_schema(), self.value()) ==> wf_value(<Vec<Resources<'i>> as Encode>::encode_schema(), self.resources.value()),
            wf_value(<Self as Encode>::encode_schema(), self.value()) ==> wf_value(<bool as Encode>::encode_schema(), self.validate_only.value()),
    {
        let fs = Self::encoded_fields();
        let vs = seq![self.resources.value(), self.validate_only.value()];
        assert(self.value() == Value::Fields(vs));
        assert(encode_fields(fs, 2, vs) == Seq::<u8>::empty());
        assert(encode_fields(fs, 1, vs) == encode_value(fs[1], vs[1]) + encode_fields(fs, 2, vs));
        assert(encode_fields(fs, 0, vs) == encode_value(fs[0], vs[0]) + encode_fields(fs, 1, vs));
        assert(encode_fields(fs, 0, vs) =~= encode_value(fs[0], vs[0]) + encode_value(fs[1], vs[1]));
        assert(reported_fields(fs, 2, vs) == 0);
        assert(reported_fields(fs, 1, vs) == reported_len(fs[1], vs[1]) + reported_fields(fs, 2, vs));
        assert(reported_fields(fs, 0, vs) == reported_len(fs[0], vs[0]) + reported_fields(fs, 1, vs));
        if wf_value(<Self as Encode>::encode_schema(), self.value()) {
            assert(wf_value(fs[0], vs[0]));
            assert(wf_value(fs[1], vs[1]));
        }
    }

    /// The type reads as it writes, and counts all of its lists.
    pub proof fn lemma_wire_format()
        ensures
            Self::schema() == <Self as Encode>::encode_schema(),
            framed(Self::schema()),
    {
        Resources::<'i>::lemma_wire_format();
        assert(Self::fields() =~= Self::encoded_fields());
        assert forall|k: int| 0 <= k < Self::fields().len() implies framed(#[trigger] Self::fields()[k]) by {
            reveal_with_fuel(framed, 3);
            if k == 0 {} else if k == 1 {}
        }
    }
}

impl<'i> Decode<'i> for AlterConfigsRequest<'i> {
    open spec fn parse_schema() -> Schema {
        Self::schema()
    }

    #[verifier::spinoff_prover]
    #[verifier::rlimit(60)]
    fn parse_at(input: &'i [u8], pos: usize) -> (r: Result<(Self, usize), bool>) {
        let ghost s = input@;
        let ghost fs = Self::fields();
        let p0 = pos;
        let (f0, p1): (Vec<Resources<'i>>, usize) = match array::<Resources<'i>>(input, p0) {
            Ok(x) => x,
            Err(c) => {
                proof {
                    assert(parse_fields(fs, 0, s, p0 as int) == Parsed::Failed(c));
                }
                return Err(c);
            },
        };
        let (f1, p2): (bool, usize) = match boolean(input, p1) {
            Ok(x) => x,
            Err(c) => {
                proof {
                    assert(parse_fields(fs, 1, s, p1 as int) == Parsed::Failed(c));
                    assert(parse_fields(fs, 0, s, p0 as int) == Parsed::Failed(c || p1 > p0));
                }
                return Err(c || p1 > p0);
            },
        };
        proof {
            assert(parse_fields(fs, 2, s, p2 as int) == Parsed::Done(Value::Fields(Seq::empty()), p2 as int));
            assert(seq![f1.value()] + Seq::<Value>::empty() =~= seq![f1.value()]);
            assert(parse_fields(fs, 1, s, p1 as int) == Parsed::Done(Value::Fields(seq![f1.value()]), p2 as int));
            assert(seq![f0.value()] + seq![f1.value()] =~= seq![f0.value(), f1.value()]);
            assert(parse_fields(fs, 0, s, p0 as int) == Parsed::Done(Value::Fields(seq![f0.value(), f1.value()]), p2 as int));
        }
        Ok((AlterConfigsRequest { resources: f0, validate_only: f1 }, p2))
    }
}

impl<'i> Encode for AlterConfigsRequest<'i> {
    open spec fn encode_schema() -> Schema {
        Schema::Struct(Self::encoded_fields())
    }

    fn encode_len(&self) -> (n: usize) {
        proof { self.lemma_encoding(); }
        self.resources.encode_len() + self.validate_only.encode_len()
    }

    #[verifier::spinoff_prover]
    fn encodable(&self) -> (b: bool) {
        let b = self.resources.encodable() && self.validate_only.encodable();
        proof {
            self.lemma_encoding();
            let fs = Self::encoded_fields();
            let vs = seq![self.resources.value(), self.validate_only.value()];
            assert(self.value() == Value::Fields(vs));
            if b {
                assert forall|k: int| 0 <= k < vs.len() implies wf_value(fs[k], #[trigger] vs[k]) by {
                    if k == 0 {} else if k == 1 {}
                }
            }
        }
        b
    }

    fn encode(&self, writer: &mut Vec<u8>) {
        proof { self.lemma_encoding(); }
        self.resources.encode(writer);
        self.validate_only.encode(writer);
        assert(writer@ =~= old(writer)@ + encode_value(Self::encode_schema(), self.value()));
    }
}

} // verus!
