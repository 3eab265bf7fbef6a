//! Record batches: the unit in which messages are produced and fetched.
use vstd::prelude::*;
use vstd::slice::slice_subrange;
use vstd::utf8::valid_utf8;
use vstd::string::StringSliceAdditionalSpecFns;
pub use crate::wire::BatchError;
use crate::wire::{
    Value, Schema, Parsed, parse_value, parse_delimited, to_signed, to_unsigned, crc32c, crc_start,
    record_view, verify_batch, batch_error, encode_value, encode_fields, encode_list, wf_value, varint_bytes,
    int_bytes, be_bytes, fits_signed, lemma_int_bytes_len, lemma_pow256_values, lemma_encode_list_append,
    lemma_encode_list_one, reported_len, reported_fields, no_batch, fields_of, written_set, full_records,
    full_record_of, batch_tail, body_of, bodies_len, stored_set, framed, record_set_fields,
    stored_record_fields, header_fields, lemma_parse_encode, raw_batch_value, raw_body, wf_raw, int_at,
    parse_count, lemma_parse_count_len, lemma_parse_count_shape,
};
use crate::compression::{DecompressError, decompress, decompressed_bytes};
use crate::codec::{
    Wire, Decode, Encode, agrees, values_of, nullable_bytes, required_space, encode_var_i32, put_bytes,
    put_int, put_be, reserve, overwrite, be_i16, be_i32, be_i64, counted,
};
use crate::parser::record_set::{RecordSet, Header};
use crate::parser::record_set::Record as StoredRecord;

verus! {

/// `crc::crc32::checksum_castagnoli`: the CRC-32C checksum of the bytes.
/// The contract claims that the crate's table-driven computation gives the
/// checksum that `crc32c` defines bit by bit.
#[verifier::external_body]
fn checksum_castagnoli(bytes: &[u8]) -> (r: u32)
    ensures
        r == crc32c(bytes@),
{
    crc::crc32::checksum_castagnoli(bytes)
}

/// A header of a record: a string key and a byte value.
#[derive(Clone, Debug, PartialEq)]
pub struct RecordHeader<'i> {
    pub key: &'i str,
    pub value: &'i [u8],
}

impl<'i> Wire for RecordHeader<'i> {
    open spec fn value(&self) -> Value {
        Value::Fields(seq![self.key.value(), self.value.value()])
    }
}

/// A record of a batch. Its length on the wire is computed when it is written.
#[derive(Clone, Debug, PartialEq)]
pub struct Record<'i> {
    /// Unused bits.
    pub attributes: i8,
    pub timestamp_delta: i32,
    pub offset_delta: i32,
    pub key: &'i [u8],
    pub value: &'i [u8],
    pub headers: Vec<RecordHeader<'i>>,
}

impl<'i> Wire for Record<'i> {
    open spec fn value(&self) -> Value {
        Value::Fields(
            seq![self.attributes.value(), self.timestamp_delta.value(), self.offset_delta.value(), self.key.value(), self.value.value(), self.headers.value()],
        )
    }
}

/// A batch of records. The batch length, magic byte (2) and checksum are
/// computed when it is written and checked when it is read.
#[derive(Clone, Debug, PartialEq)]
pub struct RecordBatch<R> {
    pub base_offset: i64,
    pub partition_leader_epoch: i32,
    /// Bits 0 to 2: compression (0 none, 1 gzip, 2 snappy, 3 lz4, 4 zstd);
    /// bit 3: timestamp type; bit 4: transactional; bit 5: control batch.
    pub attributes: i16,
    pub last_offset_delta: i32,
    pub first_timestamp: i64,
    pub max_timestamp: i64,
    pub producer_id: i64,
    pub producer_epoch: i16,
    pub base_sequence: i32,
    pub records: R,
}

impl<R: Wire> Wire for RecordBatch<R> {
    open spec fn value(&self) -> Value {
        Value::Fields(
            seq![self.base_offset.value(), self.partition_leader_epoch.value(), self.attributes.value(), self.last_offset_delta.value(), self.first_timestamp.value(), self.max_timestamp.value(), self.producer_id.value(), self.producer_epoch.value(), self.base_sequence.value(), self.records.value()],
        )
    }
}

/// The records of a batch as they are on the wire: how many there are, and
/// their bytes, which may be compressed.
#[derive(Clone, Debug, PartialEq)]
pub struct RawRecords<'i> {
    pub count: i32,
    pub bytes: &'i [u8],
}

impl<'i> Wire for RawRecords<'i> {
    open spec fn value(&self) -> Value {
        Value::Fields(seq![self.count.value(), self.bytes.value()])
    }
}

/// A record batch with its records decoded.
pub type OwnedRecordBatch<'i> = RecordBatch<Vec<Record<'i>>>;

/// The headers as the batch holds them.
fn convert_headers<'i>(headers: &Vec<Header<'i>>) -> (r: Vec<RecordHeader<'i>>)
    ensures
        values_of(r@) == values_of(headers@),
{
    let mut out: Vec<RecordHeader<'i>> = Vec::new();
    let mut i: usize = 0;
    while i < headers.len()
        invariant
            i <= headers@.len(),
            values_of(out@) =~= values_of(headers@).take(i as int),
        decreases headers@.len() - i,
    {
        let h = &headers[i];
        let rh = RecordHeader { key: h.header_key, value: h.value };
        let ghost before = out@;
        out.push(rh);
        proof {
            assert(out@ == before.push(rh));
            assert(values_of(out@) =~= values_of(before).push(rh.value()));
            assert(values_of(headers@)[i as int] == rh.value());
            assert(values_of(headers@).take(i + 1) =~= values_of(headers@).take(i as int).push(
                rh.value(),
            ));
        }
        i = i + 1;
    }
    assert(values_of(headers@).take(i as int) =~= values_of(headers@));
    out
}

/// The records as the batch holds them: without their stored lengths.
fn convert_records<'i>(records: &Vec<StoredRecord<'i>>) -> (r: Vec<Record<'i>>)
    ensures
        values_of(r@) == values_of(records@).map_values(|v: Value| record_view(v)),
{
    let ghost target = values_of(records@).map_values(|v: Value| record_view(v));
    let mut out: Vec<Record<'i>> = Vec::new();
    let mut i: usize = 0;
    while i < records.len()
        invariant
            i <= records@.len(),
            target == values_of(records@).map_values(|v: Value| record_view(v)),
            values_of(out@) =~= target.take(i as int),
        decreases records@.len() - i,
    {
        let r = &records[i];
        let headers = convert_headers(&r.headers);
        let rec = Record {
            attributes: r.attributes,
            timestamp_delta: r.timestamp_delta,
            offset_delta: r.offset_delta,
            key: r.key,
            value: r.value,
            headers,
        };
        proof {
            let xs = seq![r.length.value(), r.attributes.value(), r.timestamp_delta.value(), r.offset_delta.value(), r.key.value(), r.value.value(), r.headers.value()];
            assert(xs.drop_first() =~= seq![r.attributes.value(), r.timestamp_delta.value(), r.offset_delta.value(), r.key.value(), r.value.value(), r.headers.value()]);
            assert(target[i as int] == record_view(r.value()));
            assert(rec.value() == target[i as int]);
        }
        let ghost before = out@;
        out.push(rec);
        proof {
            assert(values_of(out@) =~= values_of(before).push(rec.value()));
            assert(target.take(i + 1) =~= target.take(i as int).push(target[i as int]));
        }
        i = i + 1;
    }
    assert(target.take(i as int) =~= target);
    out
}

/// The `i32` with the bits of `u`.
fn u32_bits_as_i32(u: u32) -> (r: i32)
    ensures
        r == to_signed(u as nat, 4),
{
    proof { crate::wire::lemma_pow256_values(); }
    if u >= 2147483648 {
        (u - 2147483648) as i32 - 2147483647 - 1
    } else {
        u as i32
    }
}

impl<'i> RecordBatch<Vec<Record<'i>>> {
    /// Checks a record set read from `range` (its bytes): first the magic
    /// byte, which must be 2, then the checksum, which must match the bytes
    /// after it. Gives the batch without the fields that are computed on
    /// write.
    pub fn verify(range: &'i [u8], record_set: RecordSet<'i>) -> (r: Result<Self, BatchError>)
        requires
            record_set.magic == 2 ==> range@.len() >= crc_start(),
        ensures
            match verify_batch(record_set.value(), range@) {
                Some(v) => r matches Ok(b) && b.value() == v,
                None => r == Err::<Self, BatchError>(batch_error(record_set.value(), range@)),
            },
            record_set.magic != 2 ==> r == Err::<Self, BatchError>(BatchError::Version),
            record_set.magic == 2 && record_set.crc != to_signed(
                crc32c(range@.subrange(crc_start(), range@.len() as int)) as nat,
                4,
            ) ==> r == Err::<Self, BatchError>(BatchError::Corrupted),
            r is Ok <==> (record_set.magic == 2 && record_set.crc == to_signed(
                crc32c(range@.subrange(crc_start(), range@.len() as int)) as nat,
                4,
            )),
    {
        if record_set.magic != 2 {
            return Err(BatchError::Version);
        }
        let crc = checksum_castagnoli(slice_subrange(range, 21, range.len()));
        if record_set.crc != u32_bits_as_i32(crc) {
            return Err(BatchError::Corrupted);
        }
        let records = convert_records(&record_set.records);
        let batch = RecordBatch {
            base_offset: record_set.base_offset,
            partition_leader_epoch: record_set.partition_leader_epoch,
            attributes: record_set.attributes,
            last_offset_delta: record_set.last_offset_delta,
            first_timestamp: record_set.first_timestamp,
            max_timestamp: record_set.max_timestamp,
            producer_id: record_set.producer_id,
            producer_epoch: record_set.producer_epoch,
            base_sequence: record_set.base_sequence,
            records,
        };
        Ok(batch)
    }
}

/// Why a record batch could not be read.
#[derive(Clone, Copy, Debug, PartialEq, Eq, Structural)]
pub enum BatchReadError {
    /// The nullable bytes that hold the batch could not be read; `true` when
    /// input had been consumed.
    Bytes(bool),
    /// The bytes do not hold a record set.
    RecordSet,
    /// The record set is not a valid batch.
    Batch(BatchError),
}

/// What reading a record batch at `pos` of `s` gives: the batch (or none,
/// for null or empty bytes) with the position after it, or why it failed.
pub open spec fn read_batch_spec(s: Seq<u8>, pos: int) -> Result<(Value, int), BatchReadError> {
    match parse_delimited(s, pos, 4, true, false) {
        Parsed::Done(Value::Bytes(b), p) => if b.len() == 0 {
            Ok((Value::Null, p))
        } else {
            match parse_value(Schema::Struct(record_set_fields()), b, 0) {
                Parsed::Done(v, _) => match verify_batch(v, b) {
                    Some(bv) => Ok((bv, p)),
                    None => Err(BatchReadError::Batch(batch_error(v, b))),
                },
                Parsed::Failed(_) => Err(BatchReadError::RecordSet),
            }
        },
        Parsed::Done(_, p) => Ok((Value::Null, p)),
        Parsed::Failed(c) => Err(BatchReadError::Bytes(c)),
    }
}

/// Reads a record batch held in nullable bytes, saying why it fails: null or
/// empty bytes give `None`; otherwise the bytes must hold a record set whose
/// magic byte is 2 and whose checksum matches.
pub fn read_batch<'i>(input: &'i [u8], pos: usize) -> (r: Result<(Option<OwnedRecordBatch<'i>>, usize), BatchReadError>)
    requires
        pos <= input@.len(),
    ensures
        match read_batch_spec(input@, pos as int) {
            Ok((v, q)) => r matches Ok((x, p)) && x.value() == v && p == q,
            Err(e) => r == Err::<(Option<OwnedRecordBatch<'i>>, usize), BatchReadError>(e),
        },
        r matches Ok((_, p)) ==> pos <= p <= input@.len(),
{
    proof { RecordSet::<'i>::lemma_schema(); }
    match nullable_bytes(input, pos) {
        Err(c) => Err(BatchReadError::Bytes(c)),
        Ok((None, p)) => Ok((None, p)),
        Ok((Some(b), p)) => {
            if b.len() == 0 {
                return Ok((None, p));
            }
            match RecordSet::parse_at(b, 0) {
                Err(_) => Err(BatchReadError::RecordSet),
                Ok((rs, _)) => {
                    if b.len() < 21 {
                        if rs.magic != 2 {
                            return Err(BatchReadError::Batch(BatchError::Version));
                        }
                        return Err(BatchReadError::Batch(BatchError::Corrupted));
                    }
                    match RecordBatch::verify(b, rs) {
                        Ok(batch) => Ok((Some(batch), p)),
                        Err(e) => Err(BatchReadError::Batch(e)),
                    }
                },
            }
        },
    }
}

/// Reads a record batch held in nullable bytes, as a field of a message:
/// `read_batch`, with every failure of the bytes inside (no record set, a
/// wrong magic byte, a wrong checksum) a committed parse failure.
pub fn record_batch<'i>(input: &'i [u8], pos: usize) -> (r: Result<(Option<OwnedRecordBatch<'i>>, usize), bool>)
    requires
        pos <= input@.len(),
    ensures
        agrees(r, parse_value(Schema::RecordBatch(Box::new(RecordSet::<'i>::schema())), input@, pos as int)),
        r matches Ok((_, p)) ==> pos <= p <= input@.len(),
{
    proof { RecordSet::<'i>::lemma_schema(); }
    match read_batch(input, pos) {
        Ok(x) => Ok(x),
        Err(BatchReadError::Bytes(c)) => Err(c),
        Err(_) => Err(true),
    }
}

/// The number of bytes of the variable-length encoding of `input`: its
/// length, then its bytes.
pub fn encode_var_bytes_space(input: &[u8]) -> (n: usize)
    requires
        input@.len() <= i32::MAX,
    ensures
        n == varint_bytes(input@.len() as int).len() + input@.len(),
{
    proof { crate::wire::lemma_varint_bytes_len(input@.len() as int); }
    required_space(input.len() as i32) + input.len()
}

/// Appends the variable-length length of `input`, then its bytes.
pub fn encode_var_bytes(input: &[u8], writer: &mut Vec<u8>)
    requires
        input@.len() <= i32::MAX,
    ensures
        final(writer)@ == old(writer)@ + varint_bytes(input@.len() as int) + input@,
{
    encode_var_i32(input.len() as i32, writer);
    put_bytes(writer, input);
}

/// Appends the variable-length count of `input`, then its elements.
pub fn encode_var_array<T: Encode>(input: &[T], writer: &mut Vec<u8>)
    requires
        input@.len() <= i32::MAX,
        forall|k: int| 0 <= k < input@.len() ==> wf_value(T::encode_schema(), #[trigger] input@[k].value()),
    ensures
        final(writer)@ == old(writer)@ + varint_bytes(input@.len() as int) + encode_list(
            T::encode_schema(),
            values_of(input@),
        ),
{
    let ghost e = T::encode_schema();
    let ghost vals = values_of(input@);
    encode_var_i32(input.len() as i32, writer);
    let ghost start = writer@;
    let mut i: usize = 0;
    proof {
        assert(vals.take(0) =~= Seq::<Value>::empty());
        assert(start =~= start + encode_list(e, vals.take(0)));
    }
    while i < input.len()
        invariant
            i <= input@.len(),
            vals == values_of(input@),
            e == T::encode_schema(),
            forall|k: int| 0 <= k < input@.len() ==> wf_value(T::encode_schema(), #[trigger] input@[k].value()),
            start == old(writer)@ + varint_bytes(input@.len() as int),
            writer@ == start + encode_list(e, vals.take(i as int)),
        decreases input@.len() - i,
    {
        proof {
            assert(vals[i as int] == input@[i as int].value());
            assert(vals.take(i + 1) =~= vals.take(i as int) + seq![vals[i as int]]);
            lemma_encode_list_append(e, vals.take(i as int), seq![vals[i as int]]);
            lemma_encode_list_one(e, vals[i as int]);
        }
        input[i].encode(writer);
        i = i + 1;
        assert(writer@ =~= start + encode_list(e, vals.take(i as int)));
    }
    assert(vals.take(i as int) =~= vals);
}

impl<'i> Encode for RecordHeader<'i> {
    open spec fn encode_schema() -> Schema {
        Schema::Struct(seq![Schema::VarStr, Schema::VarBytes])
    }

    #[verifier::spinoff_prover]
    fn encode_len(&self) -> (n: usize) {
        let ghost fs = seq![Schema::VarStr, Schema::VarBytes];
        proof {
            let vs = seq![self.key.value(), self.value.value()];
            assert(self.value() == Value::Fields(vs));
            assert(Self::encode_schema() == Schema::Struct(fs));
            assert(wf_value(Self::encode_schema(), self.value()));
            assert(wf_value(Schema::Struct(fs), Value::Fields(vs)));
            assert(encode_fields(fs, 2, vs) == Seq::<u8>::empty());
            assert(encode_fields(fs, 1, vs) == encode_value(fs[1], vs[1]) + encode_fields(fs, 2, vs));
            assert(encode_fields(fs, 0, vs) == encode_value(fs[0], vs[0]) + encode_fields(fs, 1, vs));
            assert(reported_fields(fs, 2, vs) == 0);
            assert(reported_fields(fs, 1, vs) == reported_len(fs[1], vs[1]) + reported_fields(fs, 2, vs));
            assert(reported_fields(fs, 0, vs) == reported_len(fs[0], vs[0]) + reported_fields(fs, 1, vs));
            assert(wf_value(fs[0], vs[0]));
            assert(wf_value(fs[1], vs[1]));
        }
        encode_var_bytes_space(self.key.as_bytes()) + encode_var_bytes_space(self.value)
    }

    #[verifier::spinoff_prover]
    fn encodable(&self) -> (b: bool) {
        let ghost fs = seq![Schema::VarStr, Schema::VarBytes];
        let ghost vs = seq![self.key.value(), self.value.value()];
        proof {
            vstd::utf8::encode_utf8_valid_utf8(self.key@);
            assert(valid_utf8(self.key.spec_bytes()));
            assert(self.key.value() == Value::Bytes(self.key.spec_bytes()));
            assert(self.value() == Value::Fields(vs));
            assert(Self::encode_schema() == Schema::Struct(fs));
        }
        let b = self.key.as_bytes().len() <= 2147483647 && self.value.len() <= 2147483647;
        proof {
            if b {
                assert(wf_value(fs[0], vs[0]));
                assert(wf_value(fs[1], vs[1]));
                assert forall|k: int| 0 <= k < vs.len() implies wf_value(fs[k], #[trigger] vs[k]) by {
                    if k == 0 {} else {}
                }
            } else {
                if wf_value(Schema::Struct(fs), Value::Fields(vs)) {
                    assert(wf_value(fs[0], vs[0]));
                    assert(wf_value(fs[1], vs[1]));
                }
            }
        }
        b
    }

    #[verifier::spinoff_prover]
    fn encode(&self, writer: &mut Vec<u8>) {
        let ghost fs = seq![Schema::VarStr, Schema::VarBytes];
        proof {
            let vs = seq![self.key.value(), self.value.value()];
            assert(self.value() == Value::Fields(vs));
            assert(Self::encode_schema() == Schema::Struct(fs));
            assert(wf_value(Self::encode_schema(), self.value()));
            assert(wf_value(Schema::Struct(fs), Value::Fields(vs)));
            assert(encode_fields(fs, 2, vs) == Seq::<u8>::empty());
            assert(encode_fields(fs, 1, vs) == encode_value(fs[1], vs[1]) + encode_fields(fs, 2, vs));
            assert(encode_fields(fs, 0, vs) == encode_value(fs[0], vs[0]) + encode_fields(fs, 1, vs));
            assert(wf_value(fs[0], vs[0]));
            assert(wf_value(fs[1], vs[1]));
        }
        encode_var_bytes(self.key.as_bytes(), writer);
        encode_var_bytes(self.value, writer);
        assert(writer@ =~= old(writer)@ + encode_value(Self::encode_schema(), self.value()));
    }
}

/// The fields of a record as they are written after its length.
pub open spec fn record_body_fields() -> Seq<Schema> {
    seq![Schema::I8, Schema::VarInt, Schema::VarInt, Schema::VarBytes, Schema::VarBytes, Schema::VarArray(Box::new(Schema::Struct(seq![Schema::VarStr, Schema::VarBytes])))]
}

/// The bytes of a record after its length.
pub open spec fn record_body(r: Value) -> Seq<u8> {
    encode_value(Schema::Struct(record_body_fields()), r)
}

impl<'i> Record<'i> {
    /// The record can be written: its fields fit their encodings and its
    /// length fits an `i32`.
    pub open spec fn wf(&self) -> bool {
        wf_value(Schema::Struct(record_body_fields()), self.value()) && record_body(self.value()).len()
            <= i32::MAX
    }

    proof fn lemma_body(&self)
        ensures
            record_body(self.value()) == int_bytes(self.attributes as int, 1) + varint_bytes(
                self.timestamp_delta as int,
            ) + varint_bytes(self.offset_delta as int) + (varint_bytes(self.key@.len() as int)
                + self.key@) + (varint_bytes(self.value@.len() as int) + self.value@) + (
            varint_bytes(self.headers@.len() as int) + encode_list(
                Schema::Struct(seq![Schema::VarStr, Schema::VarBytes]),
                values_of(self.headers@),
            )),
            wf_value(Schema::Struct(record_body_fields()), self.value()) ==> {
                &&& self.key@.len() <= i32::MAX
                &&& self.value@.len() <= i32::MAX
                &&& self.headers@.len() <= i32::MAX
                &&& forall|k: int| 0 <= k < self.headers@.len() ==> wf_value(
                    Schema::Struct(seq![Schema::VarStr, Schema::VarBytes]),
                    #[trigger] self.headers@[k].value(),
                )
            },
    {
        let fs = record_body_fields();
        let vs = seq![self.attributes.value(), self.timestamp_delta.value(), self.offset_delta.value(), self.key.value(), self.value.value(), self.headers.value()];
        assert(encode_fields(fs, 6, vs) == Seq::<u8>::empty());
        assert(encode_fields(fs, 5, vs) == encode_value(fs[5], vs[5]) + encode_fields(fs, 6, vs));
        assert(encode_fields(fs, 4, vs) == encode_value(fs[4], vs[4]) + encode_fields(fs, 5, vs));
        assert(encode_fields(fs, 3, vs) == encode_value(fs[3], vs[3]) + encode_fields(fs, 4, vs));
        assert(encode_fields(fs, 2, vs) == encode_value(fs[2], vs[2]) + encode_fields(fs, 3, vs));
        assert(encode_fields(fs, 1, vs) == encode_value(fs[1], vs[1]) + encode_fields(fs, 2, vs));
        assert(encode_fields(fs, 0, vs) == encode_value(fs[0], vs[0]) + encode_fields(fs, 1, vs));
        assert(encode_fields(fs, 0, vs) =~= encode_value(fs[0], vs[0]) + encode_value(fs[1], vs[1])
            + encode_value(fs[2], vs[2]) + encode_value(fs[3], vs[3]) + encode_value(fs[4], vs[4])
            + encode_value(fs[5], vs[5]));
        if wf_value(Schema::Struct(record_body_fields()), self.value()) {
            assert(wf_value(fs[3], vs[3]));
            assert(wf_value(fs[4], vs[4]));
            assert(wf_value(fs[5], vs[5]));
            assert forall|k: int| 0 <= k < self.headers@.len() implies wf_value(
                Schema::Struct(seq![Schema::VarStr, Schema::VarBytes]),
                #[trigger] self.headers@[k].value(),
            ) by {
                assert(values_of(self.headers@)[k] == self.headers@[k].value());
            }
        }
    }

    /// The number of bytes of the record after its length (the length itself
    /// is not counted).
    pub fn encode_len(&self) -> (n: usize)
        requires
            self.wf(),
        ensures
            n == record_body(self.value()).len(),
    {
        proof {
            self.lemma_body();
            lemma_int_bytes_len(self.attributes as int, 1);
        }
        let ghost hs = Schema::Struct(seq![Schema::VarStr, Schema::VarBytes]);
        let ghost vals = values_of(self.headers@);
        let mut headers_len: usize = 0;
        let mut i: usize = 0;
        proof {
            assert(vals.take(0) =~= Seq::<Value>::empty());
            assert(vals.take(0) + vals.skip(0) =~= vals);
            lemma_encode_list_append(hs, vals.take(0), vals.skip(0));
            let hfs = seq![Schema::VarStr, Schema::VarBytes];
            assert(no_batch(hs)) by {
                assert forall|k: int| 0 <= k < hfs.len() implies no_batch(#[trigger] hfs[k]) by {
                    if k == 0 {} else {}
                }
            }
        }
        while i < self.headers.len()
            invariant
                i <= self.headers@.len(),
                vals == values_of(self.headers@),
                hs == Schema::Struct(seq![Schema::VarStr, Schema::VarBytes]),
                no_batch(hs),
                forall|k: int| 0 <= k < self.headers@.len() ==> wf_value(hs, #[trigger] self.headers@[k].value()),
                encode_list(hs, vals).len() <= i32::MAX,
                headers_len == encode_list(hs, vals.take(i as int)).len(),
            decreases self.headers@.len() - i,
        {
            proof {
                assert(vals[i as int] == self.headers@[i as int].value());
                assert(vals.take(i + 1) =~= vals.take(i as int) + seq![vals[i as int]]);
                lemma_encode_list_append(hs, vals.take(i as int), seq![vals[i as int]]);
                lemma_encode_list_one(hs, vals[i as int]);
                assert(vals.take(i + 1) + vals.skip(i + 1) =~= vals);
                lemma_encode_list_append(hs, vals.take(i + 1), vals.skip(i + 1));
                crate::wire::lemma_reported_len(hs, vals[i as int]);
            }
            let k = self.headers[i].encode_len();
            headers_len = headers_len + k;
            i = i + 1;
        }
        assert(vals.take(i as int) =~= vals);
        1 + required_space(self.timestamp_delta) + required_space(self.offset_delta)
            + encode_var_bytes_space(self.key) + encode_var_bytes_space(self.value) + required_space(
            self.headers.len() as i32,
        ) + headers_len
    }

    /// Whether the record can be written: its key, value and headers fit
    /// their length prefixes, and so does the length of its body.
    #[verifier::spinoff_prover]
    pub fn can_write(&self) -> (b: bool)
        ensures
            b == self.wf(),
    {
        let ghost hfs = seq![Schema::VarStr, Schema::VarBytes];
        let ghost hs = Schema::Struct(hfs);
        let ghost vals = values_of(self.headers@);
        let ghost rbf = record_body_fields();
        let ghost xs = seq![self.attributes.value(), self.timestamp_delta.value(), self.offset_delta.value(), self.key.value(), self.value.value(), self.headers.value()];
        proof {
            self.lemma_body();
            lemma_pow256_values();
            lemma_int_bytes_len(self.attributes as int, 1);
            assert(self.value() == Value::Fields(xs));
        }
        if self.key.len() > 2147483647 || self.value.len() > 2147483647 || self.headers.len() > 2147483647 {
            return false;
        }
        proof {
            crate::wire::lemma_varint_bytes_len(self.key@.len() as int);
            crate::wire::lemma_varint_bytes_len(self.value@.len() as int);
            crate::wire::lemma_varint_bytes_len(self.headers@.len() as int);
            crate::wire::lemma_varint_bytes_len(self.timestamp_delta as int);
            crate::wire::lemma_varint_bytes_len(self.offset_delta as int);
        }
        let mut total: u64 = 1u64 + required_space(self.timestamp_delta) as u64 + required_space(self.offset_delta) as u64
            + encode_var_bytes_space(self.key) as u64 + encode_var_bytes_space(self.value) as u64 + required_space(
            self.headers.len() as i32,
        ) as u64;
        let ghost base = total as int;
        proof {
            assert(vals.take(0) =~= Seq::<Value>::empty());
            assert(record_body(self.value()).len() == base + encode_list(hs, vals).len());
        }
        let mut i: usize = 0;
        while i < self.headers.len()
            invariant
                i <= self.headers@.len(),
                vals == values_of(self.headers@),
                hs == Schema::Struct(hfs),
                hfs == seq![Schema::VarStr, Schema::VarBytes],
                base <= 1 + 10 + 10 + 2 * (2147483647 + 10) + 10,
                total == base + encode_list(hs, vals.take(i as int)).len(),
                total <= 2147483647 + 2 * (2147483647 + 10) + 10,
                record_body(self.value()).len() == base + encode_list(hs, vals).len(),
                self.headers@.len() <= i32::MAX,
                forall|k: int| 0 <= k < i ==> wf_value(hs, #[trigger] vals[k]),
            decreases self.headers@.len() - i,
        {
            proof {
                assert(vals.take(i as int) + vals.skip(i as int) =~= vals);
                lemma_encode_list_append(hs, vals.take(i as int), vals.skip(i as int));
            }
            if total > 2147483647 {
                return false;
            }
            let h = &self.headers[i];
            proof {
                assert(vals[i as int] == h.value());
            }
            if !h.encodable() {
                proof {
                    self.lemma_body();
                    if self.wf() {
                        assert(wf_value(hs, self.headers@[i as int].value()));
                    }
                }
                return false;
            }
            proof {
                let hv = seq![h.key.value(), h.value.value()];
                assert(h.value() == Value::Fields(hv));
                assert(wf_value(hfs[0], hv[0]));
                assert(wf_value(hfs[1], hv[1]));
                crate::wire::lemma_varint_bytes_len(h.key.spec_bytes().len() as int);
                crate::wire::lemma_varint_bytes_len(h.value@.len() as int);
            }
            let kl = encode_var_bytes_space(h.key.as_bytes()) as u64;
            let vl = encode_var_bytes_space(h.value) as u64;
            proof {
                let hv = seq![h.key.value(), h.value.value()];
                assert(h.value() == Value::Fields(hv));
                assert(encode_fields(hfs, 2, hv) == Seq::<u8>::empty());
                assert(encode_fields(hfs, 1, hv) == encode_value(hfs[1], hv[1]) + encode_fields(hfs, 2, hv));
                assert(encode_fields(hfs, 0, hv) == encode_value(hfs[0], hv[0]) + encode_fields(hfs, 1, hv));
                assert(vals.take(i + 1) =~= vals.take(i as int) + seq![vals[i as int]]);
                lemma_encode_list_append(hs, vals.take(i as int), seq![vals[i as int]]);
                lemma_encode_list_one(hs, vals[i as int]);
            }
            total = total + kl + vl;
            i = i + 1;
        }
        proof {
            assert(vals.take(i as int) =~= vals);
            if total <= 2147483647 {
                assert forall|k: int| 0 <= k < xs.len() implies wf_value(rbf[k], #[trigger] xs[k]) by {
                    if k == 5 {
                        assert forall|j: int| 0 <= j < vals.len() implies wf_value(hs, #[trigger] vals[j]) by {}
                    } else {
                    }
                }
            }
        }
        total <= 2147483647
    }

    /// Appends the record: its length, then its fields.
    pub fn encode(&self, writer: &mut Vec<u8>)
        requires
            self.wf(),
        ensures
            final(writer)@ == old(writer)@ + varint_bytes(record_body(self.value()).len() as int)
                + record_body(self.value()),
    {
        proof {
            self.lemma_body();
            lemma_pow256_values();
        }
        let length = self.encode_len() as i32;
        encode_var_i32(length, writer);
        put_int(writer, self.attributes as i64, 1);
        encode_var_i32(self.timestamp_delta, writer);
        encode_var_i32(self.offset_delta, writer);
        encode_var_bytes(self.key, writer);
        encode_var_bytes(self.value, writer);
        encode_var_array(self.headers.as_slice(), writer);
        assert(writer@ =~= old(writer)@ + varint_bytes(record_body(self.value()).len() as int)
            + record_body(self.value()));
    }
}


/// A record as a batch holds it: the length of its body, then its body.
pub open spec fn record_bytes(r: Value) -> Seq<u8> {
    varint_bytes(record_body(r).len() as int) + record_body(r)
}

/// The records one after the other, each with its length in front.
pub open spec fn records_bytes(rs: Seq<Value>) -> Seq<u8>
    decreases rs.len(),
{
    if rs.len() == 0 {
        Seq::empty()
    } else {
        record_bytes(rs[0]) + records_bytes(rs.drop_first())
    }
}

/// The lengths of the bodies of the records, summed.
pub open spec fn bodies_total(rs: Seq<Value>) -> nat
    decreases rs.len(),
{
    if rs.len() == 0 {
        0
    } else {
        record_body(rs[0]).len() + bodies_total(rs.drop_first())
    }
}

impl<'i> RecordBatch<Vec<Record<'i>>> {
    /// The part of the written batch that its checksum covers: attributes,
    /// last offset delta, first and max timestamps, producer id and epoch,
    /// base sequence, the number of records and the records.
    pub open spec fn tail_bytes(&self) -> Seq<u8> {
        int_bytes(self.attributes as int, 2) + int_bytes(self.last_offset_delta as int, 4) + int_bytes(
            self.first_timestamp as int,
            8,
        ) + int_bytes(self.max_timestamp as int, 8) + int_bytes(self.producer_id as int, 8) + int_bytes(
            self.producer_epoch as int,
            2,
        ) + int_bytes(self.base_sequence as int, 4) + int_bytes(self.records@.len() as int, 4)
            + records_bytes(values_of(self.records@))
    }

    /// The batch as written: base offset, batch length (the number of bytes
    /// after it), leader epoch, magic byte 2, the CRC-32C of the checksummed
    /// part, then that part.
    pub open spec fn bytes(&self) -> Seq<u8> {
        let tail = self.tail_bytes();
        int_bytes(self.base_offset as int, 8) + int_bytes((9 + tail.len()) as int, 4) + int_bytes(
            self.partition_leader_epoch as int,
            4,
        ) + int_bytes(2, 1) + int_bytes(to_signed(crc32c(tail) as nat, 4), 4) + tail
    }

    /// The batch can be written: every record can, and the count of records
    /// and the batch length fit an `i32`.
    pub open spec fn wf(&self) -> bool {
        &&& self.records@.len() <= i32::MAX
        &&& forall|k: int| 0 <= k < self.records@.len() ==> (#[trigger] self.records@[k]).wf()
        &&& 21 + self.tail_bytes().len() <= i32::MAX
    }
}

/// Encoding fields from `i + 1` on, after a first value `y`, is encoding the
/// remaining fields from `i` on.
proof fn lemma_fields_shift(fs: Seq<Schema>, i: int, y: Value, xs: Seq<Value>)
    requires
        0 <= i,
        fs.len() >= 1,
    ensures
        encode_fields(fs, i + 1, seq![y] + xs) == encode_fields(fs.drop_first(), i, xs),
    decreases fs.len() - i,
{
    let ys = seq![y] + xs;
    let gs = fs.drop_first();
    if i + 1 < fs.len() && i < xs.len() {
        assert(ys[i + 1] == xs[i]);
        assert(fs[i + 1] == gs[i]);
        assert(encode_fields(fs, i + 1, ys) == encode_value(fs[i + 1], ys[i + 1]) + encode_fields(fs, i + 2, ys));
        assert(encode_fields(gs, i, xs) == encode_value(gs[i], xs[i]) + encode_fields(gs, i + 1, xs));
        lemma_fields_shift(fs, i + 1, y, xs);
    } else {
        assert(encode_fields(fs, i + 1, ys) == Seq::<u8>::empty());
        assert(encode_fields(gs, i, xs) == Seq::<u8>::empty());
    }
}

/// A record stored with its length in front: its body, its bytes, what
/// reading it back gives, and when it can be written.
proof fn lemma_stored_record(r: Value)
    requires
        r is Fields,
    ensures
        body_of(StoredRecord::fields(), r) == record_body(r),
        encode_value(Schema::Struct(StoredRecord::fields()), full_record_of(StoredRecord::fields(), r))
            == record_bytes(r),
        record_view(full_record_of(StoredRecord::fields(), r)) == r,
        wf_value(Schema::Struct(StoredRecord::fields()), full_record_of(StoredRecord::fields(), r)) <==> (
        wf_value(Schema::Struct(record_body_fields()), r) && record_body(r).len() <= i32::MAX),
{
    let rfs = StoredRecord::fields();
    let rbf = record_body_fields();
    assert(rfs.drop_first() =~= rbf);
    let xs = fields_of(r);
    assert(r == Value::Fields(xs));
    let l = record_body(r).len() as int;
    let ys = seq![Value::Int(l)] + xs;
    lemma_fields_shift(rfs, 0, Value::Int(0), xs);
    lemma_fields_shift(rfs, 0, Value::Int(l), xs);
    assert(ys[0] == Value::Int(l));
    assert(encode_fields(rfs, 0, ys) == encode_value(rfs[0], ys[0]) + encode_fields(rfs, 1, ys));
    assert(ys.drop_first() =~= xs);
    lemma_pow256_values();
    if wf_value(Schema::Struct(rfs), Value::Fields(ys)) {
        assert forall|k: int| 0 <= k < xs.len() implies wf_value(rbf[k], #[trigger] xs[k]) by {
            assert(ys[k + 1] == xs[k]);
            assert(wf_value(rfs[k + 1], ys[k + 1]));
        }
        assert(wf_value(rfs[0], ys[0]));
    }
    if wf_value(Schema::Struct(rbf), r) && l <= i32::MAX {
        assert forall|k: int| 0 <= k < ys.len() implies wf_value(rfs[k], #[trigger] ys[k]) by {
            if k > 0 {
                assert(ys[k] == xs[k - 1]);
                assert(wf_value(rbf[k - 1], xs[k - 1]));
            }
        }
    }
}

/// The records `rs` stored with their lengths: one for one, written as
/// `records_bytes`, and read back as `rs`.
proof fn lemma_full_records(rs: Seq<Value>)
    requires
        forall|k: int| 0 <= k < rs.len() ==> #[trigger] rs[k] is Fields,
    ensures
        full_records(StoredRecord::fields(), rs).len() == rs.len(),
        forall|k: int| 0 <= k < rs.len() ==> #[trigger] full_records(StoredRecord::fields(), rs)[k]
            == full_record_of(StoredRecord::fields(), rs[k]),
        encode_list(Schema::Struct(StoredRecord::fields()), full_records(StoredRecord::fields(), rs))
            == records_bytes(rs),
        bodies_len(StoredRecord::fields(), rs) == bodies_total(rs),
        full_records(StoredRecord::fields(), rs).map_values(|r: Value| record_view(r)) == rs,
    decreases rs.len(),
{
    let rfs = StoredRecord::fields();
    let frs = full_records(rfs, rs);
    if rs.len() > 0 {
        let rest = rs.drop_first();
        assert forall|k: int| 0 <= k < rest.len() implies #[trigger] rest[k] is Fields by {
            assert(rest[k] == rs[k + 1]);
        }
        lemma_full_records(rest);
        lemma_stored_record(rs[0]);
        assert(frs.drop_first() =~= full_records(rfs, rest));
        assert forall|k: int| 0 <= k < rs.len() implies #[trigger] frs[k] == full_record_of(rfs, rs[k]) by {
            if k > 0 {
                assert(frs[k] == frs.drop_first()[k - 1]);
                assert(rs[k] == rest[k - 1]);
            }
        }
        assert forall|k: int| 0 <= k < rs.len() implies #[trigger] record_view(frs[k]) == rs[k] by {
            lemma_stored_record(rs[k]);
        }
    }
    assert(frs.map_values(|r: Value| record_view(r)) =~= rs);
}

impl<'i> RecordSet<'i> {
    /// A record set held in nullable bytes, read as a batch.
    pub open spec fn batch_schema() -> Schema {
        Schema::RecordBatch(Box::new(Self::schema()))
    }

    /// The record set schema is the one that record batches hold.
    pub proof fn lemma_schema()
        ensures
            Self::fields() == record_set_fields(),
            Self::schema() == Schema::Struct(record_set_fields()),
            StoredRecord::<'i>::fields() == stored_record_fields(),
            Header::<'i>::fields() == header_fields(),
    {
        assert(Header::<'i>::fields() =~= header_fields());
        assert(StoredRecord::<'i>::fields() =~= stored_record_fields());
        assert(Self::fields() =~= record_set_fields());
    }
}

impl<R> RecordBatch<R> {
    /// The compression of the batch's records: the low three bits of its
    /// attributes (0 none, 1 gzip, 2 snappy, 3 lz4, 4 zstd).
    pub fn compression(&self) -> (c: i16)
        ensures
            c == self.attributes & 7,
            0 <= c <= 7,
    {
        let a = self.attributes;
        assert(0 <= a & 7 <= 7) by (bit_vector);
        a & 7
    }
}

impl<'i> RecordBatch<Vec<Record<'i>>> {
    /// The written batch is its fixed fields and the checksummed part.
    proof fn lemma_bytes_len(&self)
        ensures
            self.bytes().len() == 21 + self.tail_bytes().len(),
    {
        let tail = self.tail_bytes();
        lemma_int_bytes_len(self.base_offset as int, 8);
        lemma_int_bytes_len((9 + tail.len()) as int, 4);
        lemma_int_bytes_len(self.partition_leader_epoch as int, 4);
        lemma_int_bytes_len(2, 1);
        lemma_int_bytes_len(to_signed(crc32c(tail) as nat, 4), 4);
    }

    /// The record values of the batch are records.
    proof fn lemma_record_values(&self)
        ensures
            forall|k: int| 0 <= k < values_of(self.records@).len() ==> #[trigger] values_of(self.records@)[k]
                is Fields,
    {
        assert forall|k: int| 0 <= k < values_of(self.records@).len() implies #[trigger] values_of(
            self.records@,
        )[k] is Fields by {
            assert(values_of(self.records@)[k] == self.records@[k].value());
        }
    }

    /// The checksummed part of the stored record set, whatever batch length
    /// and checksum it is stored with.
    #[verifier::spinoff_prover]
    proof fn lemma_tail(&self, bl: int, crc: int)
        ensures
            encode_fields(RecordSet::<'i>::fields(), 5, fields_of(stored_set(RecordSet::<'i>::fields(), self.value(), bl, crc)))
                == self.tail_bytes(),
    {
        let fs = RecordSet::<'i>::fields();
        let rs = values_of(self.records@);
        self.lemma_record_values();
        lemma_full_records(rs);
        let vs = fields_of(stored_set(fs, self.value(), bl, crc));
        assert(encode_fields(fs, 13, vs) == Seq::<u8>::empty());
        assert(encode_fields(fs, 12, vs) == encode_value(fs[12], vs[12]) + encode_fields(fs, 13, vs));
        assert(encode_fields(fs, 11, vs) == encode_value(fs[11], vs[11]) + encode_fields(fs, 12, vs));
        assert(encode_fields(fs, 10, vs) == encode_value(fs[10], vs[10]) + encode_fields(fs, 11, vs));
        assert(encode_fields(fs, 9, vs) == encode_value(fs[9], vs[9]) + encode_fields(fs, 10, vs));
        assert(encode_fields(fs, 8, vs) == encode_value(fs[8], vs[8]) + encode_fields(fs, 9, vs));
        assert(encode_fields(fs, 7, vs) == encode_value(fs[7], vs[7]) + encode_fields(fs, 8, vs));
        assert(encode_fields(fs, 6, vs) == encode_value(fs[6], vs[6]) + encode_fields(fs, 7, vs));
        assert(encode_fields(fs, 5, vs) == encode_value(fs[5], vs[5]) + encode_fields(fs, 6, vs));
        assert(encode_fields(fs, 5, vs) =~= self.tail_bytes());
    }

    /// The generic encoding of the batch, its length report and its
    /// well-formedness, in the terms of this type.
    #[verifier::spinoff_prover]
    #[verifier::rlimit(30)]
    proof fn lemma_bytes(&self)
        ensures
            batch_tail(RecordSet::<'i>::fields(), self.value()) == self.tail_bytes(),
            encode_fields(RecordSet::<'i>::fields(), 0, fields_of(written_set(RecordSet::<'i>::fields(), self.value())))
                == self.bytes(),
            reported_len(RecordSet::<'i>::batch_schema(), self.value()) == 65 + bodies_total(
                values_of(self.records@),
            ),
    {
        let fs = RecordSet::<'i>::fields();
        let rfs = StoredRecord::<'i>::fields();
        let v = self.value();
        let rs = values_of(self.records@);
        self.lemma_record_values();
        lemma_full_records(rs);
        self.lemma_tail(0, 0);
        let tail = self.tail_bytes();
        let crc = to_signed(crc32c(tail) as nat, 4);
        let bl = (9 + tail.len()) as int;
        self.lemma_tail(bl, crc);
        let vs = fields_of(written_set(fs, v));
        assert(encode_fields(fs, 4, vs) == encode_value(fs[4], vs[4]) + encode_fields(fs, 5, vs));
        assert(encode_fields(fs, 3, vs) == encode_value(fs[3], vs[3]) + encode_fields(fs, 4, vs));
        assert(encode_fields(fs, 2, vs) == encode_value(fs[2], vs[2]) + encode_fields(fs, 3, vs));
        assert(encode_fields(fs, 1, vs) == encode_value(fs[1], vs[1]) + encode_fields(fs, 2, vs));
        assert(encode_fields(fs, 0, vs) == encode_value(fs[0], vs[0]) + encode_fields(fs, 1, vs));
        assert(encode_fields(fs, 0, vs) =~= self.bytes());
    }

    /// The batch is well-formed as a protocol value exactly when it can be
    /// written.
    #[verifier::spinoff_prover]
    #[verifier::rlimit(30)]
    proof fn lemma_wf(&self)
        ensures
            wf_value(RecordSet::<'i>::batch_schema(), self.value()) <==> self.wf(),
    {
        let fs = RecordSet::<'i>::fields();
        let rfs = StoredRecord::<'i>::fields();
        let v = self.value();
        let rs = values_of(self.records@);
        self.lemma_record_values();
        lemma_full_records(rs);
        self.lemma_tail(0, 0);
        let tail = self.tail_bytes();
        let vs = fields_of(written_set(fs, v));
        lemma_pow256_values();
        crate::wire::lemma_u32_signed(crc32c(tail));
        let frs = full_records(rfs, rs);
        assert(written_set(fs, v) == Value::Fields(vs));
        assert(vs[12] == Value::List(frs));
        assert(batch_tail(fs, v) == tail);
        if wf_value(RecordSet::<'i>::batch_schema(), v) {
            assert(wf_value(Schema::Struct(fs), written_set(fs, v)));
            assert(wf_value(fs[12], vs[12]));
            assert forall|k: int| 0 <= k < self.records@.len() implies (#[trigger] self.records@[k]).wf() by {
                assert(rs[k] == self.records@[k].value());
                assert(wf_value(Schema::Struct(rfs), frs[k]));
                lemma_stored_record(rs[k]);
            }
        }
        if self.wf() {
            assert forall|k: int| 0 <= k < frs.len() implies wf_value(Schema::Struct(rfs), #[trigger] frs[k]) by {
                assert(rs[k] == self.records@[k].value());
                assert(self.records@[k].wf());
                lemma_stored_record(rs[k]);
            }
            assert(wf_value(fs[12], vs[12]));
            assert forall|k: int| 0 <= k < vs.len() implies wf_value(fs[k], #[trigger] vs[k]) by {
                if k == 12 {
                } else {
                }
            }
            assert(wf_value(Schema::Struct(fs), written_set(fs, v)));
        }
    }
}


/// Writing records one after the other is writing each.
proof fn lemma_records_bytes_append(a: Seq<Value>, b: Seq<Value>)
    ensures
        records_bytes(a + b) == records_bytes(a) + records_bytes(b),
        bodies_total(a + b) == bodies_total(a) + bodies_total(b),
    decreases a.len(),
{
    if a.len() == 0 {
        assert(a + b =~= b);
        assert(records_bytes(a) + records_bytes(b) =~= records_bytes(b));
    } else {
        assert((a + b).drop_first() =~= a.drop_first() + b);
        assert((a + b)[0] == a[0]);
        lemma_records_bytes_append(a.drop_first(), b);
        assert(records_bytes(a + b) =~= records_bytes(a) + records_bytes(b));
    }
}

proof fn lemma_records_bytes_one(r: Value)
    ensures
        records_bytes(seq![r]) == record_bytes(r),
        bodies_total(seq![r]) == record_body(r).len(),
{
    assert(seq![r].drop_first() =~= Seq::<Value>::empty());
    assert(seq![r][0] == r);
    assert(records_bytes(Seq::<Value>::empty()) == Seq::<u8>::empty());
    assert(bodies_total(Seq::<Value>::empty()) == 0);
    assert(records_bytes(seq![r]) =~= record_bytes(r) + Seq::<u8>::empty());
}

/// The bodies take no more room than the records written with their lengths.
proof fn lemma_bodies_bound(rs: Seq<Value>)
    ensures
        bodies_total(rs) <= records_bytes(rs).len(),
    decreases rs.len(),
{
    if rs.len() > 0 {
        lemma_bodies_bound(rs.drop_first());
    }
}

/// Appends the number of records as an `i32`, then each record with its
/// length in front.
fn encode_records<'i>(records: &Vec<Record<'i>>, writer: &mut Vec<u8>)
    requires
        records@.len() <= i32::MAX,
        forall|k: int| 0 <= k < records@.len() ==> (#[trigger] records@[k]).wf(),
    ensures
        final(writer)@ == old(writer)@ + int_bytes(records@.len() as int, 4) + records_bytes(
            values_of(records@),
        ),
{
    let ghost vals = values_of(records@);
    put_int(writer, records.len() as i64, 4);
    let ghost start = writer@;
    let mut i: usize = 0;
    proof {
        assert(vals.take(0) =~= Seq::<Value>::empty());
        assert(start =~= start + records_bytes(vals.take(0)));
    }
    while i < records.len()
        invariant
            i <= records@.len(),
            vals == values_of(records@),
            forall|k: int| 0 <= k < records@.len() ==> (#[trigger] records@[k]).wf(),
            start == old(writer)@ + int_bytes(records@.len() as int, 4),
            writer@ == start + records_bytes(vals.take(i as int)),
        decreases records@.len() - i,
    {
        proof {
            assert(vals[i as int] == records@[i as int].value());
            assert(vals.take(i + 1) =~= vals.take(i as int) + seq![vals[i as int]]);
            lemma_records_bytes_append(vals.take(i as int), seq![vals[i as int]]);
            lemma_records_bytes_one(vals[i as int]);
        }
        records[i].encode(writer);
        i = i + 1;
        assert(writer@ =~= start + records_bytes(vals.take(i as int)));
    }
    assert(vals.take(i as int) =~= vals);
}

impl<'i> RecordBatch<Vec<Record<'i>>> {
    /// The number of bytes of the batch after its length: its fixed fields,
    /// the record count, and the record bodies (their lengths not counted).
    pub fn encode_len(&self) -> (n: usize)
        requires
            self.wf(),
        ensures
            n == 61 + bodies_total(values_of(self.records@)),
    {
        let ghost vals = values_of(self.records@);
        proof {
            lemma_bodies_bound(vals);
            assert(vals.take(0) =~= Seq::<Value>::empty());
        }
        let mut total: usize = 0;
        let mut i: usize = 0;
        while i < self.records.len()
            invariant
                i <= self.records@.len(),
                vals == values_of(self.records@),
                forall|k: int| 0 <= k < self.records@.len() ==> (#[trigger] self.records@[k]).wf(),
                bodies_total(vals) <= i32::MAX,
                total == bodies_total(vals.take(i as int)),
            decreases self.records@.len() - i,
        {
            proof {
                assert(vals[i as int] == self.records@[i as int].value());
                assert(vals.take(i + 1) =~= vals.take(i as int) + seq![vals[i as int]]);
                lemma_records_bytes_append(vals.take(i as int), seq![vals[i as int]]);
                lemma_records_bytes_one(vals[i as int]);
                assert(vals.take(i + 1) + vals.skip(i + 1) =~= vals);
                lemma_records_bytes_append(vals.take(i + 1), vals.skip(i + 1));
            }
            let k = self.records[i].encode_len();
            total = total + k;
            i = i + 1;
        }
        assert(vals.take(i as int) =~= vals);
        8 + 4 + 4 + 1 + 4 + 2 + 4 + 8 + 8 + 8 + 2 + 4 + (4 + total)
    }

    /// Whether the batch can be written: every record can, and the count of
    /// records and the batch length fit an `i32`.
    pub fn can_write(&self) -> (b: bool)
        ensures
            b == self.wf(),
    {
        let ghost vals = values_of(self.records@);
        if self.records.len() > 2147483647 {
            return false;
        }
        proof {
            lemma_int_bytes_len(self.attributes as int, 2);
            lemma_int_bytes_len(self.last_offset_delta as int, 4);
            lemma_int_bytes_len(self.first_timestamp as int, 8);
            lemma_int_bytes_len(self.max_timestamp as int, 8);
            lemma_int_bytes_len(self.producer_id as int, 8);
            lemma_int_bytes_len(self.producer_epoch as int, 2);
            lemma_int_bytes_len(self.base_sequence as int, 4);
            lemma_int_bytes_len(self.records@.len() as int, 4);
            assert(self.tail_bytes().len() == 40 + records_bytes(vals).len());
            assert(vals.take(0) =~= Seq::<Value>::empty());
        }
        let mut total: u64 = 40;
        let mut i: usize = 0;
        while i < self.records.len()
            invariant
                i <= self.records@.len(),
                vals == values_of(self.records@),
                self.records@.len() <= i32::MAX,
                self.tail_bytes().len() == 40 + records_bytes(vals).len(),
                total == 40 + records_bytes(vals.take(i as int)).len(),
                total <= 2147483647 + 2147483647 + 10,
                forall|k: int| 0 <= k < i ==> (#[trigger] self.records@[k]).wf(),
            decreases self.records@.len() - i,
        {
            proof {
                assert(vals.take(i as int) + vals.skip(i as int) =~= vals);
                lemma_records_bytes_append(vals.take(i as int), vals.skip(i as int));
            }
            if total > 2147483647 - 21 {
                return false;
            }
            if !self.records[i].can_write() {
                return false;
            }
            let n = self.records[i].encode_len();
            proof {
                assert(vals[i as int] == self.records@[i as int].value());
                assert(vals.take(i + 1) =~= vals.take(i as int) + seq![vals[i as int]]);
                lemma_records_bytes_append(vals.take(i as int), seq![vals[i as int]]);
                lemma_records_bytes_one(vals[i as int]);
                crate::wire::lemma_varint_bytes_len(n as int);
            }
            total = total + required_space(n as i32) as u64 + n as u64;
            i = i + 1;
        }
        proof {
            assert(vals.take(i as int) =~= vals);
        }
        total + 21 <= 2147483647
    }

    /// Appends the batch (after its length): the batch length and checksum
    /// are filled in once the rest is written.
    pub fn encode(&self, writer: &mut Vec<u8>)
        requires
            self.wf(),
        ensures
            final(writer)@ == old(writer)@ + self.bytes(),
    {
        let ghost w0 = writer@;
        proof {
            lemma_pow256_values();
            lemma_int_bytes_len(self.base_offset as int, 8);
            lemma_int_bytes_len(0, 4);
            lemma_int_bytes_len(self.partition_leader_epoch as int, 4);
            lemma_int_bytes_len(2, 1);
        }
        put_int(writer, self.base_offset, 8);
        let batch_length_reservation = reserve(writer);
        assert(batch_length_reservation.pos() == w0.len() + 8);
        put_int(writer, self.partition_leader_epoch as i64, 4);
        put_int(writer, 2, 1);
        let crc_reservation = reserve(writer);
        assert(crc_reservation.pos() == w0.len() + 17);
        let ghost w_head = writer@;
        assert(w_head =~= w0 + int_bytes(self.base_offset as int, 8) + int_bytes(0, 4) + int_bytes(
            self.partition_leader_epoch as int,
            4,
        ) + int_bytes(2, 1) + int_bytes(0, 4));
        put_int(writer, self.attributes as i64, 2);
        put_int(writer, self.last_offset_delta as i64, 4);
        put_int(writer, self.first_timestamp, 8);
        put_int(writer, self.max_timestamp, 8);
        put_int(writer, self.producer_id, 8);
        put_int(writer, self.producer_epoch as i64, 2);
        put_int(writer, self.base_sequence as i64, 4);
        encode_records(&self.records, writer);
        let ghost tail = self.tail_bytes();
        assert(writer@ =~= w_head + tail);
        assert(w_head.len() == w0.len() + 21);
        let length = batch_length_reservation.fill_len(writer);
        let ghost w_len = writer@;
        proof {
            lemma_int_bytes_len(length as int, 4);
            let full = w_head + tail;
            assert(w_len == overwrite(full, w0.len() + 8int, int_bytes(length as int, 4)));
            assert(w_len.len() == full.len());
            assert forall|k: int| w0.len() + 21 <= k < w_len.len() implies w_len[k] == full[k] by {}
            assert(full.subrange(w0.len() + 21int, full.len() as int) =~= tail);
        }
        assert(w_len.subrange(w0.len() + 21int, w_len.len() as int) =~= tail);
        let total = writer.len();
        assert(crc_reservation.pos() + 4 <= total);
        let crc_start = crc_reservation.end();
        let crc = checksum_castagnoli(slice_subrange(writer.as_slice(), crc_start, writer.len()));
        let mut crc_bytes: Vec<u8> = Vec::new();
        put_be(&mut crc_bytes, crc as u64, 4);
        proof {
            lemma_int_bytes_len(length as int, 4);
            crate::wire::lemma_be_bytes_len(crc as nat, 4);
            crate::wire::lemma_u32_signed(crc);
            assert(int_bytes(to_signed(crc as nat, 4), 4) == be_bytes(crc as nat, 4));
        }
        crc_reservation.fill(writer, crc_bytes.as_slice());
        assert(writer@ =~= w0 + self.bytes());
    }
}

impl<'i> Encode for Option<RecordBatch<Vec<Record<'i>>>> {
    open spec fn encode_schema() -> Schema {
        RecordSet::<'i>::batch_schema()
    }

    /// Four bytes of length, then the batch as its own `encode_len` counts
    /// it; four bytes for no batch.
    fn encode_len(&self) -> (n: usize) {
        match self {
            Some(t) => {
                proof {
                    t.lemma_bytes();
                    t.lemma_wf();
                }
                4 + t.encode_len()
            },
            None => 4,
        }
    }

    fn encodable(&self) -> (b: bool) {
        match self {
            Some(t) => {
                proof { t.lemma_wf(); }
                t.can_write()
            },
            None => true,
        }
    }

    /// The length of the batch, then the batch; `-1` for no batch.
    fn encode(&self, writer: &mut Vec<u8>) {
        match self {
            Some(t) => {
                proof {
                    t.lemma_bytes();
                    t.lemma_wf();
                    t.lemma_bytes_len();
                    lemma_int_bytes_len(0, 4);
                }
                let ghost w0 = writer@;
                let len_reservation = reserve(writer);
                t.encode(writer);
                let length = len_reservation.fill_len(writer);
                proof {
                    lemma_int_bytes_len(length as int, 4);
                }
                assert(writer@ =~= w0 + int_bytes(t.bytes().len() as int, 4) + t.bytes());
            },
            None => {
                proof { lemma_pow256_values(); }
                put_int(writer, -1, 4);
            },
        }
    }
}


/// What a read gives back of a write: parsing, at `pos` of `s`, the bytes that
/// `encode` writes for an optional record batch that can be written gives the
/// same value back (the batch, or none), and stops right after those bytes,
/// whatever follows them.
pub proof fn lemma_batch_roundtrip<'i>(x: Option<RecordBatch<Vec<Record<'i>>>>, s: Seq<u8>, pos: int)
    requires
        wf_value(RecordSet::<'i>::batch_schema(), x.value()),
        0 <= pos,
        pos + encode_value(RecordSet::<'i>::batch_schema(), x.value()).len() <= s.len(),
        s.subrange(pos, pos + encode_value(RecordSet::<'i>::batch_schema(), x.value()).len())
            == encode_value(RecordSet::<'i>::batch_schema(), x.value()),
    ensures
        parse_value(RecordSet::<'i>::batch_schema(), s, pos) == Parsed::Done(
            x.value(),
            pos + encode_value(RecordSet::<'i>::batch_schema(), x.value()).len(),
        ),
{
    RecordSet::<'i>::lemma_schema();
    lemma_parse_encode(RecordSet::<'i>::batch_schema(), x.value(), s, pos);
}

impl<'i> RecordBatch<Vec<Record<'i>>> {
    /// What `encode` writes for a batch that can be written, read back: the
    /// batch length counts the bytes after it, the magic byte is 2, the
    /// checksum is the CRC-32C of the bytes after it, the bytes parse as a
    /// record set that ends them, and checking that record set gives the
    /// batch back.
    #[verifier::spinoff_prover]
    #[verifier::rlimit(60)]
    pub proof fn lemma_encode_verify(&self)
        requires
            self.wf(),
        ensures
            ({
                let w = self.bytes();
                &&& w.len() >= 21
                &&& w.subrange(8, 12) == int_bytes(w.len() - 12, 4)
                &&& w[16] == 2
                &&& w.subrange(17, 21) == be_bytes(crc32c(w.subrange(21, w.len() as int)) as nat, 4)
                &&& parse_value(RecordSet::<'i>::schema(), w, 0) matches Parsed::Done(set, end) && end
                    == w.len() && verify_batch(set, w) == Some(self.value())
            }),
    {
        let w = self.bytes();
        let tail = self.tail_bytes();
        let crc = crc32c(tail);
        self.lemma_bytes();
        self.lemma_wf();
        self.lemma_bytes_len();
        RecordSet::<'i>::lemma_schema();
        lemma_pow256_values();
        lemma_int_bytes_len(self.base_offset as int, 8);
        lemma_int_bytes_len((9 + tail.len()) as int, 4);
        lemma_int_bytes_len(self.partition_leader_epoch as int, 4);
        lemma_int_bytes_len(2, 1);
        lemma_int_bytes_len(to_signed(crc as nat, 4), 4);
        crate::wire::lemma_u32_signed(crc);
        assert(w.subrange(8, 12) =~= int_bytes((9 + tail.len()) as int, 4));
        assert(w.subrange(16, 17) =~= int_bytes(2, 1));
        assert(int_bytes(2, 1) =~= seq![2u8]);
        assert(w.subrange(21, w.len() as int) =~= tail);
        assert(w.subrange(17, 21) =~= int_bytes(to_signed(crc as nat, 4), 4));
        let v = self.value();
        let fs = record_set_fields();
        crate::wire::lemma_written_batch(v);
        assert(w.subrange(0, w.len() as int) =~= w);
        lemma_parse_encode(Schema::Struct(fs), written_set(fs, v), w, 0);
    }
}

impl<'i> RecordBatch<Vec<Record<'i>>> {
    /// What a fetch gives back of a produce: the bytes that `encode` writes
    /// for a batch that can be written, read as a batch whose records are
    /// kept as they are, hold the same fixed fields, count the batch's
    /// records, and keep their bytes as written (uncompressed); reading that
    /// many records from those bytes gives the batch's records back, in
    /// order, and ends the bytes.
    #[verifier::spinoff_prover]
    #[verifier::rlimit(40)]
    pub proof fn lemma_fetch_of_produce(&self)
        requires
            self.wf(),
        ensures
            ({
                let w = self.bytes();
                let rb = w.subrange(61, w.len() as int);
                let f = fields_of(self.value());
                &&& raw_batch_value(w) == Some(
                    Value::Fields(
                        f.take(9).push(Value::Fields(seq![Value::Int(self.records@.len() as int), Value::Bytes(rb)])),
                    ),
                )
                &&& parse_count(Schema::Struct(stored_record_fields()), self.records@.len(), rb, 0) matches Parsed::Done(
                    Value::List(frs),
                    end,
                ) && end == rb.len() && frs.map_values(|r: Value| record_view(r)) == values_of(self.records@)
            }),
    {
        let w = self.bytes();
        let tail = self.tail_bytes();
        let vals = values_of(self.records@);
        let rbytes = records_bytes(vals);
        let f = fields_of(self.value());
        let fr = f.take(9).push(Value::Fields(seq![Value::Int(self.records@.len() as int), Value::Bytes(rbytes)]));
        lemma_pow256_values();
        RecordSet::<'i>::lemma_schema();
        assert(crate::wire::raw_tail(fr) =~= tail);
        assert(raw_body(fr) =~= w);
        lemma_int_bytes_len(self.attributes as int, 2);
        lemma_int_bytes_len(self.last_offset_delta as int, 4);
        lemma_int_bytes_len(self.first_timestamp as int, 8);
        lemma_int_bytes_len(self.max_timestamp as int, 8);
        lemma_int_bytes_len(self.producer_id as int, 8);
        lemma_int_bytes_len(self.producer_epoch as int, 2);
        lemma_int_bytes_len(self.base_sequence as int, 4);
        lemma_int_bytes_len(self.records@.len() as int, 4);
        assert(tail.len() == 40 + rbytes.len());
        assert(wf_raw(fr));
        crate::wire::lemma_raw_body(fr);
        assert(w.subrange(61, w.len() as int) =~= rbytes);
        // the records
        let rfs = stored_record_fields();
        let hfs = header_fields();
        self.lemma_record_values();
        lemma_full_records(vals);
        let frs = full_records(rfs, vals);
        assert(framed(Schema::Struct(hfs))) by {
            assert forall|k: int| 0 <= k < hfs.len() implies framed(#[trigger] hfs[k]) by {
                if k == 0 {} else {}
            }
        }
        assert(framed(Schema::Struct(rfs))) by {
            assert forall|k: int| 0 <= k < rfs.len() implies framed(#[trigger] rfs[k]) by {
                if k == 6 {} else {}
            }
        }
        assert forall|k: int| 0 <= k < frs.len() implies wf_value(Schema::Struct(rfs), #[trigger] frs[k]) by {
            assert(vals[k] == self.records@[k].value());
            assert(self.records@[k].wf());
            lemma_stored_record(vals[k]);
        }
        assert(rbytes.subrange(0, rbytes.len() as int) =~= rbytes);
        crate::wire::lemma_parse_encode_list(Schema::Struct(rfs), frs, rbytes, 0);
    }
}

/// Why the bytes `b` (not empty) do not hold a batch whose records are kept
/// as they are: too short for the fixed part, then a magic byte other than
/// 2, then a checksum that does not match.
pub open spec fn raw_batch_error(b: Seq<u8>) -> BatchReadError {
    if b.len() < 61 {
        BatchReadError::RecordSet
    } else if b[16] != 2 {
        BatchReadError::Batch(BatchError::Version)
    } else {
        BatchReadError::Batch(BatchError::Corrupted)
    }
}

/// What reading a batch whose records are kept as they are at `pos` of `s`
/// gives: the batch (or none, for null or empty bytes) with the position
/// after it, or why it failed.
pub open spec fn read_raw_batch_spec(s: Seq<u8>, pos: int) -> Result<(Value, int), BatchReadError> {
    match parse_delimited(s, pos, 4, true, false) {
        Parsed::Done(Value::Bytes(b), p) => if b.len() == 0 {
            Ok((Value::Null, p))
        } else {
            match raw_batch_value(b) {
                Some(v) => Ok((v, p)),
                None => Err(raw_batch_error(b)),
            }
        },
        Parsed::Done(_, p) => Ok((Value::Null, p)),
        Parsed::Failed(c) => Err(BatchReadError::Bytes(c)),
    }
}

/// The `i64` at `pos` of `b`.
fn i64_at(b: &[u8], pos: usize) -> (v: i64)
    requires
        pos + 8 <= b@.len(),
    ensures
        Value::Int(v as int) == int_at(b@, pos as int, 8),
{
    match be_i64(b, pos) {
        Ok((v, _)) => v,
        Err(_) => 0,
    }
}

/// The `i32` at `pos` of `b`.
fn i32_at(b: &[u8], pos: usize) -> (v: i32)
    requires
        pos + 4 <= b@.len(),
    ensures
        Value::Int(v as int) == int_at(b@, pos as int, 4),
{
    match be_i32(b, pos) {
        Ok((v, _)) => v,
        Err(_) => 0,
    }
}

/// The `i16` at `pos` of `b`.
fn i16_at(b: &[u8], pos: usize) -> (v: i16)
    requires
        pos + 2 <= b@.len(),
    ensures
        Value::Int(v as int) == int_at(b@, pos as int, 2),
{
    match be_i16(b, pos) {
        Ok((v, _)) => v,
        Err(_) => 0,
    }
}

impl<'i> RecordBatch<RawRecords<'i>> {
    /// Reads a batch from its bytes, its records kept as they are: the
    /// bytes must hold the fixed part (61 bytes), the magic byte must be 2
    /// and the checksum must match the bytes after it.
    pub fn from_bytes(b: &'i [u8]) -> (r: Result<Self, BatchReadError>)
        ensures
            match raw_batch_value(b@) {
                Some(v) => r matches Ok(x) && x.value() == v,
                None => r == Err::<Self, BatchReadError>(raw_batch_error(b@)),
            },
    {
        if b.len() < 61 {
            return Err(BatchReadError::RecordSet);
        }
        if b[16] != 2 {
            return Err(BatchReadError::Batch(BatchError::Version));
        }
        let crc = i32_at(b, 17);
        let sum = checksum_castagnoli(slice_subrange(b, 21, b.len()));
        if crc != u32_bits_as_i32(sum) {
            return Err(BatchReadError::Batch(BatchError::Corrupted));
        }
        let records = RawRecords { count: i32_at(b, 57), bytes: slice_subrange(b, 61, b.len()) };
        let batch = RecordBatch {
            base_offset: i64_at(b, 0),
            partition_leader_epoch: i32_at(b, 12),
            attributes: i16_at(b, 21),
            last_offset_delta: i32_at(b, 23),
            first_timestamp: i64_at(b, 27),
            max_timestamp: i64_at(b, 35),
            producer_id: i64_at(b, 43),
            producer_epoch: i16_at(b, 51),
            base_sequence: i32_at(b, 53),
            records,
        };
        proof {
            let v = raw_batch_value(b@).unwrap();
            assert(batch.records.value() == Value::Fields(seq![int_at(b@, 57, 4), Value::Bytes(b@.subrange(61, b@.len() as int))]));
            assert(batch.value() =~= v);
        }
        Ok(batch)
    }

    /// The bytes of the records, decompressed as the batch's attributes say
    /// (see `decompress`).
    pub fn decompressed(&self) -> (r: Result<Vec<u8>, DecompressError>)
        ensures
            match decompressed_bytes(self.attributes & 7, self.records.bytes@) {
                Ok(d) => r matches Ok(v) && v@ == d,
                Err(e) => r == Err::<Vec<u8>, DecompressError>(e),
            },
    {
        decompress(self.compression(), self.records.bytes)
    }

    /// The batch's records read from `bytes`, its records' bytes after
    /// decompression: exactly `count` records one after the other, without
    /// their stored lengths. None when the count is negative or a record
    /// cannot be read.
    pub fn decode_records<'b>(&self, bytes: &'b [u8]) -> (r: Option<Vec<Record<'b>>>)
        ensures
            self.records.count < 0 ==> r is None,
            self.records.count >= 0 ==> match parse_count(
                Schema::Struct(stored_record_fields()),
                self.records.count as nat,
                bytes@,
                0,
            ) {
                Parsed::Done(Value::List(vs), _) => r matches Some(x) && values_of(x@) == vs.map_values(
                    |v: Value| record_view(v),
                ) && x@.len() == self.records.count,
                _ => r is None,
            },
    {
        if self.records.count < 0 {
            return None;
        }
        proof {
            RecordSet::<'b>::lemma_schema();
            lemma_parse_count_len(Schema::Struct(stored_record_fields()), self.records.count as nat, bytes@, 0);
            lemma_parse_count_shape(Schema::Struct(stored_record_fields()), self.records.count as nat, bytes@, 0);
            assert(StoredRecord::<'b>::parse_schema() == Schema::Struct(stored_record_fields()));
        }
        match counted::<StoredRecord<'b>>(bytes, 0, self.records.count as usize) {
            Ok((stored, _)) => {
                let records = convert_records(&stored);
                proof {
                    match parse_count(Schema::Struct(stored_record_fields()), self.records.count as nat, bytes@, 0) {
                        Parsed::Done(Value::List(vs), _) => {
                            assert(Seq::<Value>::empty() + vs =~= vs);
                            assert(values_of(records@).len() == records@.len());
                        },
                        _ => {},
                    }
                }
                Some(records)
            },
            Err(_) => None,
        }
    }
}

/// Why the records of a fetched batch could not be read.
#[derive(Clone, Copy, Debug, PartialEq, Eq, Structural)]
pub enum RecordsError {
    /// Their bytes could not be decompressed.
    Decompress(DecompressError),
    /// The decompressed bytes do not hold as many records as the batch
    /// counts, or the count is negative.
    Records,
}

/// The records that `count` records read from `bytes` give, without their
/// stored lengths; none when the count is negative or a record cannot be
/// read.
pub open spec fn records_of(count: i32, bytes: Seq<u8>) -> Option<Seq<Value>> {
    if count < 0 {
        None
    } else {
        match parse_count(Schema::Struct(stored_record_fields()), count as nat, bytes, 0) {
            Parsed::Done(Value::List(vs), _) => Some(vs.map_values(|v: Value| record_view(v))),
            _ => None,
        }
    }
}

impl<'i> RecordBatch<RawRecords<'i>> {
    /// The batch's records: their bytes are decompressed into `buf` as the
    /// batch's attributes say, and `count` records are read from there, in
    /// order. On a decompression error `buf` is left as it was.
    pub fn records_into<'b>(&self, buf: &'b mut Vec<u8>) -> (r: Result<Vec<Record<'b>>, RecordsError>)
        ensures
            match decompressed_bytes(self.attributes & 7, self.records.bytes@) {
                Ok(d) => final(buf)@ == d && match records_of(self.records.count, d) {
                    Some(rs) => r matches Ok(x) && values_of(x@) == rs,
                    None => r == Err::<Vec<Record<'b>>, RecordsError>(RecordsError::Records),
                },
                Err(e) => r == Err::<Vec<Record<'b>>, RecordsError>(RecordsError::Decompress(e))
                    && final(buf)@ == old(buf)@,
            },
    {
        match self.decompressed() {
            Ok(d) => {
                *buf = d;
                let bytes: &'b Vec<u8> = buf;
                match self.decode_records(bytes.as_slice()) {
                    Some(records) => Ok(records),
                    None => Err(RecordsError::Records),
                }
            },
            Err(e) => Err(RecordsError::Decompress(e)),
        }
    }
}

/// Reads a batch held in nullable bytes with its records kept as they are,
/// saying why it fails: null or empty bytes give `None`; otherwise the
/// bytes must hold the fixed part of a batch whose magic byte is 2 and
/// whose checksum matches.
pub fn read_raw_batch<'i>(input: &'i [u8], pos: usize) -> (r: Result<(Option<RecordBatch<RawRecords<'i>>>, usize), BatchReadError>)
    requires
        pos <= input@.len(),
    ensures
        match read_raw_batch_spec(input@, pos as int) {
            Ok((v, q)) => r matches Ok((x, p)) && x.value() == v && p == q,
            Err(e) => r == Err::<(Option<RecordBatch<RawRecords<'i>>>, usize), BatchReadError>(e),
        },
        r matches Ok((_, p)) ==> pos <= p <= input@.len(),
{
    match nullable_bytes(input, pos) {
        Err(c) => Err(BatchReadError::Bytes(c)),
        Ok((None, p)) => Ok((None, p)),
        Ok((Some(b), p)) => {
            if b.len() == 0 {
                return Ok((None, p));
            }
            match RecordBatch::from_bytes(b) {
                Ok(batch) => Ok((Some(batch), p)),
                Err(e) => Err(e),
            }
        },
    }
}

/// Reads a batch held in nullable bytes with its records kept as they are,
/// as a field of a message: `read_raw_batch`, with every failure of the
/// bytes inside a committed parse failure.
pub fn raw_record_batch<'i>(input: &'i [u8], pos: usize) -> (r: Result<(Option<RecordBatch<RawRecords<'i>>>, usize), bool>)
    requires
        pos <= input@.len(),
    ensures
        agrees(r, parse_value(Schema::RawBatch, input@, pos as int)),
        r matches Ok((_, p)) ==> pos <= p <= input@.len(),
{
    match read_raw_batch(input, pos) {
        Ok(x) => Ok(x),
        Err(BatchReadError::Bytes(c)) => Err(c),
        Err(_) => Err(true),
    }
}

impl<'i> RecordBatch<RawRecords<'i>> {
    /// The batch can be written: its records' bytes leave room for the
    /// fixed part within an `i32` length.
    pub open spec fn wf(&self) -> bool {
        61 + self.records.bytes@.len() <= i32::MAX
    }

    /// The batch's values are those of a batch that can be written.
    proof fn lemma_wf(&self)
        ensures
            self.value() matches Value::Fields(f) && (wf_raw(f) <==> self.wf()),
    {
        lemma_pow256_values();
    }

    /// Appends the batch (after its length): the batch length and checksum
    /// are filled in once the rest is written.
    pub fn encode(&self, writer: &mut Vec<u8>)
        requires
            self.wf(),
        ensures
            final(writer)@ == old(writer)@ + raw_body(fields_of(self.value())),
    {
        let ghost w0 = writer@;
        let ghost f = fields_of(self.value());
        let ghost tail = crate::wire::raw_tail(f);
        proof {
            lemma_pow256_values();
            lemma_int_bytes_len(self.base_offset as int, 8);
            lemma_int_bytes_len(0, 4);
            lemma_int_bytes_len(self.partition_leader_epoch as int, 4);
            lemma_int_bytes_len(2, 1);
        }
        put_int(writer, self.base_offset, 8);
        let batch_length_reservation = reserve(writer);
        assert(batch_length_reservation.pos() == w0.len() + 8);
        put_int(writer, self.partition_leader_epoch as i64, 4);
        put_int(writer, 2, 1);
        let crc_reservation = reserve(writer);
        assert(crc_reservation.pos() == w0.len() + 17);
        let ghost w_head = writer@;
        assert(w_head =~= w0 + int_bytes(self.base_offset as int, 8) + int_bytes(0, 4) + int_bytes(
            self.partition_leader_epoch as int,
            4,
        ) + int_bytes(2, 1) + int_bytes(0, 4));
        put_int(writer, self.attributes as i64, 2);
        put_int(writer, self.last_offset_delta as i64, 4);
        put_int(writer, self.first_timestamp, 8);
        put_int(writer, self.max_timestamp, 8);
        put_int(writer, self.producer_id, 8);
        put_int(writer, self.producer_epoch as i64, 2);
        put_int(writer, self.base_sequence as i64, 4);
        put_int(writer, self.records.count as i64, 4);
        put_bytes(writer, self.records.bytes);
        assert(writer@ =~= w_head + tail);
        assert(w_head.len() == w0.len() + 21);
        proof {
            lemma_int_bytes_len(self.attributes as int, 2);
            lemma_int_bytes_len(self.last_offset_delta as int, 4);
            lemma_int_bytes_len(self.first_timestamp as int, 8);
            lemma_int_bytes_len(self.max_timestamp as int, 8);
            lemma_int_bytes_len(self.producer_id as int, 8);
            lemma_int_bytes_len(self.producer_epoch as int, 2);
            lemma_int_bytes_len(self.base_sequence as int, 4);
            lemma_int_bytes_len(self.records.count as int, 4);
            assert(tail.len() == 40 + self.records.bytes@.len());
        }
        let length = batch_length_reservation.fill_len(writer);
        let ghost w_len = writer@;
        proof {
            lemma_int_bytes_len(length as int, 4);
            let full = w_head + tail;
            assert(w_len == overwrite(full, w0.len() + 8int, int_bytes(length as int, 4)));
            assert(w_len.len() == full.len());
            assert forall|k: int| w0.len() + 21 <= k < w_len.len() implies w_len[k] == full[k] by {}
            assert(full.subrange(w0.len() + 21int, full.len() as int) =~= tail);
        }
        assert(w_len.subrange(w0.len() + 21int, w_len.len() as int) =~= tail);
        let total = writer.len();
        assert(crc_reservation.pos() + 4 <= total);
        let crc_start = crc_reservation.end();
        let crc = checksum_castagnoli(slice_subrange(writer.as_slice(), crc_start, writer.len()));
        let mut crc_bytes: Vec<u8> = Vec::new();
        put_be(&mut crc_bytes, crc as u64, 4);
        proof {
            crate::wire::lemma_be_bytes_len(crc as nat, 4);
            crate::wire::lemma_u32_signed(crc);
            assert(int_bytes(to_signed(crc as nat, 4), 4) == be_bytes(crc as nat, 4));
        }
        crc_reservation.fill(writer, crc_bytes.as_slice());
        assert(writer@ =~= w0 + raw_body(f));
    }
}

impl<'i> Encode for Option<RecordBatch<RawRecords<'i>>> {
    open spec fn encode_schema() -> Schema {
        Schema::RawBatch
    }

    /// Four bytes of length, the 61 bytes of the fixed part, then the
    /// records' bytes; four bytes for no batch.
    fn encode_len(&self) -> (n: usize) {
        match self {
            Some(t) => {
                proof {
                    t.lemma_wf();
                    crate::wire::lemma_raw_body(fields_of(t.value()));
                    crate::wire::lemma_reported_len(Schema::RawBatch, self.value());
                    lemma_int_bytes_len(raw_body(fields_of(t.value())).len() as int, 4);
                }
                65 + t.records.bytes.len()
            },
            None => {
                proof {
                    crate::wire::lemma_reported_len(Schema::RawBatch, self.value());
                    lemma_int_bytes_len(-1, 4);
                }
                4
            },
        }
    }

    fn encodable(&self) -> (b: bool) {
        match self {
            Some(t) => {
                proof { t.lemma_wf(); }
                t.records.bytes.len() <= 2147483647 - 61
            },
            None => true,
        }
    }

    /// The length of the batch, then the batch; `-1` for no batch.
    fn encode(&self, writer: &mut Vec<u8>) {
        match self {
            Some(t) => {
                proof {
                    t.lemma_wf();
                    crate::wire::lemma_raw_body(fields_of(t.value()));
                    lemma_int_bytes_len(0, 4);
                }
                let ghost w0 = writer@;
                let len_reservation = reserve(writer);
                t.encode(writer);
                let length = len_reservation.fill_len(writer);
                proof {
                    lemma_int_bytes_len(length as int, 4);
                }
                assert(writer@ =~= w0 + int_bytes(raw_body(fields_of(t.value())).len() as int, 4) + raw_body(
                    fields_of(t.value()),
                ));
            },
            None => {
                proof { lemma_pow256_values(); }
                put_int(writer, -1, 4);
            },
        }
    }
}

/// What a read gives back of a write, for a batch whose records are kept as
/// they are: parsing, at `pos` of `s`, the bytes that `encode` writes for an
/// optional batch that can be written gives the same value back, and stops
/// right after those bytes, whatever follows them.
pub proof fn lemma_raw_batch_roundtrip<'i>(x: Option<RecordBatch<RawRecords<'i>>>, s: Seq<u8>, pos: int)
    requires
        wf_value(Schema::RawBatch, x.value()),
        0 <= pos,
        pos + encode_value(Schema::RawBatch, x.value()).len() <= s.len(),
        s.subrange(pos, pos + encode_value(Schema::RawBatch, x.value()).len()) == encode_value(
            Schema::RawBatch,
            x.value(),
        ),
    ensures
        parse_value(Schema::RawBatch, s, pos) == Parsed::Done(
            x.value(),
            pos + encode_value(Schema::RawBatch, x.value()).len(),
        ),
{
    lemma_parse_encode(Schema::RawBatch, x.value(), s, pos);
}

} // verus!
